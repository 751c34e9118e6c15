//! Task keys: the identity of a task.
//!
//! A key is either *phony* (a plain name) or a *file* (a path). In a
//! configuration file a key is written relative to that file
//! ([`TaskKeyRelative`]); joined with the directory of the file it becomes a
//! [`TaskKey`], whose identity is its canonical string.

use crate::order::{lemma_text_order_chain, lemma_text_order_flip, lemma_text_order_same};
use crate::order::{str_order, text_order};
use crate::path::{joined_path, normalized, NormarizedPath};
use std::cmp::Ordering;
use vstd::prelude::*;
use vstd::string::StrSliceExecFns;

verus! {

/// An ASCII letter.
pub open spec fn is_ascii_letter(c: char) -> bool {
    ('a' <= c && c <= 'z') || ('A' <= c && c <= 'Z')
}

/// A character that may follow the first letter of a phony name.
pub open spec fn is_name_char(c: char) -> bool {
    is_ascii_letter(c) || ('0' <= c && c <= '9') || c == '_' || c == '-'
}

/// Whether every character of `s` from position `from` on may stand in a
/// phony name.
pub open spec fn all_name_chars(s: Seq<char>, from: int) -> bool {
    forall|i: int| from <= i < s.len() ==> is_name_char(#[trigger] s[i])
}

/// The phony names: a letter followed by letters, digits, `_` and `-`.
pub open spec fn is_phony_name(s: Seq<char>) -> bool {
    s.len() > 0 && is_ascii_letter(s[0]) && all_name_chars(s, 1)
}

/// The strings that are read as paths: those that hold `/` or `.`.
pub open spec fn is_path_like(s: Seq<char>) -> bool {
    s.contains('/') || s.contains('.')
}

/// The message that explains why `s` is no phony name.
pub open spec fn phony_complaint(s: Seq<char>) -> Seq<char> {
    if s.len() == 0 {
        "Empty string is not allowed"@
    } else if !is_ascii_letter(s[0]) {
        "First character must be alphabetic"@
    } else {
        "Only /^[a-zA-Z][a-zA-Z0-9_-]*$/ is allowed"@
    }
}

/// The message that explains why `s` is no path.
pub open spec fn path_complaint(s: Seq<char>) -> Seq<char> {
    if s.len() == 0 {
        "Empty string is not allowed"@
    } else {
        "Path must contain '/' or '.'"@
    }
}

/// What a key is, apart from how it is stored.
pub enum KeyView {
    Phony(Seq<char>),
    File(Seq<char>),
}

impl KeyView {
    /// The string that the key is written as.
    pub open spec fn text(self) -> Seq<char> {
        match self {
            KeyView::Phony(name) => name,
            KeyView::File(path) => path,
        }
    }

    /// Whether the key names a file.
    pub open spec fn is_file(self) -> bool {
        self is File
    }
}

/// Why a string is no key.
pub enum KeyFault {
    Empty,
    Phony(Seq<char>),
    Path(Seq<char>),
}

/// How a string is read as a relative key.
pub open spec fn parse_key(s: Seq<char>) -> Result<KeyView, KeyFault> {
    if s.len() == 0 {
        Err(KeyFault::Empty)
    } else if is_path_like(s) {
        Ok(KeyView::File(s))
    } else if is_phony_name(s) {
        Ok(KeyView::Phony(s))
    } else {
        Err(KeyFault::Phony(phony_complaint(s)))
    }
}

/// The key that a relative key stands for in a file of directory `base`.
pub open spec fn resolve_key(rel: KeyView, base: Seq<char>) -> KeyView {
    match rel {
        KeyView::Phony(name) => KeyView::Phony(name),
        KeyView::File(path) => KeyView::File(normalized(joined_path(base, path), base)),
    }
}

/// Where the key `a` stands against the key `b`: `-1` before it, `0` with
/// it, `1` after it. Phony keys come before file keys; two keys of one kind
/// stand as their texts do.
pub open spec fn key_order(a: KeyView, b: KeyView) -> int {
    match (a, b) {
        (KeyView::Phony(_), KeyView::File(_)) => -1,
        (KeyView::File(_), KeyView::Phony(_)) => 1,
        (KeyView::Phony(x), KeyView::Phony(y)) => text_order(x, y),
        (KeyView::File(x), KeyView::File(y)) => text_order(x, y),
    }
}

/// Two keys stand together exactly when they are of one kind and have the
/// same text.
pub proof fn lemma_key_order_same(a: KeyView, b: KeyView)
    ensures
        key_order(a, b) == 0 <==> a == b,
        -1 <= key_order(a, b) <= 1,
{
    lemma_text_order_same(a.text(), b.text());
}

/// Turning two keys round turns the answer round.
pub proof fn lemma_key_order_flip(a: KeyView, b: KeyView)
    ensures
        key_order(b, a) == -key_order(a, b),
{
    lemma_text_order_flip(a.text(), b.text());
}

/// A key that comes before, or stands with, a key that comes before, or
/// stands with, a third does so against the third; and it comes before the
/// third where one of the two steps is "before".
pub proof fn lemma_key_order_chain(a: KeyView, b: KeyView, c: KeyView)
    requires
        key_order(a, b) <= 0,
        key_order(b, c) <= 0,
    ensures
        key_order(a, c) <= 0,
        key_order(a, b) < 0 || key_order(b, c) < 0 ==> key_order(a, c) < 0,
{
    if (a is Phony) == (b is Phony) && (b is Phony) == (c is Phony) {
        lemma_text_order_chain(a.text(), b.text(), c.text());
    }
}

/// The order as a number.
pub open spec fn order_number(o: Ordering) -> int {
    match o {
        Ordering::Less => -1,
        Ordering::Equal => 0,
        Ordering::Greater => 1,
    }
}

fn as_ordering(r: i8) -> (o: Ordering)
    requires
        -1 <= r <= 1,
    ensures
        order_number(o) == r,
{
    if r < 0 {
        Ordering::Less
    } else if r > 0 {
        Ordering::Greater
    } else {
        Ordering::Equal
    }
}

/// A string that was read as a key is written as that same string.
pub proof fn lemma_parse_then_text(s: Seq<char>)
    ensures
        parse_key(s) is Ok ==> parse_key(s)->Ok_0.text() == s,
        parse_key(s) is Ok <==> s.len() > 0 && (is_path_like(s) || is_phony_name(s)),
{
}

/// A resolved phony key is written as its name; a resolved file key is
/// written as the normalized absolute path of the file.
pub proof fn lemma_resolved_text(rel: KeyView, base: Seq<char>)
    ensures
        rel is Phony ==> resolve_key(rel, base).text() == rel.text(),
        rel is File ==> resolve_key(rel, base).text() == normalized(
            joined_path(base, rel.text()),
            base,
        ),
        resolve_key(rel, base).is_file() == rel.is_file(),
{
}

/// A phony name never reads as a path, so the two kinds of relative key
/// never share a string.
pub proof fn lemma_phony_is_not_path_like(s: Seq<char>)
    requires
        is_phony_name(s),
    ensures
        !is_path_like(s),
{
    if s.contains('/') {
        let i = choose|i: int| 0 <= i < s.len() && s[i] == '/';
        assert(i == 0 || is_name_char(s[i]));
    }
    if s.contains('.') {
        let i = choose|i: int| 0 <= i < s.len() && s[i] == '.';
        assert(i == 0 || is_name_char(s[i]));
    }
}

fn check_ascii_letter(c: char) -> (ok: bool)
    ensures
        ok == is_ascii_letter(c),
{
    (c >= 'a' && c <= 'z') || (c >= 'A' && c <= 'Z')
}

fn check_name_char(c: char) -> (ok: bool)
    ensures
        ok == is_name_char(c),
{
    check_ascii_letter(c) || (c >= '0' && c <= '9') || c == '_' || c == '-'
}

/// Whether `s` holds the character `c`.
pub fn has_char(s: &str, c: char) -> (found: bool)
    ensures
        found == s@.contains(c),
{
    let n = s.unicode_len();
    let mut i: usize = 0;
    while i < n
        invariant
            n == s@.len(),
            i <= n,
            forall|j: int| 0 <= j < i ==> s@[j] != c,
        decreases n - i,
    {
        if s.get_char(i) == c {
            return true;
        }
        i += 1;
    }
    false
}

/// Whether `s` reads as a path.
pub fn check_path_like(s: &str) -> (ok: bool)
    ensures
        ok == is_path_like(s@),
{
    has_char(s, '/') || has_char(s, '.')
}

/// String representing the Phony task.
/// Must match `^[a-zA-Z][a-zA-Z0-9_-]*$`.
#[derive(Debug)]
pub struct PhonyTaskString {
    inner: String,
}

/// Error when parsing PhonyTaskString.
#[derive(Debug)]
pub struct PhonyTaskStringParseError(pub &'static str);

impl View for PhonyTaskString {
    type V = Seq<char>;

    closed spec fn view(&self) -> Seq<char> {
        self.inner@
    }
}

impl PhonyTaskString {
    /// Reads `value` as a phony name, or says why it is none.
    pub fn try_from(value: String) -> (res: Result<PhonyTaskString, PhonyTaskStringParseError>)
        ensures
            res is Ok <==> is_phony_name(value@),
            res is Ok ==> res->Ok_0@ == value@,
            res is Err ==> res->Err_0.0@ == phony_complaint(value@),
    {
        let n = value.as_str().unicode_len();
        if n == 0 {
            return Err(PhonyTaskStringParseError("Empty string is not allowed"));
        }
        if !check_ascii_letter(value.as_str().get_char(0)) {
            return Err(PhonyTaskStringParseError("First character must be alphabetic"));
        }
        let mut i: usize = 1;
        while i < n
            invariant
                n == value@.len(),
                1 <= i <= n,
                is_ascii_letter(value@[0]),
                forall|j: int| 1 <= j < i ==> is_name_char(#[trigger] value@[j]),
            decreases n - i,
        {
            if !check_name_char(value.as_str().get_char(i)) {
                return Err(
                    PhonyTaskStringParseError("Only /^[a-zA-Z][a-zA-Z0-9_-]*$/ is allowed"),
                );
            }
            i += 1;
        }
        Ok(PhonyTaskString { inner: value })
    }

    /// The name.
    pub fn as_str(&self) -> (s: &str)
        ensures
            s@ == self@,
    {
        self.inner.as_str()
    }

    /// The name, as the string that holds it.
    pub fn as_string(&self) -> (s: &String)
        ensures
            s@ == self@,
    {
        &self.inner
    }

    /// A copy of the name.
    pub fn duplicate(&self) -> (copy: PhonyTaskString)
        ensures
            copy@ == self@,
    {
        PhonyTaskString { inner: self.inner.clone() }
    }
}

/// String representing the Path task.
/// Must contain '/' or '.'.
#[derive(Debug)]
pub struct PathTaskString {
    inner: String,
}

/// Error when parsing PathTaskString.
#[derive(Debug)]
pub struct PathTaskStringParseError(pub &'static str);

impl View for PathTaskString {
    type V = Seq<char>;

    closed spec fn view(&self) -> Seq<char> {
        self.inner@
    }
}

impl PathTaskString {
    /// Reads `value` as a path, or says why it is none.
    pub fn try_from(value: String) -> (res: Result<PathTaskString, PathTaskStringParseError>)
        ensures
            res is Ok <==> is_path_like(value@),
            res is Ok ==> res->Ok_0@ == value@,
            res is Err ==> res->Err_0.0@ == path_complaint(value@),
    {
        if value.as_str().unicode_len() == 0 {
            assert(!value@.contains('/') && !value@.contains('.'));
            return Err(PathTaskStringParseError("Empty string is not allowed"));
        }
        if check_path_like(value.as_str()) {
            Ok(PathTaskString { inner: value })
        } else {
            Err(PathTaskStringParseError("Path must contain '/' or '.'"))
        }
    }

    /// The path as it was written.
    pub fn as_str(&self) -> (s: &str)
        ensures
            s@ == self@,
    {
        self.inner.as_str()
    }

    /// The path as it was written, as the string that holds it.
    pub fn as_string(&self) -> (s: &String)
        ensures
            s@ == self@,
    {
        &self.inner
    }

    /// A copy of the path.
    pub fn duplicate(&self) -> (copy: PathTaskString)
        ensures
            copy@ == self@,
    {
        PathTaskString { inner: self.inner.clone() }
    }
}

/// TaskKey string data without the base path information.
#[derive(Debug)]
pub enum TaskKeyRelative {
    Phony(PhonyTaskString),
    File(PathTaskString),
}

/// Error when parsing TaskKey.
#[derive(Debug)]
pub enum TaskKeyParseError {
    Empty,
    Phony(PhonyTaskStringParseError),
    Path(PathTaskStringParseError),
}

impl View for TaskKeyParseError {
    type V = KeyFault;

    open spec fn view(&self) -> KeyFault {
        match self {
            TaskKeyParseError::Empty => KeyFault::Empty,
            TaskKeyParseError::Phony(e) => KeyFault::Phony(e.0@),
            TaskKeyParseError::Path(e) => KeyFault::Path(e.0@),
        }
    }
}

impl TaskKeyParseError {
    /// The message of the error.
    pub fn message(&self) -> (msg: &'static str)
        ensures
            self@ is Empty ==> msg@ == "empty string is not allowed"@,
            self@ is Phony ==> msg@ == self@->Phony_0,
            self@ is Path ==> msg@ == self@->Path_0,
    {
        match self {
            TaskKeyParseError::Empty => "empty string is not allowed",
            TaskKeyParseError::Phony(e) => e.0,
            TaskKeyParseError::Path(e) => e.0,
        }
    }
}

/// The view of what parsing returned.
pub open spec fn parsed_view(res: Result<TaskKeyRelative, TaskKeyParseError>) -> Result<
    KeyView,
    KeyFault,
> {
    match res {
        Ok(key) => Ok(key@),
        Err(e) => Err(e@),
    }
}

impl View for TaskKeyRelative {
    type V = KeyView;

    open spec fn view(&self) -> KeyView {
        match self {
            TaskKeyRelative::Phony(name) => KeyView::Phony(name@),
            TaskKeyRelative::File(path) => KeyView::File(path@),
        }
    }
}

impl TaskKeyRelative {
    /// The invariant of a relative key: a phony key holds a phony name and a
    /// file key holds a string that reads as a path.
    pub open spec fn wf(&self) -> bool {
        match self {
            TaskKeyRelative::Phony(name) => is_phony_name(name@),
            TaskKeyRelative::File(path) => is_path_like(path@),
        }
    }

    /// Reads `value` as a key: the empty string is refused, a string with `/`
    /// or `.` is a file, and anything else must be a phony name.
    pub fn try_from(value: String) -> (res: Result<TaskKeyRelative, TaskKeyParseError>)
        ensures
            parsed_view(res) == parse_key(value@),
            res is Ok ==> res->Ok_0.wf(),
    {
        if value.as_str().unicode_len() == 0 {
            return Err(TaskKeyParseError::Empty);
        }
        if check_path_like(value.as_str()) {
            match PathTaskString::try_from(value) {
                Ok(path) => Ok(TaskKeyRelative::File(path)),
                Err(e) => Err(TaskKeyParseError::Path(e)),
            }
        } else {
            match PhonyTaskString::try_from(value) {
                Ok(name) => Ok(TaskKeyRelative::Phony(name)),
                Err(e) => Err(TaskKeyParseError::Phony(e)),
            }
        }
    }

    /// The string that the key was read from.
    pub fn as_str(&self) -> (s: &str)
        ensures
            s@ == self@.text(),
    {
        match self {
            TaskKeyRelative::Phony(name) => name.as_str(),
            TaskKeyRelative::File(path) => path.as_str(),
        }
    }

    /// The string that the key was read from, as the string that holds it.
    pub fn as_string(&self) -> (s: &String)
        ensures
            s@ == self@.text(),
    {
        match self {
            TaskKeyRelative::Phony(name) => name.as_string(),
            TaskKeyRelative::File(path) => path.as_string(),
        }
    }

    /// Where this key stands against `other`, as a number.
    pub fn order(&self, other: &TaskKeyRelative) -> (r: i8)
        ensures
            r == key_order(self@, other@),
    {
        match (self, other) {
            (TaskKeyRelative::Phony(_), TaskKeyRelative::File(_)) => -1,
            (TaskKeyRelative::File(_), TaskKeyRelative::Phony(_)) => 1,
            (TaskKeyRelative::Phony(a), TaskKeyRelative::Phony(b)) => str_order(
                a.as_str(),
                b.as_str(),
            ),
            (TaskKeyRelative::File(a), TaskKeyRelative::File(b)) => str_order(
                a.as_str(),
                b.as_str(),
            ),
        }
    }

    /// Where this key stands against `other`.
    pub fn cmp(&self, other: &TaskKeyRelative) -> (o: Ordering)
        ensures
            order_number(o) == key_order(self@, other@),
    {
        proof {
            lemma_key_order_same(self@, other@);
        }
        as_ordering(self.order(other))
    }

    /// A copy of the key.
    pub fn duplicate(&self) -> (copy: TaskKeyRelative)
        ensures
            copy@ == self@,
    {
        match self {
            TaskKeyRelative::Phony(name) => TaskKeyRelative::Phony(name.duplicate()),
            TaskKeyRelative::File(path) => TaskKeyRelative::File(path.duplicate()),
        }
    }

    /// Pairs the key with the directory it is relative to.
    pub fn as_task_key<'a>(&'a self, base: &'a NormarizedPath) -> (key_ref: TaskKeyRef<'a>)
        ensures
            key_ref.relative() == self@,
            key_ref.base() == base@,
    {
        TaskKeyRef::new(self, base)
    }

    /// Resolves the key against the directory `base`.
    pub fn into_task_key(self, base: &NormarizedPath) -> (key: TaskKey)
        ensures
            key@ == resolve_key(self@, base@),
    {
        self.as_task_key(base).into_task_key()
    }
}

/// Reference to TaskKey: a relative key together with its base directory.
pub struct TaskKeyRef<'a> {
    inner: &'a TaskKeyRelative,
    base: &'a NormarizedPath,
}

impl<'a> TaskKeyRef<'a> {
    /// The relative key behind the reference.
    pub closed spec fn relative(&self) -> KeyView {
        self.inner@
    }

    /// The directory behind the reference.
    pub closed spec fn base(&self) -> Seq<char> {
        self.base@
    }

    fn new(inner: &'a TaskKeyRelative, base: &'a NormarizedPath) -> (key_ref: TaskKeyRef<'a>)
        ensures
            key_ref.relative() == inner@,
            key_ref.base() == base@,
    {
        TaskKeyRef { inner, base }
    }

    /// The resolved key.
    pub fn as_task_key(&self) -> (key: TaskKey)
        ensures
            key@ == resolve_key(self.relative(), self.base()),
    {
        match self.inner {
            TaskKeyRelative::Phony(name) => TaskKey::Phony(name.duplicate()),
            TaskKeyRelative::File(path) => TaskKey::File(self.base.join(path.as_str())),
        }
    }

    /// The resolved key, giving up the reference.
    pub fn into_task_key(self) -> (key: TaskKey)
        ensures
            key@ == resolve_key(self.relative(), self.base()),
    {
        self.as_task_key()
    }

    /// Where the relative key behind this reference stands against the one
    /// behind `other`.
    pub fn cmp(&self, other: &TaskKeyRef<'a>) -> (o: Ordering)
        ensures
            order_number(o) == key_order(self.relative(), other.relative()),
    {
        self.inner.cmp(other.inner)
    }

    /// Whether two references hold the same relative key.
    pub fn same_as(&self, other: &TaskKeyRef<'a>) -> (same: bool)
        ensures
            same == (self.relative().text() == other.relative().text()),
    {
        *self.inner.as_string() == *other.inner.as_string()
    }
}

/// TaskKey is either Phony or File.
#[derive(Debug)]
pub enum TaskKey {
    Phony(PhonyTaskString),
    File(NormarizedPath),
}

impl View for TaskKey {
    type V = KeyView;

    open spec fn view(&self) -> KeyView {
        match self {
            TaskKey::Phony(name) => KeyView::Phony(name@),
            TaskKey::File(path) => KeyView::File(path@),
        }
    }
}

impl TaskKey {
    /// The canonical string of the key: two keys are the same key exactly
    /// when their canonical strings are equal.
    pub open spec fn ident(&self) -> Seq<char> {
        self@.text()
    }

    /// The canonical string of the key.
    pub fn as_str(&self) -> (s: &str)
        ensures
            s@ == self.ident(),
    {
        match self {
            TaskKey::Phony(name) => name.as_str(),
            TaskKey::File(path) => path.as_abs_str(),
        }
    }

    /// The canonical string of the key, as the string that holds it.
    pub fn as_string(&self) -> (s: &String)
        ensures
            s@ == self.ident(),
    {
        match self {
            TaskKey::Phony(name) => name.as_string(),
            TaskKey::File(path) => path.as_abs_string(),
        }
    }

    /// Whether the key names a file.
    pub fn is_file(&self) -> (file: bool)
        ensures
            file == self@.is_file(),
    {
        match self {
            TaskKey::Phony(_) => false,
            TaskKey::File(_) => true,
        }
    }

    /// Whether two keys are the same key.
    pub fn same_as(&self, other: &TaskKey) -> (same: bool)
        ensures
            same == (self.ident() == other.ident()),
    {
        *self.as_string() == *other.as_string()
    }

    /// Where this key stands against `other`, as a number.
    pub fn order(&self, other: &TaskKey) -> (r: i8)
        ensures
            r == key_order(self@, other@),
    {
        match (self, other) {
            (TaskKey::Phony(_), TaskKey::File(_)) => -1,
            (TaskKey::File(_), TaskKey::Phony(_)) => 1,
            (TaskKey::Phony(a), TaskKey::Phony(b)) => str_order(a.as_str(), b.as_str()),
            (TaskKey::File(a), TaskKey::File(b)) => str_order(a.as_abs_str(), b.as_abs_str()),
        }
    }

    /// Where this key stands against `other`.
    pub fn cmp(&self, other: &TaskKey) -> (o: Ordering)
        ensures
            order_number(o) == key_order(self@, other@),
    {
        proof {
            lemma_key_order_same(self@, other@);
        }
        as_ordering(self.order(other))
    }

    /// A copy of the key.
    pub fn duplicate(&self) -> (copy: TaskKey)
        ensures
            copy@ == self@,
    {
        match self {
            TaskKey::Phony(name) => TaskKey::Phony(name.duplicate()),
            TaskKey::File(path) => TaskKey::File(path.duplicate()),
        }
    }
}

} // verus!
