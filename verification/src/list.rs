//! Lists of the tasks and of the errors that the configuration files hold.
//!
//! The lists are plain values; [`TasksListItem::to_line`] and its companions
//! lay an item out as plain text. Colours are left to whoever prints.

use crate::fs::{Ruskfile, RuskfileComposer};
use crate::order::{lemma_text_order_chain, lemma_text_order_flip, lemma_text_order_same};
use crate::order::{str_order, text_order};
use crate::path::NormarizedPath;
use crate::rusk::{lines_of, text_lines, texts};
use crate::taskkey::{key_order, lemma_key_order_chain, lemma_key_order_flip};
use crate::taskkey::{lemma_key_order_same, order_number, resolve_key};
use crate::taskkey::{KeyView, TaskKey, TaskKeyRelative};
use std::cmp::Ordering;
use unicode_width::UnicodeWidthStr;
use vstd::prelude::*;
use vstd::string::StringExecFns;

verus! {

/// The number of columns that `unicode_width` gives a text on a terminal.
pub uninterp spec fn text_width(text: Seq<char>) -> usize;

/// Calls `unicode_width::UnicodeWidthStr::width`. The contract only names
/// the result.
#[verifier::external_body]
fn display_width(text: &str) -> (width: usize)
    ensures
        width == text_width(text@),
{
    text.width()
}

/// Task content
pub struct TaskListItemContent {
    /// The key as the configuration file has it
    pub relative: TaskKeyRelative,
    /// TaskKey
    pub key: TaskKey,
    /// Task description
    pub description: Option<String>,
}

/// Item of tasks_list
pub struct TasksListItem {
    /// Task content
    pub content: Result<TaskListItemContent, String>,
    /// Path to rusk.toml
    pub path: NormarizedPath,
}

/// What a listed task holds.
pub struct ContentView {
    pub relative: KeyView,
    pub key: KeyView,
    pub description: Option<Seq<char>>,
}

/// What an item of a list holds.
pub struct ItemView {
    pub content: Result<ContentView, Seq<char>>,
    pub path: Seq<char>,
}

impl View for TasksListItem {
    type V = ItemView;

    open spec fn view(&self) -> ItemView {
        ItemView {
            content: match self.content {
                Ok(c) => Ok(
                    ContentView {
                        relative: c.relative@,
                        key: c.key@,
                        description: match c.description {
                            Some(d) => Some(d@),
                            None => None,
                        },
                    },
                ),
                Err(e) => Err(e@),
            },
            path: self.path@,
        }
    }
}

/// The views of a sequence of items.
pub open spec fn item_views(items: Seq<TasksListItem>) -> Seq<ItemView> {
    Seq::new(items.len(), |i: int| items[i]@)
}

/// The item for the `t`-th task of a file.
pub open spec fn task_item(file: Ruskfile, t: int) -> ItemView {
    let entry = file.content->Ok_0.tasks@[t];
    ItemView {
        content: Ok(
            ContentView {
                relative: entry.0@,
                key: resolve_key(entry.0@, file.dir@),
                description: match entry.1.description {
                    Some(d) => Some(d@),
                    None => None,
                },
            },
        ),
        path: file.path@,
    }
}

/// The items for the tasks of one file: none for a file that could not be
/// read.
pub open spec fn file_items(file: Ruskfile) -> Seq<ItemView> {
    match file.content {
        Err(_) => Seq::empty(),
        Ok(config) => Seq::new(config.tasks@.len(), |t: int| task_item(file, t)),
    }
}

/// The items for the tasks of the first `upto` files, file by file.
pub open spec fn tasks_listed(files: Seq<Ruskfile>, upto: int) -> Seq<ItemView>
    decreases upto,
{
    if upto <= 0 {
        Seq::empty()
    } else {
        tasks_listed(files, upto - 1) + file_items(files[upto - 1])
    }
}

/// The item for a file that could not be read: none for a file that could.
pub open spec fn file_errors(file: Ruskfile) -> Seq<ItemView> {
    match file.content {
        Err(e) => seq![ItemView { content: Err(e@), path: file.path@ }],
        Ok(_) => Seq::empty(),
    }
}

/// The items for those of the first `upto` files that could not be read.
pub open spec fn errors_listed(files: Seq<Ruskfile>, upto: int) -> Seq<ItemView>
    decreases upto,
{
    if upto <= 0 {
        Seq::empty()
    } else {
        errors_listed(files, upto - 1) + file_errors(files[upto - 1])
    }
}

/// Where the content of the item `a` stands against that of the item `b`. A
/// task comes before an error; two tasks stand as their keys do, two errors
/// as their messages do.
pub open spec fn content_order(a: ItemView, b: ItemView) -> int {
    match (a.content, b.content) {
        (Ok(_), Err(_)) => -1,
        (Err(_), Ok(_)) => 1,
        (Ok(x), Ok(y)) => key_order(x.relative, y.relative),
        (Err(x), Err(y)) => text_order(x, y),
    }
}

/// Where the item `a` stands against the item `b`: as their contents do,
/// and where these stand together, as the paths of their files do.
pub open spec fn item_order(a: ItemView, b: ItemView) -> int {
    if content_order(a, b) == 0 {
        text_order(a.path, b.path)
    } else {
        content_order(a, b)
    }
}

/// Turning two items round turns the answer round.
pub proof fn lemma_item_order_flip(a: ItemView, b: ItemView)
    ensures
        item_order(b, a) == -item_order(a, b),
{
    lemma_text_order_flip(a.path, b.path);
    match (a.content, b.content) {
        (Ok(x), Ok(y)) => {
            lemma_key_order_flip(x.relative, y.relative);
        },
        (Err(x), Err(y)) => {
            lemma_text_order_flip(x, y);
        },
        _ => {},
    }
}

/// An item that comes before, or stands with, an item that comes before, or
/// stands with, a third does so against the third.
pub proof fn lemma_item_order_chain(a: ItemView, b: ItemView, c: ItemView)
    requires
        item_order(a, b) <= 0,
        item_order(b, c) <= 0,
    ensures
        item_order(a, c) <= 0,
        item_order(a, b) < 0 || item_order(b, c) < 0 ==> item_order(a, c) < 0,
{
    match (a.content, b.content, c.content) {
        (Ok(x), Ok(y), Ok(z)) => {
            lemma_key_order_chain(x.relative, y.relative, z.relative);
        },
        (Err(x), Err(y), Err(z)) => {
            lemma_text_order_chain(x, y, z);
        },
        _ => {},
    }
    if content_order(a, b) == 0 && content_order(b, c) == 0 {
        lemma_text_order_chain(a.path, b.path, c.path);
    }
}

/// No item of the list comes before an item that stands earlier in the
/// list.
pub open spec fn in_order(items: Seq<ItemView>) -> bool {
    forall|i: int, j: int| 0 <= i < j < items.len() ==> item_order(items[i], items[j]) <= 0
}

/// The widest key among the first `upto` items, in columns. An error has no
/// key and counts as nothing.
pub open spec fn widest_key(items: Seq<ItemView>, upto: int) -> usize
    decreases upto,
{
    if upto <= 0 {
        0
    } else {
        let rest = widest_key(items, upto - 1);
        match items[upto - 1].content {
            Ok(c) => if text_width(c.key.text()) > rest {
                text_width(c.key.text())
            } else {
                rest
            },
            Err(_) => rest,
        }
    }
}

/// No key among the first `upto` items is wider than the widest.
pub proof fn lemma_widest_key_bounds(items: Seq<ItemView>, upto: int, i: int)
    requires
        0 <= i < upto,
        items[i].content is Ok,
    ensures
        text_width(items[i].content->Ok_0.key.text()) <= widest_key(items, upto),
    decreases upto,
{
    if i < upto - 1 {
        lemma_widest_key_bounds(items, upto - 1, i);
    }
}

/// `n` times `unit`.
pub open spec fn repeated(unit: Seq<char>, n: nat) -> Seq<char>
    decreases n,
{
    if n == 0 {
        Seq::empty()
    } else {
        repeated(unit, (n - 1) as nat) + unit
    }
}

/// A text made of `n` spaces.
pub fn spaces(n: usize) -> (text: String)
    ensures
        text@ == repeated(" "@, n as nat),
{
    let mut text = String::new();
    let mut i: usize = 0;
    while i < n
        invariant
            i <= n,
            text@ == repeated(" "@, i as nat),
        decreases n - i,
    {
        text.append(" ");
        i += 1;
    }
    text
}

/// The line for an item in a list that a program reads: the key, the
/// description where there is one, and the file, with a tab after each of
/// the first two. An error has `(null)` for a key.
pub open spec fn plain_line(item: ItemView, file: Seq<char>) -> Seq<char> {
    (match item.content {
        Ok(c) => c.key.text() + "\t"@ + (match c.description {
            Some(d) => d + "\t"@,
            None => Seq::empty(),
        }),
        Err(_) => "(null)"@ + "\t"@,
    }) + "in "@ + file
}

/// The line for an item in a list that a person reads: the key, filled up
/// with spaces to `width` columns and two more, the description and two
/// spaces where there is one, and the file. An error has `(null)` for a key.
pub open spec fn pretty_line(item: ItemView, width: nat, file: Seq<char>) -> Seq<char> {
    (match item.content {
        Ok(c) => c.key.text() + repeated(
            " "@,
            (width + 2 - text_width(c.key.text())) as nat,
        ) + (match c.description {
            Some(d) => d + "  "@,
            None => Seq::empty(),
        }),
        Err(_) => "(null)"@ + repeated(
            " "@,
            if width + 2 > 6 {
                (width + 2 - 6) as nat
            } else {
                0
            },
        ) + "  "@,
    }) + "in "@ + file
}

/// The text for an error in full: the file and a colon, then each of the
/// `lines` of the message on a line of its own, four spaces in.
pub open spec fn verbose_text(file: Seq<char>, lines: Seq<Seq<char>>, upto: int) -> Seq<char>
    decreases upto,
{
    if upto <= 0 {
        file + ":"@
    } else {
        verbose_text(file, lines, upto - 1) + "\n    "@ + lines[upto - 1]
    }
}

impl TasksListItem {
    /// Where this item stands against `other`, as a number.
    pub fn order(&self, other: &TasksListItem) -> (r: i8)
        ensures
            r == item_order(self@, other@),
    {
        let by_content: i8 = match (&self.content, &other.content) {
            (Ok(_), Err(_)) => -1,
            (Err(_), Ok(_)) => 1,
            (Ok(a), Ok(b)) => a.relative.order(&b.relative),
            (Err(a), Err(b)) => str_order(a.as_str(), b.as_str()),
        };
        if by_content == 0 {
            str_order(self.path.as_abs_str(), other.path.as_abs_str())
        } else {
            by_content
        }
    }

    /// Where this item stands against `other`.
    pub fn cmp(&self, other: &TasksListItem) -> (o: Ordering)
        ensures
            order_number(o) == item_order(self@, other@),
    {
        let r = self.order(other);
        proof {
            lemma_text_order_same(self.path@, other.path@);
            if self.content is Ok && other.content is Ok {
                lemma_key_order_same(
                    self.content->Ok_0.relative@,
                    other.content->Ok_0.relative@,
                );
            }
            if self.content is Err && other.content is Err {
                lemma_text_order_same(self.content->Err_0@, other.content->Err_0@);
            }
        }
        if r < 0 {
            Ordering::Less
        } else if r > 0 {
            Ordering::Greater
        } else {
            Ordering::Equal
        }
    }

    /// The line for this item in a list that a program reads. `file` is how
    /// the file of the item is to be written.
    pub fn to_line(&self, file: &str) -> (line: String)
        ensures
            line@ == plain_line(self@, file@),
    {
        let mut line = String::new();
        match &self.content {
            Ok(c) => {
                line.append(c.key.as_str());
                line.append("\t");
                if let Some(d) = &c.description {
                    line.append(d.as_str());
                    line.append("\t");
                }
            },
            Err(_) => {
                line.append("(null)");
                line.append("\t");
            },
        }
        line.append("in ");
        line.append(file);
        assert(line@ =~= plain_line(self@, file@));
        line
    }

    /// The text for an error in full. `file` is how the file of the item is
    /// to be written. An item that is no error has no such text.
    pub fn into_verbose(self, file: &str) -> (text: Option<String>)
        ensures
            text is Some <==> self@.content is Err,
            text is Some ==> text->Some_0@ == verbose_text(
                file@,
                text_lines(self@.content->Err_0),
                text_lines(self@.content->Err_0).len() as int,
            ),
    {
        match &self.content {
            Ok(_) => None,
            Err(err) => {
                let lines = lines_of(err.as_str());
                let mut text = String::new();
                text.append(file);
                text.append(":");
                let mut i: usize = 0;
                while i < lines.len()
                    invariant
                        i <= lines@.len(),
                        texts(lines@) == text_lines(err@),
                        text@ == verbose_text(file@, text_lines(err@), i as int),
                    decreases lines@.len() - i,
                {
                    assert(texts(lines@)[i as int] == lines@[i as int]@);
                    text.append("\n    ");
                    text.append(lines[i].as_str());
                    i += 1;
                }
                assert(texts(lines@).len() == lines@.len());
                Some(text)
            },
        }
    }
}

/// Display TasksListItem for tty
pub struct TasksListItemPretty {
    inner: TasksListItem,
    task_word_width: usize,
}

impl TasksListItemPretty {
    /// The item.
    pub closed spec fn item(&self) -> TasksListItem {
        self.inner
    }

    /// The number of columns that the keys of the list are filled up to.
    pub closed spec fn width(&self) -> usize {
        self.task_word_width
    }

    /// The key of the item is not wider than the column for the keys.
    pub closed spec fn wf(&self) -> bool {
        self.inner.content is Ok ==> text_width(self.inner.content->Ok_0.key.ident())
            <= self.task_word_width
    }

    /// The item.
    pub fn inner(&self) -> (item: &TasksListItem)
        ensures
            *item == self.item(),
    {
        &self.inner
    }

    /// The number of columns that the keys of the list are filled up to.
    pub fn task_word_width(&self) -> (width: usize)
        ensures
            width == self.width(),
    {
        self.task_word_width
    }

    /// The number of spaces between the key and what follows it.
    pub fn padding(&self) -> (n: usize)
        requires
            self.wf(),
            self.width() <= usize::MAX - 2,
        ensures
            self.item()@.content is Ok ==> n == self.width() + 2 - text_width(
                self.item()@.content->Ok_0.key.text(),
            ),
            self.item()@.content is Err ==> n == self.width() + 2,
    {
        match &self.inner.content {
            Ok(c) => self.task_word_width + 2 - display_width(c.key.as_str()),
            Err(_) => self.task_word_width + 2,
        }
    }
}

impl TasksListItemPretty {
    /// The line for this item in a list that a person reads. `file` is how
    /// the file of the item is to be written.
    pub fn to_line(&self, file: &str) -> (line: String)
        requires
            self.wf(),
            self.width() <= usize::MAX - 2,
        ensures
            line@ == pretty_line(self.item()@, self.width() as nat, file@),
    {
        let mut line = String::new();
        match &self.inner.content {
            Ok(c) => {
                line.append(c.key.as_str());
                line.append(spaces(self.padding()).as_str());
                if let Some(d) = &c.description {
                    line.append(d.as_str());
                    line.append("  ");
                }
            },
            Err(_) => {
                let column = self.task_word_width + 2;
                line.append("(null)");
                line.append(
                    spaces(
                        if column > 6 {
                            column - 6
                        } else {
                            0
                        },
                    ).as_str(),
                );
                line.append("  ");
            },
        }
        line.append("in ");
        line.append(file);
        assert(line@ =~= pretty_line(self.item()@, self.width() as nat, file@));
        line
    }
}

/// The widest key of a list, in columns.
pub fn task_word_width(items: &Vec<TasksListItem>) -> (width: usize)
    ensures
        width == widest_key(item_views(items@), items@.len() as int),
{
    let mut width: usize = 0;
    let mut i: usize = 0;
    while i < items.len()
        invariant
            i <= items@.len(),
            width == widest_key(item_views(items@), i as int),
        decreases items@.len() - i,
    {
        assert(item_views(items@)[i as int] == items@[i as int]@);
        if let Ok(c) = &items[i].content {
            let w = display_width(c.key.as_str());
            if w > width {
                width = w;
            }
        }
        i += 1;
    }
    width
}

/// Puts a list in order: the same items, none before an item that stands
/// earlier. Items that stand together keep the order in which they came.
pub fn sorted(items: Vec<TasksListItem>) -> (out: Vec<TasksListItem>)
    ensures
        item_views(out@).to_multiset() == item_views(items@).to_multiset(),
        out@.len() == items@.len(),
        in_order(item_views(out@)),
{
    let ghost all = item_views(items@);
    let ghost given = items@;
    let mut rest = crate::keymap::reversed(items);
    let mut out: Vec<TasksListItem> = Vec::new();
    let ghost taken: Seq<ItemView> = Seq::empty();
    proof {
        assert(all.subrange(0, 0) =~= taken);
        assert(item_views(out@) =~= taken);
    }
    while rest.len() > 0
        invariant
            all == item_views(given),
            rest@.len() + taken.len() == all.len(),
            forall|r: int| 0 <= r < rest@.len() ==> #[trigger] rest@[r] == given[given.len() - 1 - r],
            taken == all.subrange(0, taken.len() as int),
            item_views(out@).to_multiset() == taken.to_multiset(),
            out@.len() == taken.len(),
            in_order(item_views(out@)),
        decreases rest@.len(),
    {
        let item = rest.pop().unwrap();
        let ghost before = out@;
        let mut p: usize = 0;
        while p < out.len() && item.order(&out[p]) >= 0
            invariant
                out@ == before,
                p <= out@.len(),
                forall|i: int| 0 <= i < p ==> item_order(item@, (#[trigger] out@[i])@) >= 0,
            decreases out@.len() - p,
        {
            p += 1;
        }
        out.insert(p, item);
        proof {
            let views = item_views(before);
            let now = item_views(out@);
            assert(now =~= views.insert(p as int, item@));
            assert forall|i: int, j: int| 0 <= i < j < now.len() implies item_order(now[i], now[j])
                <= 0 by {
                if i == p {
                    assert(before[p as int]@ == views[p as int]);
                    if j - 1 > p {
                        lemma_item_order_chain(item@, views[p as int], views[j - 1]);
                    }
                } else if j == p {
                    assert(before[i]@ == views[i]);
                    lemma_item_order_flip(item@, views[i]);
                } else {
                    let i0 = if i < p {
                        i
                    } else {
                        i - 1
                    };
                    let j0 = if j < p {
                        j
                    } else {
                        j - 1
                    };
                    assert(item_order(views[i0], views[j0]) <= 0);
                }
            }
            assert(now.remove(p as int) =~= views);
            vstd::seq_lib::to_multiset_remove(now, p as int);
            assert(now.to_multiset().count(item@) > 0) by {
                assert(now[p as int] == item@);
                now.to_multiset_ensures();
                assert(now.contains(item@));
            }
            assert(now.to_multiset() =~= views.to_multiset().insert(item@));
            let grown = taken.push(item@);
            vstd::seq_lib::to_multiset_build(taken, item@);
            assert(item@ == all[taken.len() as int]);
            assert(grown =~= all.subrange(0, (taken.len() + 1) as int));
            taken = grown;
        }
    }
    proof {
        assert(taken =~= all);
    }
    out
}

/// The items of a list that is laid out for a person.
pub open spec fn items_of(pretty: Seq<TasksListItemPretty>) -> Seq<TasksListItem> {
    Seq::new(pretty.len(), |i: int| pretty[i].item())
}

/// Gives every item of a list the width of the widest key of the list.
pub fn into_pretty(items: Vec<TasksListItem>) -> (pretty: Vec<TasksListItemPretty>)
    ensures
        pretty@.len() == items@.len(),
        forall|i: int|
            0 <= i < pretty@.len() ==> (#[trigger] pretty@[i]).item() == items@[i] && pretty@[i].wf()
                && pretty@[i].width() == widest_key(item_views(items@), items@.len() as int),
{
    let width = task_word_width(&items);
    let ghost all = items@;
    let mut rest = crate::keymap::reversed(items);
    let mut pretty: Vec<TasksListItemPretty> = Vec::new();
    while rest.len() > 0
        invariant
            rest@.len() + pretty@.len() == all.len(),
            width == widest_key(item_views(all), all.len() as int),
            forall|r: int| 0 <= r < rest@.len() ==> #[trigger] rest@[r] == all[all.len() - 1 - r],
            forall|i: int|
                0 <= i < pretty@.len() ==> (#[trigger] pretty@[i]).item() == all[i]
                    && pretty@[i].wf() && pretty@[i].width() == width,
        decreases rest@.len(),
    {
        let ghost at = pretty@.len() as int;
        let inner = rest.pop().unwrap();
        proof {
            assert(inner == all[at]);
            assert(item_views(all)[at] == all[at]@);
            if inner.content is Ok {
                lemma_widest_key_bounds(item_views(all), all.len() as int, at);
            }
        }
        pretty.push(TasksListItemPretty { inner, task_word_width: width });
    }
    pretty
}

impl RuskfileComposer {
    /// List all tasks with pretty format & sorted
    pub fn tasks_list_pretty(&self) -> (pretty: Vec<TasksListItemPretty>)
        requires
            self.wf(),
        ensures
            item_views(items_of(pretty@)).to_multiset() == tasks_listed(
                self.files(),
                self.files().len() as int,
            ).to_multiset(),
            in_order(item_views(items_of(pretty@))),
            forall|i: int|
                0 <= i < pretty@.len() ==> (#[trigger] pretty@[i]).wf() && pretty@[i].width()
                    == widest_key(item_views(items_of(pretty@)), pretty@.len() as int),
    {
        let tasks = sorted(self.tasks_list());
        let ghost ordered = tasks@;
        let pretty = into_pretty(tasks);
        proof {
            assert(items_of(pretty@) =~= ordered);
        }
        pretty
    }

    /// List all tasks
    pub fn tasks_list(&self) -> (items: Vec<TasksListItem>)
        requires
            self.wf(),
        ensures
            item_views(items@) == tasks_listed(self.files(), self.files().len() as int),
    {
        let mut items: Vec<TasksListItem> = Vec::new();
        let n = self.len();
        let mut f: usize = 0;
        while f < n
            invariant
                self.wf(),
                n == self.files().len(),
                f <= n,
                item_views(items@) == tasks_listed(self.files(), f as int),
            decreases n - f,
        {
            let file = self.file(f);
            let ghost before = items@;
            if let Ok(config) = &file.content {
                let mut t: usize = 0;
                while t < config.tasks.len()
                    invariant
                        t <= config.tasks@.len(),
                        *file == self.files()[f as int],
                        file.content == Ok::<crate::fs::RuskfileDeserializer, String>(*config),
                        item_views(items@) == item_views(before) + file_items(*file).subrange(
                            0,
                            t as int,
                        ),
                    decreases config.tasks@.len() - t,
                {
                    let (relative, task) = &config.tasks[t];
                    let description = match &task.description {
                        Some(d) => Some(d.clone()),
                        None => None,
                    };
                    let ghost listed = items@;
                    let item = TasksListItem {
                        content: Ok(
                            TaskListItemContent {
                                relative: relative.duplicate(),
                                key: relative.as_task_key(&file.dir).into_task_key(),
                                description,
                            },
                        ),
                        path: file.path.duplicate(),
                    };
                    assert(item@ == task_item(*file, t as int));
                    items.push(item);
                    assert(item_views(items@) =~= item_views(listed).push(item@));
                    assert(file_items(*file).subrange(0, t + 1) =~= file_items(*file).subrange(
                        0,
                        t as int,
                    ).push(task_item(*file, t as int)));
                    t += 1;
                }
                assert(file_items(*file).subrange(0, t as int) =~= file_items(*file));
            } else {
                assert(item_views(items@) =~= item_views(before) + file_items(*file));
            }
            f += 1;
        }
        items
    }

    /// List all errors
    pub fn errors_list(&self) -> (items: Vec<TasksListItem>)
        requires
            self.wf(),
        ensures
            item_views(items@) == errors_listed(self.files(), self.files().len() as int),
    {
        let mut items: Vec<TasksListItem> = Vec::new();
        let n = self.len();
        let mut f: usize = 0;
        while f < n
            invariant
                self.wf(),
                n == self.files().len(),
                f <= n,
                item_views(items@) == errors_listed(self.files(), f as int),
            decreases n - f,
        {
            let file = self.file(f);
            let ghost before = items@;
            if let Err(err) = &file.content {
                let item = TasksListItem { content: Err(err.clone()), path: file.path.duplicate() };
                items.push(item);
                assert(item_views(items@) =~= item_views(before) + file_errors(*file));
            } else {
                assert(item_views(items@) =~= item_views(before) + file_errors(*file));
            }
            f += 1;
        }
        items
    }
}

} // verus!
