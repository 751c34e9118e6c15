//! Trees made from a directed graph.
//!
//! The vertices of the graph are the entries of a [`TaskMap`]; the edges are
//! the keys that each vertex names as its children. [`TreeNode::new_vec`]
//! expands the vertices that are reachable from a list of targets into trees
//! whose nodes are shared, and refuses graphs with a cycle or with an edge
//! that leads nowhere.

use crate::keymap::{
    key_views, lookup, no_members, reversed, well_indexed, KeyIndex, KeyPath, TaskMap,
};
use crate::keymap::key_index_entries;
use crate::taskkey::{KeyView, TaskKey};
use std::rc::Rc;
use vstd::prelude::*;

verus! {

/// Vertex of a directed graph
pub trait DigraphItem {
    /// The keys of the children of the vertex, in the order in which the
    /// vertex names them.
    spec fn spec_children(&self) -> Seq<KeyView>;

    /// Get children of the vertex
    fn children(&self) -> (deps: Vec<TaskKey>)
        ensures
            key_views(deps@) == self.spec_children(),
    ;
}

/// Node of a tree
pub struct TreeNode<D> {
    /// Inner-Item of the node
    pub item: D,
    /// Children of the node
    pub children: Vec<Rc<TreeNode<D>>>,
}

/// Error of TreeNode
#[derive(Debug)]
pub enum TreeNodeCreationError {
    /// Item not found
    ItemNotFound(TaskKey),
    /// Circular dependency found
    CircularDependency(TaskKey),
}

/// Why a graph cannot be expanded.
pub enum Fault {
    /// An edge or a target leads to this key, which has no vertex.
    Missing(KeyView),
    /// An edge leads back to this key, which is being expanded.
    Cycle(KeyView),
}

impl View for TreeNodeCreationError {
    type V = Fault;

    open spec fn view(&self) -> Fault {
        match self {
            TreeNodeCreationError::ItemNotFound(key) => Fault::Missing(key@),
            TreeNodeCreationError::CircularDependency(key) => Fault::Cycle(key@),
        }
    }
}

impl TreeNodeCreationError {
    /// The key that the error is about.
    pub fn key(&self) -> (key: &TaskKey)
        ensures
            self@ is Missing ==> key@ == self@->Missing_0,
            self@ is Cycle ==> key@ == self@->Cycle_0,
    {
        match self {
            TreeNodeCreationError::ItemNotFound(key) => key,
            TreeNodeCreationError::CircularDependency(key) => key,
        }
    }
}

/// What has become of a vertex while the graph is expanded.
pub enum Status {
    /// Not expanded yet.
    Raw,
    /// Expanded: every edge that leads here shares one node.
    Node,
    /// Taken out: being expanded, or used up as a target.
    Gone,
}

/// How an expansion ends.
pub enum Walk {
    /// It went through, and left the vertices in these states.
    Done(Seq<Status>),
    /// It stopped at a fault.
    Stopped(Fault),
}

/// The number of vertices that are not expanded yet.
pub open spec fn raw_count(st: Seq<Status>) -> nat
    decreases st.len(),
{
    if st.len() == 0 {
        0
    } else {
        raw_count(st.drop_last()) + if st.last() is Raw {
            1nat
        } else {
            0nat
        }
    }
}

/// Expands the children of vertex `k` from the `j`-th on, in order.
///
/// `path` holds the keys of the vertices that are being expanded, `k`
/// included, and `st` the state of every vertex. A child that is on the path
/// closes a cycle; one without a vertex, or whose vertex was taken out, is
/// missing; one that is expanded already is shared; one that is not is taken
/// out, expanded with its own children, and put back as a node.
///
/// `fuel` bounds how deep the expansion may nest. Every nested expansion
/// takes one unexpanded vertex out, so the number of vertices is enough.
pub open spec fn visit_children<D: DigraphItem>(
    entries: Map<Seq<char>, usize>,
    items: Seq<D>,
    st: Seq<Status>,
    path: Set<Seq<char>>,
    k: int,
    j: int,
    fuel: nat,
) -> Walk
    decreases fuel, items[k].spec_children().len() - j,
{
    let deps = items[k].spec_children();
    if j < 0 || j >= deps.len() {
        Walk::Done(st)
    } else {
        let dep = deps[j];
        if path.contains(dep.text()) {
            Walk::Stopped(Fault::Cycle(dep))
        } else if !entries.contains_key(dep.text()) {
            Walk::Stopped(Fault::Missing(dep))
        } else {
            let s = entries[dep.text()] as int;
            match st[s] {
                Status::Gone => Walk::Stopped(Fault::Missing(dep)),
                Status::Node => visit_children(entries, items, st, path, k, j + 1, fuel),
                Status::Raw => if fuel == 0 {
                    Walk::Stopped(Fault::Missing(dep))
                } else {
                    match visit_children(
                        entries,
                        items,
                        st.update(s, Status::Gone),
                        path.insert(dep.text()),
                        s,
                        0,
                        (fuel - 1) as nat,
                    ) {
                        Walk::Done(st2) => visit_children(
                            entries,
                            items,
                            st2.update(s, Status::Node),
                            path,
                            k,
                            j + 1,
                            fuel,
                        ),
                        Walk::Stopped(fault) => Walk::Stopped(fault),
                    }
                },
            }
        }
    }
}

/// Goes through the targets from the `i`-th on, in order, and collects the
/// vertices that become roots.
///
/// A target without a vertex, or whose vertex was taken out, is missing. A
/// target that is expanded already is reached from an earlier root: it is
/// taken out and makes no root. A target that is not expanded is taken out
/// and expanded as a root.
pub open spec fn resolve_from<D: DigraphItem>(
    entries: Map<Seq<char>, usize>,
    items: Seq<D>,
    st: Seq<Status>,
    targets: Seq<KeyView>,
    i: int,
    roots: Seq<int>,
) -> Result<Seq<int>, Fault>
    decreases targets.len() - i,
{
    if i < 0 || i >= targets.len() {
        Ok(roots)
    } else {
        let target = targets[i];
        if !entries.contains_key(target.text()) {
            Err(Fault::Missing(target))
        } else {
            let s = entries[target.text()] as int;
            match st[s] {
                Status::Gone => Err(Fault::Missing(target)),
                Status::Node => resolve_from(
                    entries,
                    items,
                    st.update(s, Status::Gone),
                    targets,
                    i + 1,
                    roots,
                ),
                Status::Raw => match visit_children(
                    entries,
                    items,
                    st.update(s, Status::Gone),
                    no_members().insert(target.text()),
                    s,
                    0,
                    items.len(),
                ) {
                    Walk::Done(st2) => resolve_from(
                        entries,
                        items,
                        st2,
                        targets,
                        i + 1,
                        roots.push(s),
                    ),
                    Walk::Stopped(fault) => Err(fault),
                },
            }
        }
    }
}

/// The roots that the targets give in a graph none of whose vertices is
/// expanded yet, or the first fault on the way.
pub open spec fn resolve<D: DigraphItem>(
    entries: Map<Seq<char>, usize>,
    items: Seq<D>,
    targets: Seq<KeyView>,
) -> Result<Seq<int>, Fault> {
    resolve_from(
        entries,
        items,
        Seq::new(items.len(), |i: int| Status::Raw),
        targets,
        0,
        Seq::empty(),
    )
}

/// `node` is the whole expansion of vertex `i`: it holds the item of the
/// vertex, and its children are the whole expansions of the vertices that
/// the item names, in the same order.
pub open spec fn is_expansion<D: DigraphItem>(
    node: TreeNode<D>,
    i: int,
    entries: Map<Seq<char>, usize>,
    items: Seq<D>,
) -> bool
    decreases node,
{
    &&& 0 <= i < items.len()
    &&& node.item == items[i]
    &&& node.children@.len() == items[i].spec_children().len()
    &&& forall|j: int|
        0 <= j < node.children@.len() ==> entries.contains_key(
            #[trigger] items[i].spec_children()[j].text(),
        ) && is_expansion(
            *node.children@[j],
            entries[items[i].spec_children()[j].text()] as int,
            entries,
            items,
        )
}

/// The nodes of a forest are the whole expansions of the vertices `roots`,
/// one by one.
pub open spec fn are_expansions<D: DigraphItem>(
    nodes: Seq<TreeNode<D>>,
    roots: Seq<int>,
    entries: Map<Seq<char>, usize>,
    items: Seq<D>,
) -> bool {
    &&& nodes.len() == roots.len()
    &&& forall|r: int|
        0 <= r < nodes.len() ==> is_expansion(#[trigger] nodes[r], roots[r], entries, items)
}

/// Putting another state in place of one vertex changes the number of
/// unexpanded vertices by what the two states differ in.
pub proof fn lemma_raw_count_update(st: Seq<Status>, i: int, v: Status)
    requires
        0 <= i < st.len(),
    ensures
        raw_count(st.update(i, v)) + (if st[i] is Raw {
            1nat
        } else {
            0nat
        }) == raw_count(st) + (if v is Raw {
            1nat
        } else {
            0nat
        }),
    decreases st.len(),
{
    let st2 = st.update(i, v);
    if i == st.len() - 1 {
        assert(st2.drop_last() =~= st.drop_last());
    } else {
        assert(st2.drop_last() =~= st.drop_last().update(i, v));
        lemma_raw_count_update(st.drop_last(), i, v);
    }
}

/// There are no more unexpanded vertices than vertices.
pub proof fn lemma_raw_count_bound(st: Seq<Status>)
    ensures
        raw_count(st) <= st.len(),
    decreases st.len(),
{
    if st.len() > 0 {
        lemma_raw_count_bound(st.drop_last());
    }
}

/// On the way from `node` down to any of its descendants no vertex occurs
/// twice, and none of the vertices in `above` occurs at all. `node` stands
/// for vertex `i`, and each child stands for the vertex that the item of its
/// parent names at that place.
pub open spec fn path_free<D: DigraphItem>(
    node: TreeNode<D>,
    i: int,
    entries: Map<Seq<char>, usize>,
    items: Seq<D>,
    above: Set<int>,
) -> bool
    decreases node,
{
    &&& !above.contains(i)
    &&& forall|j: int|
        0 <= j < node.children@.len() ==> path_free(
            *#[trigger] node.children@[j],
            entries[items[i].spec_children()[j].text()] as int,
            entries,
            items,
            above.insert(i),
        )
}

spec fn height<D>(node: TreeNode<D>) -> nat
    decreases node,
{
    1 + tallest(node.children@)
}

spec fn tallest<D>(kids: Seq<Rc<TreeNode<D>>>) -> nat
    decreases kids,
{
    if kids.len() == 0 {
        0
    } else {
        let h = height(*kids.last());
        let rest = tallest(kids.drop_last());
        if h > rest {
            h
        } else {
            rest
        }
    }
}

proof fn lemma_tallest_bounds<D>(kids: Seq<Rc<TreeNode<D>>>, j: int)
    requires
        0 <= j < kids.len(),
    ensures
        height(*kids[j]) <= tallest(kids),
    decreases kids.len(),
{
    if j < kids.len() - 1 {
        lemma_tallest_bounds(kids.drop_last(), j);
    }
}

proof fn lemma_tallest_same<D>(a: Seq<Rc<TreeNode<D>>>, b: Seq<Rc<TreeNode<D>>>)
    requires
        a.len() == b.len(),
        forall|j: int| 0 <= j < a.len() ==> height(*a[j]) == height(*b[j]),
    ensures
        tallest(a) == tallest(b),
    decreases a.len(),
{
    if a.len() > 0 {
        lemma_tallest_same(a.drop_last(), b.drop_last());
    }
}

proof fn lemma_expansions_same_height<D: DigraphItem>(
    a: TreeNode<D>,
    b: TreeNode<D>,
    i: int,
    entries: Map<Seq<char>, usize>,
    items: Seq<D>,
)
    requires
        is_expansion(a, i, entries, items),
        is_expansion(b, i, entries, items),
    ensures
        height(a) == height(b),
    decreases a,
{
    assert forall|j: int| 0 <= j < a.children@.len() implies height(*a.children@[j]) == height(
        *b.children@[j],
    ) by {
        let text = items[i].spec_children()[j].text();
        assert(entries.contains_key(text));
        lemma_expansions_same_height(
            *a.children@[j],
            *b.children@[j],
            entries[text] as int,
            entries,
            items,
        );
    }
    lemma_tallest_same(a.children@, b.children@);
}

proof fn lemma_expansion_path_free<D: DigraphItem>(
    node: TreeNode<D>,
    i: int,
    entries: Map<Seq<char>, usize>,
    items: Seq<D>,
    above: Set<int>,
    taller: Map<int, TreeNode<D>>,
)
    requires
        is_expansion(node, i, entries, items),
        forall|a: int| #[trigger]
            above.contains(a) ==> is_expansion(taller[a], a, entries, items) && height(taller[a])
                > height(node),
    ensures
        path_free(node, i, entries, items, above),
    decreases node,
{
    if above.contains(i) {
        lemma_expansions_same_height(taller[i], node, i, entries, items);
    }
    assert forall|j: int| 0 <= j < node.children@.len() implies path_free(
        *#[trigger] node.children@[j],
        entries[items[i].spec_children()[j].text()] as int,
        entries,
        items,
        above.insert(i),
    ) by {
        let text = items[i].spec_children()[j].text();
        assert(entries.contains_key(text));
        lemma_tallest_bounds(node.children@, j);
        lemma_expansion_path_free(
            *node.children@[j],
            entries[text] as int,
            entries,
            items,
            above.insert(i),
            taller.insert(i, node),
        );
    }
}

/// The whole expansion of a vertex holds no vertex among its own
/// descendants: the part of the graph that it covers has no cycle.
pub proof fn lemma_expansion_has_no_cycle<D: DigraphItem>(
    node: TreeNode<D>,
    i: int,
    entries: Map<Seq<char>, usize>,
    items: Seq<D>,
)
    requires
        is_expansion(node, i, entries, items),
    ensures
        path_free(node, i, entries, items, Set::empty()),
{
    lemma_expansion_path_free(node, i, entries, items, Set::empty(), Map::empty());
}

/// An expansion that meets a child whose key is on the path stops, whatever
/// it finds before that child.
pub proof fn lemma_child_on_path_stops<D: DigraphItem>(
    entries: Map<Seq<char>, usize>,
    items: Seq<D>,
    st: Seq<Status>,
    path: Set<Seq<char>>,
    k: int,
    j: int,
    fuel: nat,
    c: int,
)
    requires
        0 <= j <= c < items[k].spec_children().len(),
        path.contains(items[k].spec_children()[c].text()),
    ensures
        visit_children(entries, items, st, path, k, j, fuel) is Stopped,
        j == c ==> visit_children(entries, items, st, path, k, j, fuel) == Walk::Stopped(
            Fault::Cycle(items[k].spec_children()[c]),
        ),
    decreases c - j,
{
    let dep = items[k].spec_children()[j];
    if j < c && !path.contains(dep.text()) && entries.contains_key(dep.text()) {
        let s = entries[dep.text()] as int;
        match st[s] {
            Status::Gone => {},
            Status::Node => {
                lemma_child_on_path_stops(entries, items, st, path, k, j + 1, fuel, c);
            },
            Status::Raw => {
                if fuel > 0 {
                    let inner = visit_children(
                        entries,
                        items,
                        st.update(s, Status::Gone),
                        path.insert(dep.text()),
                        s,
                        0,
                        (fuel - 1) as nat,
                    );
                    if let Walk::Done(st2) = inner {
                        lemma_child_on_path_stops(
                            entries,
                            items,
                            st2.update(s, Status::Node),
                            path,
                            k,
                            j + 1,
                            fuel,
                            c,
                        );
                    }
                }
            },
        }
    }
}

/// A vertex that names itself among its children cannot be a root: the
/// targets are refused. Where it names itself first, the fault is the cycle
/// through that child.
pub proof fn lemma_self_loop_is_refused<D: DigraphItem>(
    entries: Map<Seq<char>, usize>,
    items: Seq<D>,
    targets: Seq<KeyView>,
    c: int,
)
    requires
        targets.len() > 0,
        entries.contains_key(targets[0].text()),
        entries[targets[0].text()] < items.len(),
        0 <= c < items[entries[targets[0].text()] as int].spec_children().len(),
        items[entries[targets[0].text()] as int].spec_children()[c].text() == targets[0].text(),
    ensures
        resolve(entries, items, targets) is Err,
        c == 0 ==> resolve(entries, items, targets) == Err::<Seq<int>, Fault>(
            Fault::Cycle(items[entries[targets[0].text()] as int].spec_children()[0]),
        ),
{
    let s = entries[targets[0].text()] as int;
    let st = Seq::new(items.len(), |i: int| Status::Raw);
    lemma_child_on_path_stops(
        entries,
        items,
        st.update(s, Status::Gone),
        no_members().insert(targets[0].text()),
        s,
        0,
        items.len(),
        c,
    );
}

/// Every position that the index holds is the position of a vertex.
pub open spec fn in_range(entries: Map<Seq<char>, usize>, n: nat) -> bool {
    forall|s: Seq<char>| #[trigger] entries.contains_key(s) ==> entries[s] < n
}

/// The states `later` follow on the states `st`: a vertex that was taken out
/// is still taken out, one that was expanded is still expanded, and one that
/// was not expanded is either expanded now or as it was.
pub open spec fn follows(st: Seq<Status>, later: Seq<Status>) -> bool {
    &&& later.len() == st.len()
    &&& forall|x: int|
        0 <= x < st.len() ==> match #[trigger] st[x] {
            Status::Gone => later[x] is Gone,
            Status::Node => later[x] is Node,
            Status::Raw => !(later[x] is Gone),
        }
}

/// An expansion that goes through only turns unexpanded vertices into
/// expanded ones.
pub proof fn lemma_expansion_only_expands<D: DigraphItem>(
    entries: Map<Seq<char>, usize>,
    items: Seq<D>,
    st: Seq<Status>,
    path: Set<Seq<char>>,
    k: int,
    j: int,
    fuel: nat,
)
    requires
        in_range(entries, st.len()),
    ensures
        visit_children(entries, items, st, path, k, j, fuel) is Done ==> follows(
            st,
            visit_children(entries, items, st, path, k, j, fuel)->Done_0,
        ),
    decreases fuel, items[k].spec_children().len() - j,
{
    let deps = items[k].spec_children();
    if 0 <= j < deps.len() {
        let dep = deps[j];
        if !path.contains(dep.text()) && entries.contains_key(dep.text()) {
            let s = entries[dep.text()] as int;
            match st[s] {
                Status::Gone => {},
                Status::Node => {
                    lemma_expansion_only_expands(entries, items, st, path, k, j + 1, fuel);
                },
                Status::Raw => {
                    if fuel > 0 {
                        let taken = st.update(s, Status::Gone);
                        let inner_path = path.insert(dep.text());
                        let below = (fuel - 1) as nat;
                        lemma_expansion_only_expands(entries, items, taken, inner_path, s, 0, below);
                        if let Walk::Done(st2) = visit_children(
                            entries,
                            items,
                            taken,
                            inner_path,
                            s,
                            0,
                            below,
                        ) {
                            let back = st2.update(s, Status::Node);
                            lemma_expansion_only_expands(entries, items, back, path, k, j + 1, fuel);
                            if let Walk::Done(st3) = visit_children(
                                entries,
                                items,
                                back,
                                path,
                                k,
                                j + 1,
                                fuel,
                            ) {
                                assert forall|x: int| 0 <= x < st.len() implies match #[trigger] st[x] {
                                    Status::Gone => st3[x] is Gone,
                                    Status::Node => st3[x] is Node,
                                    Status::Raw => !(st3[x] is Gone),
                                } by {
                                    if x != s {
                                        assert(taken[x] == st[x]);
                                        assert(back[x] == st2[x]);
                                    } else {
                                        assert(back[x] is Node);
                                    }
                                }
                            }
                        }
                    }
                },
            }
        }
    }
}

proof fn lemma_resolved_targets_from<D: DigraphItem>(
    entries: Map<Seq<char>, usize>,
    items: Seq<D>,
    st: Seq<Status>,
    targets: Seq<KeyView>,
    i: int,
    roots: Seq<int>,
)
    requires
        0 <= i,
        in_range(entries, st.len()),
        forall|t: int|
            0 <= t < i && t < targets.len() ==> entries.contains_key(
                (#[trigger] targets[t]).text(),
            ) && st[entries[targets[t].text()] as int] is Gone,
        forall|t1: int, t2: int|
            0 <= t1 < t2 < i && t2 < targets.len() ==> (#[trigger] targets[t1]).text() != (
            #[trigger] targets[t2]).text(),
        resolve_from(entries, items, st, targets, i, roots) is Ok,
    ensures
        forall|t: int|
            0 <= t < targets.len() ==> entries.contains_key((#[trigger] targets[t]).text()),
        forall|t1: int, t2: int|
            0 <= t1 < t2 < targets.len() ==> (#[trigger] targets[t1]).text() != (
            #[trigger] targets[t2]).text(),
    decreases targets.len() - i,
{
    if i < targets.len() {
        let target = targets[i];
        let s = entries[target.text()] as int;
        let taken = st.update(s, Status::Gone);
        assert(entries.contains_key(target.text()));
        assert forall|t1: int, t2: int| 0 <= t1 < t2 < i + 1 && t2 < targets.len() implies (
        #[trigger] targets[t1]).text() != (#[trigger] targets[t2]).text() by {
            if t2 == i {
                assert(st[entries[targets[t1].text()] as int] is Gone);
            }
        }
        match st[s] {
            Status::Gone => {},
            Status::Node => {
                lemma_resolved_targets_from(entries, items, taken, targets, i + 1, roots);
            },
            Status::Raw => {
                let path = no_members().insert(target.text());
                lemma_expansion_only_expands(entries, items, taken, path, s, 0, items.len());
                let st2 = visit_children(entries, items, taken, path, s, 0, items.len())->Done_0;
                assert forall|t: int| 0 <= t < i + 1 && t < targets.len() implies st2[entries[(
                #[trigger] targets[t]).text()] as int] is Gone by {
                    assert(taken[entries[targets[t].text()] as int] is Gone);
                }
                lemma_resolved_targets_from(entries, items, st2, targets, i + 1, roots.push(s));
            },
        }
    }
}

/// Targets that are accepted all have a vertex, and no two of them are the
/// same key.
pub proof fn lemma_resolved_targets<D: DigraphItem>(
    entries: Map<Seq<char>, usize>,
    items: Seq<D>,
    targets: Seq<KeyView>,
)
    requires
        in_range(entries, items.len()),
        resolve(entries, items, targets) is Ok,
    ensures
        forall|t: int|
            0 <= t < targets.len() ==> entries.contains_key((#[trigger] targets[t]).text()),
        forall|t1: int, t2: int|
            0 <= t1 < t2 < targets.len() ==> (#[trigger] targets[t1]).text() != (
            #[trigger] targets[t2]).text(),
{
    let st = Seq::new(items.len(), |i: int| Status::Raw);
    lemma_resolved_targets_from(entries, items, st, targets, 0, Seq::empty());
}

/// No tree of a forest of whole expansions holds a vertex among its own
/// descendants.
pub open spec fn forest_path_free<D: DigraphItem>(
    nodes: Seq<TreeNode<D>>,
    roots: Seq<int>,
    entries: Map<Seq<char>, usize>,
    items: Seq<D>,
) -> bool {
    forall|r: int|
        0 <= r < nodes.len() ==> path_free(
            #[trigger] nodes[r],
            roots[r],
            entries,
            items,
            Set::empty(),
        )
}

/// A forest of whole expansions has no cycle.
pub proof fn lemma_forest_has_no_cycle<D: DigraphItem>(
    nodes: Seq<TreeNode<D>>,
    roots: Seq<int>,
    entries: Map<Seq<char>, usize>,
    items: Seq<D>,
)
    requires
        are_expansions(nodes, roots, entries, items),
    ensures
        forest_path_free(nodes, roots, entries, items),
{
    assert forall|r: int| 0 <= r < nodes.len() implies path_free(
        #[trigger] nodes[r],
        roots[r],
        entries,
        items,
        Set::empty(),
    ) by {
        lemma_expansion_has_no_cycle(nodes[r], roots[r], entries, items);
    }
}

/// What the expansion holds for a vertex.
enum Slot<D> {
    Raw(D),
    Node(Rc<TreeNode<D>>),
    Taken,
}

spec fn status_of<D>(slot: Slot<D>) -> Status {
    match slot {
        Slot::Raw(_) => Status::Raw,
        Slot::Node(_) => Status::Node,
        Slot::Taken => Status::Gone,
    }
}

spec fn statuses<D>(slots: Seq<Slot<D>>) -> Seq<Status> {
    Seq::new(slots.len(), |i: int| status_of(slots[i]))
}

spec fn slots_ok<D: DigraphItem>(
    slots: Seq<Slot<D>>,
    entries: Map<Seq<char>, usize>,
    items: Seq<D>,
) -> bool {
    &&& slots.len() == items.len()
    &&& forall|i: int|
        0 <= i < slots.len() ==> match #[trigger] slots[i] {
            Slot::Raw(item) => item == items[i],
            Slot::Node(node) => is_expansion(*node, i, entries, items),
            Slot::Taken => true,
        }
}

proof fn lemma_statuses_update<D>(slots: Seq<Slot<D>>, i: int, slot: Slot<D>)
    requires
        0 <= i < slots.len(),
    ensures
        statuses(slots.update(i, slot)) == statuses(slots).update(i, status_of(slot)),
{
    assert(statuses(slots.update(i, slot)) =~= statuses(slots).update(i, status_of(slot)));
}

/// Calls `Rc::clone`, which makes another pointer to the same value.
#[verifier::external_body]
fn share<D>(node: &Rc<TreeNode<D>>) -> (same: Rc<TreeNode<D>>)
    ensures
        same == *node,
{
    Rc::clone(node)
}

fn swap_slot<D>(slots: &mut Vec<Slot<D>>, i: usize, slot: Slot<D>) -> (prev: Slot<D>)
    requires
        i < old(slots).len(),
    ensures
        final(slots)@ == old(slots)@.update(i as int, slot),
        prev == old(slots)@[i as int],
{
    slots.push(slot);
    let prev = slots.swap_remove(i);
    assert(slots@ =~= old(slots)@.update(i as int, slot));
    prev
}

fn into_slots<D>(values: Vec<D>) -> (slots: Vec<Slot<D>>)
    ensures
        slots@.len() == values@.len(),
        forall|i: int| 0 <= i < slots@.len() ==> #[trigger] slots@[i] == Slot::Raw(values@[i]),
{
    let ghost all = values@;
    let mut rev = reversed(values);
    let mut slots: Vec<Slot<D>> = Vec::new();
    while rev.len() > 0
        invariant
            slots@.len() + rev@.len() == all.len(),
            forall|i: int| 0 <= i < rev@.len() ==> #[trigger] rev@[i] == all[all.len() - 1 - i],
            forall|i: int| 0 <= i < slots@.len() ==> #[trigger] slots@[i] == Slot::Raw(all[i]),
        decreases rev@.len(),
    {
        let v = rev.pop().unwrap();
        slots.push(Slot::Raw(v));
    }
    slots
}

fn expand<D: DigraphItem>(
    index: &KeyIndex,
    keys: &Vec<TaskKey>,
    slots: &mut Vec<Slot<D>>,
    path: &mut KeyPath,
    k: usize,
    raw: D,
    Ghost(items): Ghost<Seq<D>>,
    Ghost(fuel): Ghost<nat>,
) -> (res: Result<TreeNode<D>, TreeNodeCreationError>)
    requires
        well_indexed(key_index_entries(*index), keys@),
        keys@.len() == items.len(),
        slots_ok(old(slots)@, key_index_entries(*index), items),
        k < items.len(),
        raw == items[k as int],
        !old(path)@.contains(keys@[k as int].ident()),
        raw_count(statuses(old(slots)@)) < fuel,
    ensures
        match visit_children(
            key_index_entries(*index),
            items,
            statuses(old(slots)@),
            old(path)@.insert(keys@[k as int].ident()),
            k as int,
            0,
            fuel,
        ) {
            Walk::Done(st) => {
                &&& res is Ok
                &&& statuses(final(slots)@) == st
                &&& slots_ok(final(slots)@, key_index_entries(*index), items)
                &&& is_expansion(res->Ok_0, k as int, key_index_entries(*index), items)
                &&& final(path)@ == old(path)@
                &&& raw_count(st) <= raw_count(statuses(old(slots)@))
            },
            Walk::Stopped(fault) => res is Err && res->Err_0@ == fault,
        },
    decreases fuel,
{
    let ghost entries = key_index_entries(*index);
    let ghost st0 = statuses(slots@);
    let ghost path1 = path@.insert(keys@[k as int].ident());
    path.enter(&keys[k]);
    let deps = raw.children();
    let ghost wanted = items[k as int].spec_children();
    let mut children: Vec<Rc<TreeNode<D>>> = Vec::new();
    let mut j: usize = 0;
    while j < deps.len()
        invariant
            well_indexed(entries, keys@),
            entries == key_index_entries(*index),
            st0 == statuses(old(slots)@),
            path1 == old(path)@.insert(keys@[k as int].ident()),
            !old(path)@.contains(keys@[k as int].ident()),
            raw == items[k as int],
            keys@.len() == items.len(),
            k < items.len(),
            wanted == items[k as int].spec_children(),
            key_views(deps@) == wanted,
            j <= deps@.len(),
            slots_ok(slots@, entries, items),
            path@ == path1,
            raw_count(statuses(slots@)) <= raw_count(st0),
            raw_count(st0) < fuel,
            visit_children(entries, items, st0, path1, k as int, 0, fuel) == visit_children(
                entries,
                items,
                statuses(slots@),
                path1,
                k as int,
                j as int,
                fuel,
            ),
            children@.len() == j,
            forall|c: int|
                0 <= c < j ==> entries.contains_key(#[trigger] wanted[c].text()) && is_expansion(
                    *children@[c],
                    entries[wanted[c].text()] as int,
                    entries,
                    items,
                ),
        decreases deps@.len() - j,
    {
        let dep = &deps[j];
        let ghost st = statuses(slots@);
        assert(key_views(deps@)[j as int] == dep@);
        assert(wanted[j as int] == dep@);
        if path.contains(dep) {
            return Err(TreeNodeCreationError::CircularDependency(dep.duplicate()));
        }
        match lookup(index, dep) {
            None => {
                return Err(TreeNodeCreationError::ItemNotFound(dep.duplicate()));
            },
            Some(s) => {
                assert(entries.contains_key(dep.ident()));
                assert(s < keys@.len() && keys@[s as int].ident() == dep.ident());
                let ghost untouched = slots@;
                let prev = swap_slot(slots, s, Slot::Taken);
                proof {
                    lemma_statuses_update(untouched, s as int, Slot::<D>::Taken);
                }
                match prev {
                    Slot::Taken => {
                        return Err(TreeNodeCreationError::ItemNotFound(dep.duplicate()));
                    },
                    Slot::Node(node) => {
                        let ghost before = slots@;
                        children.push(share(&node));
                        let _ = swap_slot(slots, s, Slot::Node(node));
                        proof {
                            lemma_statuses_update(before, s as int, Slot::Node(node));
                            assert(statuses(slots@) =~= st);
                        }
                    },
                    Slot::Raw(item) => {
                        proof {
                            lemma_raw_count_update(st, s as int, Status::Gone);
                        }
                        match expand(
                            index,
                            keys,
                            slots,
                            path,
                            s,
                            item,
                            Ghost(items),
                            Ghost((fuel - 1) as nat),
                        ) {
                            Err(e) => {
                                return Err(e);
                            },
                            Ok(node) => {
                                let ghost after = slots@;
                                let shared = Rc::new(node);
                                children.push(share(&shared));
                                let _ = swap_slot(slots, s, Slot::Node(shared));
                                proof {
                                    lemma_statuses_update(after, s as int, Slot::Node(shared));
                                    lemma_raw_count_update(statuses(after), s as int, Status::Node);
                                }
                            },
                        }
                    },
                }
            },
        }
        j += 1;
    }
    path.leave(&keys[k]);
    assert(path@ =~= old(path)@);
    Ok(TreeNode { item: raw, children })
}

impl<D: DigraphItem> TreeNode<D> {
    /// Create trees from a directed graph.
    ///
    /// The targets are taken in order. Each one that is not reached from an
    /// earlier one becomes a root, and the roots keep the order of their
    /// targets. A vertex that several edges lead to is expanded once and
    /// shared.
    pub fn new_vec(table: TaskMap<D>, targets: Vec<TaskKey>) -> (res: Result<
        Vec<TreeNode<D>>,
        TreeNodeCreationError,
    >)
        requires
            table.wf(),
        ensures
            match resolve(table.entries(), table.values(), key_views(targets@)) {
                Ok(roots) => res is Ok && are_expansions(
                    res->Ok_0@,
                    roots,
                    table.entries(),
                    table.values(),
                ) && forest_path_free(res->Ok_0@, roots, table.entries(), table.values()),
                Err(fault) => res is Err && res->Err_0@ == fault,
            },
    {
        let ghost entries = table.entries();
        let ghost items = table.values();
        let ghost wanted = key_views(targets@);
        let (index, keys, values) = table.into_parts();
        let mut slots = into_slots(values);
        let mut roots: Vec<TreeNode<D>> = Vec::new();
        let ghost root_ids: Seq<int> = Seq::empty();
        assert(statuses(slots@) =~= Seq::new(items.len(), |i: int| Status::Raw));
        let mut i: usize = 0;
        while i < targets.len()
            invariant
                entries == key_index_entries(index),
                entries == table.entries(),
                items == table.values(),
                well_indexed(entries, keys@),
                keys@.len() == items.len(),
                wanted == key_views(targets@),
                i <= targets@.len(),
                slots_ok(slots@, entries, items),
                resolve(entries, items, wanted) == resolve_from(
                    entries,
                    items,
                    statuses(slots@),
                    wanted,
                    i as int,
                    root_ids,
                ),
                are_expansions(roots@, root_ids, entries, items),
            decreases targets@.len() - i,
        {
            let target = &targets[i];
            let ghost st = statuses(slots@);
            assert(wanted[i as int] == target@);
            match lookup(&index, target) {
                None => {
                    return Err(TreeNodeCreationError::ItemNotFound(target.duplicate()));
                },
                Some(s) => {
                    assert(entries.contains_key(target.ident()));
                    assert(s < keys@.len() && keys@[s as int].ident() == target.ident());
                    let ghost before = slots@;
                    let prev = swap_slot(&mut slots, s, Slot::Taken);
                    proof {
                        lemma_statuses_update(before, s as int, Slot::<D>::Taken);
                    }
                    match prev {
                        Slot::Taken => {
                            return Err(TreeNodeCreationError::ItemNotFound(target.duplicate()));
                        },
                        Slot::Node(_) => {},
                        Slot::Raw(item) => {
                            proof {
                                lemma_raw_count_update(st, s as int, Status::Gone);
                                lemma_raw_count_bound(st);
                            }
                            let mut path = KeyPath::new();
                            match expand(
                                &index,
                                &keys,
                                &mut slots,
                                &mut path,
                                s,
                                item,
                                Ghost(items),
                                Ghost(items.len()),
                            ) {
                                Err(e) => {
                                    return Err(e);
                                },
                                Ok(node) => {
                                    roots.push(node);
                                    proof {
                                        root_ids = root_ids.push(s as int);
                                    }
                                },
                            }
                        },
                    }
                },
            }
            i += 1;
        }
        proof {
            lemma_forest_has_no_cycle(roots@, root_ids, entries, items);
        }
        Ok(roots)
    }
}

} // verus!
