//! When a vertex of the forest may run.
//!
//! A vertex waits for its children, which run side by side. The results of
//! the children come in one by one, in whatever order they finish. The
//! first error that comes in is the result of the vertex; once all children
//! have succeeded, the vertex itself runs. A forest waits for its roots in
//! the same way.

use crate::staleness::{TaskError, TaskFault};
use vstd::prelude::*;

verus! {

/// What is to be done about a vertex.
pub enum Decision {
    /// Wait for the next child to finish.
    Wait,
    /// All children have succeeded: the vertex runs now.
    Proceed,
    /// A child has failed: the vertex fails with the same error, and does
    /// not run.
    Fail(TaskFault),
}

/// What is to be done about a vertex, with the error as it is handed on.
#[derive(Debug)]
pub enum Step {
    Wait,
    Proceed,
    Fail(TaskError),
}

impl View for Step {
    type V = Decision;

    open spec fn view(&self) -> Decision {
        match self {
            Step::Wait => Decision::Wait,
            Step::Proceed => Decision::Proceed,
            Step::Fail(e) => Decision::Fail(e@),
        }
    }
}

/// What is to be done about a vertex with `children` children once the
/// results `seen` have come in, in this order: the first error decides;
/// without an error the vertex waits until all children are in.
pub open spec fn decision_after(children: nat, seen: Seq<Result<(), TaskFault>>) -> Decision
    decreases seen.len(),
{
    if seen.len() == 0 {
        if children == 0 {
            Decision::Proceed
        } else {
            Decision::Wait
        }
    } else {
        match decision_after(children, seen.drop_last()) {
            Decision::Wait => match seen.last() {
                Err(fault) => Decision::Fail(fault),
                Ok(_) => if seen.len() >= children {
                    Decision::Proceed
                } else {
                    Decision::Wait
                },
            },
            decided => decided,
        }
    }
}

/// A vertex runs only when every one of its children has come in with
/// success; and as long as no more results have come in than there are
/// children, it runs exactly then.
pub proof fn lemma_proceeds_after_all_children(children: nat, seen: Seq<Result<(), TaskFault>>)
    ensures
        decision_after(children, seen) is Proceed ==> seen.len() >= children && forall|i: int|
            0 <= i < children ==> (#[trigger] seen[i]) is Ok,
        seen.len() <= children ==> (decision_after(children, seen) is Proceed <==> seen.len()
            == children && forall|i: int| 0 <= i < seen.len() ==> (#[trigger] seen[i]) is Ok),
        seen.len() < children ==> (decision_after(children, seen) is Wait <==> forall|i: int|
            0 <= i < seen.len() ==> (#[trigger] seen[i]) is Ok),
    decreases seen.len(),
{
    if seen.len() > 0 {
        let before = seen.drop_last();
        lemma_proceeds_after_all_children(children, before);
        assert forall|i: int| 0 <= i < before.len() implies before[i] == seen[i] by {}
        if decision_after(children, before) is Wait && seen.last() is Ok {
            if before.len() < children {
                assert forall|i: int| 0 <= i < seen.len() implies (#[trigger] seen[i]) is Ok by {
                    if i < before.len() {
                        assert(before[i] is Ok);
                    }
                }
            }
        }
        if seen.len() <= children && (forall|i: int|
            0 <= i < seen.len() ==> (#[trigger] seen[i]) is Ok) {
            assert forall|i: int| 0 <= i < before.len() implies (#[trigger] before[i]) is Ok by {
                assert(seen[i] is Ok);
            }
        }
    }
}

/// A vertex fails with the first error among the results of its children,
/// if it has not run before that error came in.
pub proof fn lemma_first_error_decides(
    children: nat,
    seen: Seq<Result<(), TaskFault>>,
    first: int,
)
    requires
        0 <= first < seen.len(),
        first < children,
        seen[first] is Err,
        forall|i: int| 0 <= i < first ==> (#[trigger] seen[i]) is Ok,
    ensures
        decision_after(children, seen) == Decision::Fail(seen[first]->Err_0),
    decreases seen.len(),
{
    let before = seen.drop_last();
    if first == seen.len() - 1 {
        lemma_proceeds_after_all_children(children, before);
        assert forall|i: int| 0 <= i < before.len() implies (#[trigger] before[i]) is Ok by {
            assert(seen[i] is Ok);
        }
    } else {
        assert(before[first] == seen[first]);
        assert forall|i: int| 0 <= i < first implies (#[trigger] before[i]) is Ok by {
            assert(seen[i] is Ok);
        }
        lemma_first_error_decides(children, before, first);
    }
}

/// Keeps count of the children of a vertex that have come in.
pub struct Joiner {
    children: usize,
    arrived: usize,
    decided: bool,
    seen: Ghost<Seq<Result<(), TaskFault>>>,
}

impl Joiner {
    /// The number of children that the joiner waits for.
    pub closed spec fn children(&self) -> nat {
        self.children as nat
    }

    /// The results that have come in, in their order.
    pub closed spec fn seen(&self) -> Seq<Result<(), TaskFault>> {
        self.seen@
    }

    /// What is to be done about the vertex, after what has come in.
    pub open spec fn decision(&self) -> Decision {
        decision_after(self.children(), self.seen())
    }

    /// The joiner has counted the results that have come in, as far as they
    /// were counted at all: it stops counting once it is decided what is to
    /// be done.
    pub closed spec fn wf(&self) -> bool {
        &&& self.arrived <= self.children
        &&& self.decided == !(self.decision() is Wait)
        &&& !self.decided ==> self.arrived == self.seen@.len()
    }

    /// A joiner for a vertex with `children` children, and what is to be done
    /// before any of them has come in.
    pub fn new(children: usize) -> (start: (Joiner, Step))
        ensures
            start.0.wf(),
            start.0.children() == children,
            start.0.seen().len() == 0,
            start.1@ == start.0.decision(),
    {
        let joiner = Joiner {
            children,
            arrived: 0,
            decided: children == 0,
            seen: Ghost(Seq::empty()),
        };
        if children == 0 {
            (joiner, Step::Proceed)
        } else {
            (joiner, Step::Wait)
        }
    }

    /// Whether the joiner still waits for a child.
    pub fn is_waiting(&self) -> (waiting: bool)
        requires
            self.wf(),
        ensures
            waiting == (self.decision() is Wait),
    {
        !self.decided
    }

    /// Counts the result of a child that has finished, and says what is to
    /// be done now. A joiner that has made up its mind before keeps to it: to
    /// a vertex that has failed or run, a late result means nothing.
    pub fn on_child(&mut self, res: Result<(), TaskError>) -> (step: Option<Step>)
        requires
            old(self).wf(),
        ensures
            final(self).wf(),
            final(self).children() == old(self).children(),
            final(self).seen() == old(self).seen().push(crate::staleness::result_view(res)),
            step is Some <==> old(self).decision() is Wait,
            step is Some ==> step->Some_0@ == final(self).decision(),
            step is None ==> final(self).decision() == old(self).decision(),
    {
        let ghost before = self.seen@;
        let ghost now = before.push(crate::staleness::result_view(res));
        assert(now.drop_last() =~= before);
        self.seen = Ghost(now);
        if self.decided {
            return None;
        }
        match res {
            Err(e) => {
                self.decided = true;
                Some(Step::Fail(e))
            },
            Ok(_) => {
                proof {
                    lemma_proceeds_after_all_children(self.children as nat, before);
                }
                self.arrived = self.arrived + 1;
                if self.arrived == self.children {
                    self.decided = true;
                    Some(Step::Proceed)
                } else {
                    Some(Step::Wait)
                }
            },
        }
    }
}

} // verus!
