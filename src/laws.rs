//! Properties of the walk that relate several of its steps.
use vstd::prelude::*;
use crate::exclude::{Entry, enters};
use crate::mode::{DeleteMode, build_root, plan_of};
use crate::walk::{
    Command,
    FrameView,
    Phase,
    Stage,
    Failure,
    WalkView,
    entered_nodes,
    children_spec,
    start_spec,
    cleaned_spec,
    listed_spec,
    list_failed_spec,
    resumed_spec,
    resume_spec,
    walk_wf,
};

verus! {

/// The root is visited exactly when the budget is not zero, and whatever the
/// exclusions: the root is never matched against them.
pub proof fn lemma_root_visit(
    root: usize,
    depth: usize,
    exclusions: Seq<Seq<char>>,
    other: Seq<Seq<char>>,
)
    ensures
        (start_spec(root, depth, exclusions).1 == Command::Clean(root)) <==> depth > 0,
        depth == 0 ==> start_spec(root, depth, exclusions).1 == Command::Finish(Ok(())),
        start_spec(root, depth, exclusions).1 == start_spec(root, depth, other).1,
{
}

/// Depth bound: a directory is visited only at a depth below the initial
/// budget, where the depth is the number of open directories above it, and
/// with the budget lowered by one per level.
pub proof fn lemma_visit_depth(v: WalkView)
    requires
        walk_wf(v),
        v.phase is AwaitClean,
    ensures
        v.stack.len() < v.initial,
        v.phase->AwaitClean_budget == v.initial - v.stack.len(),
{
}

/// Depth bound, the other way: a directory listed at depth `d` hands its first
/// entered child on for a visit when `d + 1` is below the initial budget; at
/// `d + 1` or deeper nothing it lists is ever visited, as if it were empty.
pub proof fn lemma_children_depth(v: WalkView, es: Seq<Entry>, complete: bool)
    requires
        walk_wf(v),
        v.phase is AwaitList,
    ensures
        v.stack.len() + 1 < v.initial && entered_nodes(es, v.exclusions).len() > 0 ==> {
            &&& listed_spec(v, es, complete).1 == Command::Clean(entered_nodes(es, v.exclusions)[0])
            &&& listed_spec(v, es, complete).0.phase == Phase::AwaitClean {
                node: entered_nodes(es, v.exclusions)[0],
                budget: (v.initial - (v.stack.len() + 1)) as usize,
            }
        },
        v.stack.len() + 1 >= v.initial ==> listed_spec(v, es, complete) == listed_spec(
            v,
            Seq::empty(),
            complete,
        ),
{
    let top = FrameView {
        node: v.phase->AwaitList_node,
        budget: v.phase->AwaitList_budget,
        pending: entered_nodes(es, v.exclusions),
        complete,
    };
    if v.stack.len() + 1 < v.initial && entered_nodes(es, v.exclusions).len() > 0 {
        assert(v.stack.push(top).last() == top);
    }
}

/// Whether the walk enters a listed child, as a predicate.
pub open spec fn entered_pred(exclusions: Seq<Seq<char>>) -> spec_fn(Entry) -> bool {
    |e: Entry| enters(e, exclusions)
}

/// The handle of a listed child, as a function.
pub open spec fn node_fn() -> spec_fn(Entry) -> usize {
    |e: Entry| e.node
}

/// Exclusion: the children entered from a listing are exactly, in listing
/// order, the directories that no exclusion suffix ends.
pub proof fn lemma_entered_filter(es: Seq<Entry>, exclusions: Seq<Seq<char>>)
    ensures
        entered_nodes(es, exclusions) == es.filter(entered_pred(exclusions)).map_values(node_fn()),
    decreases es.len(),
{
    let p = entered_pred(exclusions);
    reveal(Seq::filter);
    if es.len() == 0 {
        assert(es.filter(p).map_values(node_fn()) =~= Seq::<usize>::empty());
    } else {
        lemma_entered_filter(es.drop_last(), exclusions);
        let f = es.drop_last().filter(p);
        assert(es.filter(p) == (if p(es.last()) {
            f.push(es.last())
        } else {
            f
        }));
        assert(f.push(es.last()).map_values(node_fn()) =~= f.map_values(node_fn()).push(
            es.last().node,
        ));
    }
}

/// Exclusion: an excluded child is as if it were not listed at all.
pub proof fn lemma_excluded_absent(es: Seq<Entry>, i: int, exclusions: Seq<Seq<char>>)
    requires
        0 <= i < es.len(),
        !enters(es[i], exclusions),
    ensures
        entered_nodes(es, exclusions) == entered_nodes(es.remove(i), exclusions),
    decreases es.len(),
{
    if i < es.len() - 1 {
        lemma_excluded_absent(es.drop_last(), i, exclusions);
        assert(es.remove(i).drop_last() =~= es.drop_last().remove(i));
        assert(es.remove(i).last() == es.last());
    } else {
        assert(es.remove(i) =~= es.drop_last());
    }
}

/// Partial failure: when the clean step or the listing of a directory below
/// the root fails, the scan does not end; the failure is a warning, the open
/// directories and their pending children are kept, and resuming goes on with
/// the next sibling exactly as a success without children would have.
pub proof fn lemma_child_failure(v: WalkView)
    requires
        walk_wf(v),
        v.stack.len() > 0,
    ensures
        v.phase is AwaitClean ==> {
            let r = cleaned_spec(v, false);
            &&& r.1 == Command::Warn(Failure { node: v.phase->AwaitClean_node, stage: Stage::Clean })
            &&& r.0.stack == v.stack
            &&& resumed_spec(r.0) == listed_spec(
                cleaned_spec(v, true).0,
                Seq::empty(),
                true,
            )
        },
        v.phase is AwaitList ==> {
            let r = list_failed_spec(v);
            &&& r.1 == Command::Warn(Failure { node: v.phase->AwaitList_node, stage: Stage::List })
            &&& r.0.stack == v.stack
            &&& resumed_spec(r.0) == listed_spec(v, Seq::empty(), true)
        },
{
    let ok = cleaned_spec(v, true).0;
    if v.phase is AwaitClean {
        let top = FrameView {
            node: v.phase->AwaitClean_node,
            budget: v.phase->AwaitClean_budget,
            pending: Seq::empty(),
            complete: true,
        };
        assert(v.stack.push(top).drop_last() == v.stack);
        assert(ok.phase is AwaitList);
        assert(listed_spec(ok, Seq::empty(), true).0.stack == resume_spec(v.stack).0);
    }
    if v.phase is AwaitList {
        let top = FrameView {
            node: v.phase->AwaitList_node,
            budget: v.phase->AwaitList_budget,
            pending: Seq::empty(),
            complete: true,
        };
        assert(v.stack.push(top).drop_last() == v.stack);
    }
}

/// Partial failure: when resuming ends the scan with an error, the error is
/// the root's own, the outermost open directory's.
pub proof fn lemma_resume_failure_is_root(stack: Seq<FrameView>)
    ensures
        match resume_spec(stack).2 {
            Command::Finish(Err(f)) => stack.len() > 0 && f == Failure {
                node: stack[0].node,
                stage: Stage::ReadEntry,
            },
            _ => true,
        },
    decreases stack.len(),
{
    if stack.len() > 1 {
        lemma_resume_failure_is_root(stack.drop_last());
        assert(stack.drop_last()[0] == stack[0]);
        let top = stack.last();
        if top.pending.len() == 0 {
            if top.complete {
                assert(resume_spec(stack) == resume_spec(stack.drop_last()));
            } else {
                assert(resume_spec(stack).1 == Phase::Resume);
            }
        }
    } else if stack.len() == 1 {
        let top = stack.last();
        assert(top == stack[0]);
        assert(stack.drop_last().len() == 0);
        assert(resume_spec(stack.drop_last()).2 == Command::Finish(Ok(())));
        if top.pending.len() == 0 && !top.complete {
            assert(resume_spec(stack) == (
                stack.drop_last(),
                Phase::Done,
                Command::Finish(Err(Failure { node: top.node, stage: Stage::ReadEntry })),
            ));
        }
    }
}

/// Partial failure: a failed clean step or listing ends the scan with an
/// error only at the root, where no directory is open above it.
pub proof fn lemma_failure_fatal_only_at_root(v: WalkView)
    ensures
        v.phase is AwaitClean ==> (cleaned_spec(v, false).1 is Finish <==> v.stack.len() == 0),
        v.phase is AwaitList ==> (list_failed_spec(v).1 is Finish <==> v.stack.len() == 0),
{
}

/// Every open directory's listing was read to the end.
pub open spec fn all_complete(stack: Seq<FrameView>) -> bool {
    forall|k: int| 0 <= k < stack.len() ==> #[trigger] stack[k].complete
}

/// With every listing read to the end, resuming visits a child or ends the
/// scan successfully, and keeps every listing complete.
pub proof fn lemma_resume_quiet(stack: Seq<FrameView>)
    requires
        all_complete(stack),
    ensures
        resume_spec(stack).2 is Clean || resume_spec(stack).2 == Command::Finish(Ok(())),
        all_complete(resume_spec(stack).0),
    decreases stack.len(),
{
    if stack.len() > 0 {
        let top = stack.last();
        assert(top == stack[stack.len() - 1]);
        assert forall|k: int| 0 <= k < stack.drop_last().len() implies #[trigger] stack.drop_last()[k].complete by {
            assert(stack.drop_last()[k] == stack[k]);
        }
        if top.pending.len() > 0 {
            let ns = stack.drop_last().push(FrameView { pending: top.pending.skip(1), ..top });
            assert forall|k: int| 0 <= k < ns.len() implies #[trigger] ns[k].complete by {
                if k < ns.len() - 1 {
                    assert(ns[k] == stack[k]);
                }
            }
        } else {
            lemma_resume_quiet(stack.drop_last());
        }
    }
}

/// A scan in which no clean step, listing or entry fails never warns and
/// never ends in an error: each step asks for a visit, a listing, or ends
/// the scan successfully. Together with detection, a tree without build roots
/// is scanned without a single clean invocation, on every run alike.
pub proof fn lemma_quiet_scan(
    v: WalkView,
    es: Seq<Entry>,
    root: usize,
    depth: usize,
    has_descriptor: bool,
    has_output_dir: bool,
    mode: DeleteMode,
)
    requires
        all_complete(v.stack),
    ensures
        start_spec(root, depth, v.exclusions).1 is Clean || start_spec(root, depth, v.exclusions).1
            == Command::Finish(Ok(())),
        all_complete(start_spec(root, depth, v.exclusions).0.stack),
        v.phase is AwaitClean ==> cleaned_spec(v, true).1 is List && all_complete(
            cleaned_spec(v, true).0.stack,
        ),
        v.phase is AwaitList ==> (listed_spec(v, es, true).1 is Clean || listed_spec(v, es, true).1
            == Command::Finish(Ok(()))) && all_complete(listed_spec(v, es, true).0.stack),
        !build_root(has_descriptor, has_output_dir) ==> plan_of(
            has_descriptor,
            has_output_dir,
            mode,
        ).len() == 0,
{
    if v.phase is AwaitList {
        let top = FrameView {
            node: v.phase->AwaitList_node,
            budget: v.phase->AwaitList_budget,
            pending: children_spec(es, v.exclusions, v.phase->AwaitList_budget),
            complete: true,
        };
        let ns = v.stack.push(top);
        assert forall|k: int| 0 <= k < ns.len() implies #[trigger] ns[k].complete by {
            if k < v.stack.len() {
                assert(ns[k] == v.stack[k]);
            }
        }
        lemma_resume_quiet(ns);
    }
}

} // verus!
