use vstd::prelude::*;
use crate::exclude::{Entry, enters, enters_child, views_of};
use crate::mode::{DeleteMode, CleanAction, plan_of, plan_clean};

verus! {

/// What a scan needs besides its root and depth budget.
#[derive(Debug)]
pub struct Config {
    /// Base-name suffixes of the directories that are never entered.
    pub exclude_dirs: Vec<String>,
    /// The clean actions run at each build root.
    pub del_mode: DeleteMode,
}

/// The step of a directory's processing at which it failed.
#[derive(Clone, Copy, Debug, PartialEq, Eq, Structural)]
pub enum Stage {
    /// Checking for a build root or running the clean actions.
    Clean,
    /// Opening the directory's listing.
    List,
    /// Reading one entry of an opened listing.
    ReadEntry,
}

/// A failure of the directory `node` at `stage`.
#[derive(Clone, Copy, Debug, PartialEq, Eq, Structural)]
pub struct Failure {
    pub node: usize,
    pub stage: Stage,
}

/// What the walk waits for.
#[derive(Clone, Copy, Debug, PartialEq, Eq, Structural)]
pub enum Phase {
    /// The outcome of the clean step of `node`, visited with `budget` levels left.
    AwaitClean { node: usize, budget: usize },
    /// The listing of `node`, whose clean step succeeded.
    AwaitList { node: usize, budget: usize },
    /// A call to `resume` after a warning.
    Resume,
    /// Nothing: the scan is over.
    Done,
}

/// What the caller is asked to do next.
#[derive(Debug, PartialEq, Eq)]
pub enum Command {
    /// Run the detection-and-clean step in this directory, then report with `cleaned`.
    Clean(usize),
    /// List this directory's children, then report with `listed` or `list_failed`.
    List(usize),
    /// A child subtree failed: report it as a warning, then call `resume`.
    Warn(Failure),
    /// The scan is over, with this result for the whole run.
    Finish(Result<(), Failure>),
}

/// A directory whose children are being walked: the children still to be
/// entered, and whether its listing was read to the end.
pub struct FrameView {
    pub node: usize,
    pub budget: usize,
    pub pending: Seq<usize>,
    pub complete: bool,
}

/// The state of a scan: the directories open from the root down, and what is
/// awaited.
pub struct WalkView {
    pub initial: usize,
    pub exclusions: Seq<Seq<char>>,
    pub stack: Seq<FrameView>,
    pub phase: Phase,
}

struct Frame {
    node: usize,
    budget: usize,
    children: Vec<usize>,
    next: usize,
    complete: bool,
}

impl Frame {
    closed spec fn view(&self) -> FrameView {
        FrameView {
            node: self.node,
            budget: self.budget,
            pending: self.children@.skip(self.next as int),
            complete: self.complete,
        }
    }
}

/// A scan in progress. The caller performs each `Command` and reports its
/// outcome through the matching method, until `Command::Finish`.
pub struct Walker {
    config: Config,
    initial: usize,
    stack: Vec<Frame>,
    phase: Phase,
}

/// The children of a listing that the walk enters, in listing order.
pub open spec fn entered_nodes(es: Seq<Entry>, exclusions: Seq<Seq<char>>) -> Seq<usize>
    decreases es.len(),
{
    if es.len() == 0 {
        Seq::empty()
    } else {
        let rest = entered_nodes(es.drop_last(), exclusions);
        if enters(es.last(), exclusions) {
            rest.push(es.last().node)
        } else {
            rest
        }
    }
}

/// A failure of the directory being processed: fatal at the root, where no
/// directory is open above it; a warning otherwise, after which the parent goes on.
pub open spec fn fail_spec(stack: Seq<FrameView>, f: Failure) -> (Seq<FrameView>, Phase, Command) {
    if stack.len() == 0 {
        (stack, Phase::Done, Command::Finish(Err(f)))
    } else {
        (stack, Phase::Resume, Command::Warn(f))
    }
}

/// Goes on from the innermost open directory: its next pending child is visited
/// with one level less; a directory with none left is closed, successfully if its
/// listing was read to the end and as a failure otherwise.
pub open spec fn resume_spec(stack: Seq<FrameView>) -> (Seq<FrameView>, Phase, Command)
    decreases stack.len(),
{
    if stack.len() == 0 {
        (stack, Phase::Done, Command::Finish(Ok(())))
    } else {
        let top = stack.last();
        if top.pending.len() > 0 {
            let child = top.pending[0];
            (
                stack.drop_last().push(FrameView { pending: top.pending.skip(1), ..top }),
                Phase::AwaitClean { node: child, budget: (top.budget - 1) as usize },
                Command::Clean(child),
            )
        } else if top.complete {
            resume_spec(stack.drop_last())
        } else {
            fail_spec(stack.drop_last(), Failure { node: top.node, stage: Stage::ReadEntry })
        }
    }
}

/// The state and command at the start of a scan.
pub open spec fn start_spec(root: usize, depth: usize, exclusions: Seq<Seq<char>>) -> (
    WalkView,
    Command,
) {
    if depth == 0 {
        (
            WalkView { initial: depth, exclusions, stack: Seq::empty(), phase: Phase::Done },
            Command::Finish(Ok(())),
        )
    } else {
        (
            WalkView {
                initial: depth,
                exclusions,
                stack: Seq::empty(),
                phase: Phase::AwaitClean { node: root, budget: depth },
            },
            Command::Clean(root),
        )
    }
}

/// The step after the clean step of the awaited directory succeeded or failed.
pub open spec fn cleaned_spec(v: WalkView, ok: bool) -> (WalkView, Command) {
    match v.phase {
        Phase::AwaitClean { node, budget } => if ok {
            (WalkView { phase: Phase::AwaitList { node, budget }, ..v }, Command::List(node))
        } else {
            let r = fail_spec(v.stack, Failure { node, stage: Stage::Clean });
            (WalkView { stack: r.0, phase: r.1, ..v }, r.2)
        },
        _ => (v, Command::Finish(Ok(()))),
    }
}

/// The children that a directory visited with `budget` levels left hands on:
/// none once the budget is spent, else those the walk enters.
pub open spec fn children_spec(es: Seq<Entry>, exclusions: Seq<Seq<char>>, budget: usize) -> Seq<
    usize,
> {
    if budget > 1 {
        entered_nodes(es, exclusions)
    } else {
        Seq::empty()
    }
}

/// The step after the awaited directory was listed: `entries` were read, and
/// `complete` tells whether the listing ended without an unreadable entry.
pub open spec fn listed_spec(v: WalkView, entries: Seq<Entry>, complete: bool) -> (
    WalkView,
    Command,
) {
    match v.phase {
        Phase::AwaitList { node, budget } => {
            let frame = FrameView {
                node,
                budget,
                pending: children_spec(entries, v.exclusions, budget),
                complete,
            };
            let r = resume_spec(v.stack.push(frame));
            (WalkView { stack: r.0, phase: r.1, ..v }, r.2)
        },
        _ => (v, Command::Finish(Ok(()))),
    }
}

/// The step after the awaited directory could not be listed.
pub open spec fn list_failed_spec(v: WalkView) -> (WalkView, Command) {
    match v.phase {
        Phase::AwaitList { node, budget } => {
            let r = fail_spec(v.stack, Failure { node, stage: Stage::List });
            (WalkView { stack: r.0, phase: r.1, ..v }, r.2)
        },
        _ => (v, Command::Finish(Ok(()))),
    }
}

/// The step after a warning.
pub open spec fn resumed_spec(v: WalkView) -> (WalkView, Command) {
    let r = resume_spec(v.stack);
    (WalkView { stack: r.0, phase: r.1, ..v }, r.2)
}

/// The open directory at position `k` from the root is at depth `k` and has
/// `initial - k` levels left, at least one; with only one left it hands on no child.
pub open spec fn frames_wf(initial: usize, stack: Seq<FrameView>) -> bool {
    forall|k: int|
        0 <= k < stack.len() ==> {
            &&& #[trigger] stack[k].budget == initial - k
            &&& stack[k].budget >= 1
            &&& stack[k].budget == 1 ==> stack[k].pending.len() == 0
        }
}

/// The phase agrees with the open directories: a directory awaited for its
/// clean step or its listing lies at depth `stack.len()`, below the budget.
pub open spec fn phase_wf(initial: usize, stack: Seq<FrameView>, phase: Phase) -> bool {
    match phase {
        Phase::AwaitClean { node, budget } => stack.len() < initial && budget == initial
            - stack.len(),
        Phase::AwaitList { node, budget } => stack.len() < initial && budget == initial
            - stack.len(),
        Phase::Resume => stack.len() >= 1,
        Phase::Done => stack.len() == 0,
    }
}

pub open spec fn walk_wf(v: WalkView) -> bool {
    frames_wf(v.initial, v.stack) && phase_wf(v.initial, v.stack, v.phase)
}


/// The children of a listing that the walk enters, in listing order.
pub fn entered_children(entries: &Vec<Entry>, exclusions: &Vec<String>) -> (r: Vec<usize>)
    ensures
        r@ == entered_nodes(entries@, views_of(exclusions@)),
{
    let mut r: Vec<usize> = Vec::new();
    let mut i: usize = 0;
    while i < entries.len()
        invariant
            i <= entries@.len(),
            r@ == entered_nodes(entries@.subrange(0, i as int), views_of(exclusions@)),
        decreases entries@.len() - i,
    {
        proof {
            assert(entries@.subrange(0, i + 1).drop_last() =~= entries@.subrange(0, i as int));
        }
        if enters_child(&entries[i], exclusions) {
            r.push(entries[i].node);
        }
        i += 1;
    }
    proof {
        assert(entries@.subrange(0, entries@.len() as int) =~= entries@);
    }
    r
}

proof fn lemma_frames_drop_last(initial: usize, stack: Seq<FrameView>)
    requires
        frames_wf(initial, stack),
        stack.len() > 0,
    ensures
        frames_wf(initial, stack.drop_last()),
{
    assert forall|k: int| 0 <= k < stack.drop_last().len() implies {
        &&& #[trigger] stack.drop_last()[k].budget == initial - k
        &&& stack.drop_last()[k].budget >= 1
        &&& stack.drop_last()[k].budget == 1 ==> stack.drop_last()[k].pending.len() == 0
    } by {
        assert(stack.drop_last()[k] == stack[k]);
    }
}

/// Resuming keeps a well-formed stack well-formed and reaches a phase that
/// agrees with it.
proof fn lemma_resume_wf(initial: usize, stack: Seq<FrameView>)
    requires
        frames_wf(initial, stack),
    ensures
        frames_wf(initial, resume_spec(stack).0),
        phase_wf(initial, resume_spec(stack).0, resume_spec(stack).1),
    decreases stack.len(),
{
    if stack.len() > 0 {
        let top = stack.last();
        assert(top == stack[stack.len() - 1]);
        lemma_frames_drop_last(initial, stack);
        if top.pending.len() > 0 {
            let ns = stack.drop_last().push(FrameView { pending: top.pending.skip(1), ..top });
            assert forall|k: int| 0 <= k < ns.len() implies {
                &&& #[trigger] ns[k].budget == initial - k
                &&& ns[k].budget >= 1
                &&& ns[k].budget == 1 ==> ns[k].pending.len() == 0
            } by {
                if k < ns.len() - 1 {
                    assert(ns[k] == stack.drop_last()[k]);
                    assert(stack.drop_last()[k] == stack[k]);
                    assert(stack[k].budget == initial - k);
                } else {
                    assert(ns[k].budget == top.budget);
                    assert(stack[stack.len() - 1].budget == initial - (stack.len() - 1));
                }
            }
        } else if top.complete {
            lemma_resume_wf(initial, stack.drop_last());
        }
    }
}

impl Walker {
    /// The frames' cursors stay within their children.
    closed spec fn cursors_ok(&self) -> bool {
        forall|k: int|
            0 <= k < self.stack@.len() ==> #[trigger] self.stack@[k].next
                <= self.stack@[k].children@.len()
    }

    pub closed spec fn view(&self) -> WalkView {
        WalkView {
            initial: self.initial,
            exclusions: views_of(self.config.exclude_dirs@),
            stack: self.stack@.map_values(|f: Frame| f.view()),
            phase: self.phase,
        }
    }

    /// The deletion mode of the scan.
    pub closed spec fn mode(&self) -> DeleteMode {
        self.config.del_mode
    }

    /// The walker's state is consistent.
    pub closed spec fn inv(&self) -> bool {
        self.cursors_ok() && walk_wf(self.view())
    }

    /// A consistent walker has a well-formed state.
    pub proof fn lemma_inv(&self)
        requires
            self.inv(),
        ensures
            walk_wf(self.view()),
    {
    }

    /// Starts a scan of `root` with `depth` levels and `config`. A budget of zero
    /// visits nothing, not even the root.
    pub fn new(root: usize, depth: usize, config: Config) -> (r: (Walker, Command))
        ensures
            r.0.inv(),
            r.0.mode() == config.del_mode,
            (r.0.view(), r.1) == start_spec(root, depth, views_of(config.exclude_dirs@)),
    {
        let phase = if depth == 0 {
            Phase::Done
        } else {
            Phase::AwaitClean { node: root, budget: depth }
        };
        let w = Walker { config, initial: depth, stack: Vec::new(), phase };
        proof {
            assert(w.view().stack =~= Seq::<FrameView>::empty());
        }
        if depth == 0 {
            (w, Command::Finish(Ok(())))
        } else {
            (w, Command::Clean(root))
        }
    }

    /// The deletion mode of the scan.
    pub fn del_mode(&self) -> (r: DeleteMode)
        ensures
            r == self.mode(),
    {
        self.config.del_mode
    }

    /// The clean actions to run in a visited directory, given whether the
    /// descriptor file and the build-output directory exist directly in it.
    pub fn plan(&self, has_descriptor: bool, has_output_dir: bool) -> (r: Vec<CleanAction>)
        ensures
            r@ == plan_of(has_descriptor, has_output_dir, self.mode()),
    {
        plan_clean(has_descriptor, has_output_dir, &self.config.del_mode)
    }

    fn resume_stack(&mut self) -> (c: Command)
        requires
            old(self).cursors_ok(),
            frames_wf(old(self).initial, old(self).view().stack),
        ensures
            final(self).cursors_ok(),
            final(self).config == old(self).config,
            final(self).initial == old(self).initial,
            (final(self).view().stack, final(self).view().phase, c) == resume_spec(
                old(self).view().stack,
            ),
    {
        loop
            invariant
                self.cursors_ok(),
                self.config == old(self).config,
                self.initial == old(self).initial,
                frames_wf(self.initial, self.view().stack),
                resume_spec(self.view().stack) == resume_spec(old(self).view().stack),
            decreases self.stack@.len(),
        {
            let ghost s = self.view().stack;
            let ghost vs = self.stack@;
            let popped = self.stack.pop();
            match popped {
                None => {
                    proof {
                        assert(self.view().stack =~= s);
                    }
                    self.phase = Phase::Done;
                    return Command::Finish(Ok(()));
                },
                Some(mut top) => {
                    proof {
                        assert(self.stack@.map_values(|f: Frame| f.view()) =~= s.drop_last());
                        assert(s.last() == top.view());
                        assert(vs.last() == top);
                        assert(top.next <= top.children@.len()) by {
                            assert(vs[vs.len() - 1].next <= vs[vs.len() - 1].children@.len());
                        }
                        assert forall|k: int| 0 <= k < self.stack@.len() implies #[trigger] self.stack@[k].next
                            <= self.stack@[k].children@.len() by {
                            assert(self.stack@[k] == vs[k]);
                        }
                        lemma_frames_drop_last(self.initial, s);
                    }
                    if top.next < top.children.len() {
                        let child = top.children[top.next];
                        proof {
                            assert(s[s.len() - 1].budget >= 1);
                        }
                        let budget = top.budget - 1;
                        let ghost tv = top.view();
                        top.next = top.next + 1;
                        self.stack.push(top);
                        self.phase = Phase::AwaitClean { node: child, budget };
                        proof {
                            assert(top.children@.skip(top.next as int) =~= tv.pending.skip(1));
                            assert(self.stack@.map_values(|f: Frame| f.view()) =~= s.drop_last().push(
                                FrameView { pending: tv.pending.skip(1), ..tv },
                            ));
                            assert forall|k: int| 0 <= k < self.stack@.len() implies #[trigger] self.stack@[k].next
                                <= self.stack@[k].children@.len() by {
                                if k < self.stack@.len() - 1 {
                                    assert(self.stack@[k] == vs[k]);
                                }
                            }
                        }
                        proof {
                            assert(self.view().stack =~= s.drop_last().push(
                                FrameView { pending: tv.pending.skip(1), ..tv },
                            ));
                            assert(tv.pending[0] == child);
                        }
                        return Command::Clean(child);
                    } else if top.complete {
                    } else {
                        let f = Failure { node: top.node, stage: Stage::ReadEntry };
                        proof {
                            assert(self.view().stack =~= s.drop_last());
                        }
                        if self.stack.len() == 0 {
                            self.phase = Phase::Done;
                            return Command::Finish(Err(f));
                        } else {
                            self.phase = Phase::Resume;
                            return Command::Warn(f);
                        }
                    }
                },
            }
        }
    }

    /// Reports the outcome of the clean step asked for by `Command::Clean`.
    /// On success the directory is listed next; a failure ends the scan at
    /// the root and is a warning below it.
    pub fn cleaned(&mut self, ok: bool) -> (c: Command)
        requires
            old(self).inv(),
            old(self).view().phase is AwaitClean,
        ensures
            final(self).inv(),
            final(self).mode() == old(self).mode(),
            (final(self).view(), c) == cleaned_spec(old(self).view(), ok),
    {
        let (node, budget) = match self.phase {
            Phase::AwaitClean { node, budget } => (node, budget),
            _ => (0, 0),
        };
        if ok {
            self.phase = Phase::AwaitList { node, budget };
            Command::List(node)
        } else {
            let f = Failure { node, stage: Stage::Clean };
            if self.stack.len() == 0 {
                self.phase = Phase::Done;
                Command::Finish(Err(f))
            } else {
                self.phase = Phase::Resume;
                Command::Warn(f)
            }
        }
    }

    /// Reports a failure to list the directory asked for by `Command::List`:
    /// fatal at the root, a warning below it.
    pub fn list_failed(&mut self) -> (c: Command)
        requires
            old(self).inv(),
            old(self).view().phase is AwaitList,
        ensures
            final(self).inv(),
            final(self).mode() == old(self).mode(),
            (final(self).view(), c) == list_failed_spec(old(self).view()),
    {
        let node = match self.phase {
            Phase::AwaitList { node, .. } => node,
            _ => 0,
        };
        let f = Failure { node, stage: Stage::List };
        if self.stack.len() == 0 {
            self.phase = Phase::Done;
            Command::Finish(Err(f))
        } else {
            self.phase = Phase::Resume;
            Command::Warn(f)
        }
    }

    /// Reports the listing asked for by `Command::List`: the entries read, in
    /// listing order, and whether the listing ended without an unreadable
    /// entry. The walk goes on with the first child it enters.
    pub fn listed(&mut self, entries: &Vec<Entry>, complete: bool) -> (c: Command)
        requires
            old(self).inv(),
            old(self).view().phase is AwaitList,
        ensures
            final(self).inv(),
            final(self).mode() == old(self).mode(),
            (final(self).view(), c) == listed_spec(old(self).view(), entries@, complete),
    {
        let (node, budget) = match self.phase {
            Phase::AwaitList { node, budget } => (node, budget),
            _ => (0, 0),
        };
        let children = if budget > 1 {
            entered_children(entries, &self.config.exclude_dirs)
        } else {
            Vec::new()
        };
        let ghost v0 = self.view();
        let ghost vs = self.stack@;
        let ghost frame = FrameView {
            node,
            budget,
            pending: children_spec(entries@, v0.exclusions, budget),
            complete,
        };
        let fr = Frame { node, budget, children, next: 0, complete };
        proof {
            assert(fr.children@.skip(0) =~= fr.children@);
            assert(fr.view() == frame);
        }
        self.stack.push(fr);
        proof {
            assert(self.view().stack =~= v0.stack.push(frame));
            assert forall|k: int| 0 <= k < self.stack@.len() implies #[trigger] self.stack@[k].next
                <= self.stack@[k].children@.len() by {
                if k < vs.len() {
                    assert(self.stack@[k] == vs[k]);
                }
            }
            let ns = v0.stack.push(frame);
            assert forall|k: int| 0 <= k < ns.len() implies {
                &&& #[trigger] ns[k].budget == self.initial - k
                &&& ns[k].budget >= 1
                &&& ns[k].budget == 1 ==> ns[k].pending.len() == 0
            } by {
                if k < v0.stack.len() {
                    assert(ns[k] == v0.stack[k]);
                }
            }
        }
        let c = self.resume_stack();
        proof {
            lemma_resume_wf(self.initial, v0.stack.push(frame));
        }
        c
    }

    /// Goes on after `Command::Warn`, with the next sibling of the failed subtree.
    pub fn resume(&mut self) -> (c: Command)
        requires
            old(self).inv(),
            old(self).view().phase is Resume,
        ensures
            final(self).inv(),
            final(self).mode() == old(self).mode(),
            (final(self).view(), c) == resumed_spec(old(self).view()),
    {
        let c = self.resume_stack();
        proof {
            lemma_resume_wf(self.initial, old(self).view().stack);
        }
        c
    }
}

} // verus!
