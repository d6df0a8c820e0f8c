use vstd::prelude::*;

verus! {

/// Which of the build tool's clean actions run at a detected build root.
#[derive(Clone, Copy, Debug, PartialEq, Eq, Structural)]
pub enum DeleteMode {
    /// The tool's full clean.
    All,
    /// Only the selected partial cleans; with both flags off, nothing runs.
    Partial { doc: bool, release: bool },
}

/// One invocation of the build tool's clean operation.
#[derive(Clone, Copy, Debug, PartialEq, Eq, Structural)]
pub enum CleanAction {
    /// Full clean of the build output.
    Full,
    /// Clean of the generated documentation only.
    Doc,
    /// Clean of the release target only.
    Release,
}

/// The mode selected by the two partial flags: none requested means a full clean.
pub open spec fn mode_of_flags(doc: bool, release: bool) -> DeleteMode {
    if !doc && !release {
        DeleteMode::All
    } else {
        DeleteMode::Partial { doc, release }
    }
}

/// The invocations a mode asks for, in the order they run.
pub open spec fn actions_of(mode: DeleteMode) -> Seq<CleanAction> {
    match mode {
        DeleteMode::All => seq![CleanAction::Full],
        DeleteMode::Partial { doc, release } => {
            let d = if doc { seq![CleanAction::Doc] } else { Seq::<CleanAction>::empty() };
            let r = if release { seq![CleanAction::Release] } else { Seq::<CleanAction>::empty() };
            d + r
        },
    }
}

/// A directory is a build root when it directly holds both the project
/// descriptor and the build-output directory.
pub open spec fn build_root(has_descriptor: bool, has_output_dir: bool) -> bool {
    has_descriptor && has_output_dir
}

/// What is run in one directory: the mode's actions at a build root, else nothing.
pub open spec fn plan_of(has_descriptor: bool, has_output_dir: bool, mode: DeleteMode) -> Seq<
    CleanAction,
> {
    if build_root(has_descriptor, has_output_dir) {
        actions_of(mode)
    } else {
        Seq::empty()
    }
}

/// How many times `a` occurs in `s`.
pub open spec fn count_of(s: Seq<CleanAction>, a: CleanAction) -> nat
    decreases s.len(),
{
    if s.len() == 0 {
        0
    } else {
        count_of(s.drop_last(), a) + if s.last() == a {
            1nat
        } else {
            0nat
        }
    }
}

/// Builds the deletion mode from the two partial flags.
pub fn mode_from_flags(doc: bool, release: bool) -> (r: DeleteMode)
    ensures
        r == mode_of_flags(doc, release),
{
    if !doc && !release {
        DeleteMode::All
    } else {
        DeleteMode::Partial { doc, release }
    }
}

/// The clean invocations that `mode` dispatches to.
pub fn clean_actions(mode: &DeleteMode) -> (r: Vec<CleanAction>)
    ensures
        r@ == actions_of(*mode),
{
    let mut r: Vec<CleanAction> = Vec::new();
    match mode {
        DeleteMode::All => {
            r.push(CleanAction::Full);
        },
        DeleteMode::Partial { doc, release } => {
            if *doc {
                r.push(CleanAction::Doc);
            }
            if *release {
                r.push(CleanAction::Release);
            }
        },
    }
    proof {
        assert(r@ =~= actions_of(*mode));
    }
    r
}

/// Whether a directory is a build root, from the two existence checks made in it.
pub fn is_build_root(has_descriptor: bool, has_output_dir: bool) -> (r: bool)
    ensures
        r == build_root(has_descriptor, has_output_dir),
{
    has_descriptor && has_output_dir
}

/// The clean invocations to run in one directory, given whether the descriptor
/// file and the build-output directory exist directly in it.
pub fn plan_clean(has_descriptor: bool, has_output_dir: bool, mode: &DeleteMode) -> (r: Vec<
    CleanAction,
>)
    ensures
        r@ == plan_of(has_descriptor, has_output_dir, *mode),
{
    if is_build_root(has_descriptor, has_output_dir) {
        clean_actions(mode)
    } else {
        Vec::new()
    }
}

/// Detection depends on the two existence checks alone: with both present the
/// mode's actions are planned, with either absent nothing is, whatever the mode.
pub proof fn lemma_detection(has_descriptor: bool, has_output_dir: bool, mode: DeleteMode)
    ensures
        has_descriptor && has_output_dir ==> plan_of(has_descriptor, has_output_dir, mode)
            == actions_of(mode),
        !(has_descriptor && has_output_dir) ==> plan_of(has_descriptor, has_output_dir, mode).len()
            == 0,
        forall|m: DeleteMode|
            !(has_descriptor && has_output_dir) ==> #[trigger] plan_of(
                has_descriptor,
                has_output_dir,
                m,
            ) == plan_of(has_descriptor, has_output_dir, mode),
{
}

/// Mode dispatch: a full clean runs once for `All`; each partial flag runs its
/// own clean once and the other never; with both partial flags off nothing runs.
pub proof fn lemma_dispatch(doc: bool, release: bool)
    ensures
        count_of(actions_of(DeleteMode::All), CleanAction::Full) == 1,
        actions_of(DeleteMode::All).len() == 1,
        count_of(actions_of(DeleteMode::Partial { doc, release }), CleanAction::Doc) == (if doc {
            1nat
        } else {
            0nat
        }),
        count_of(actions_of(DeleteMode::Partial { doc, release }), CleanAction::Release) == (
        if release {
            1nat
        } else {
            0nat
        }),
        count_of(actions_of(DeleteMode::Partial { doc, release }), CleanAction::Full) == 0,
        actions_of(DeleteMode::Partial { doc: false, release: false }).len() == 0,
{
    let s = actions_of(DeleteMode::Partial { doc, release });
    reveal_with_fuel(count_of, 3);
    if doc && release {
        assert(s.drop_last() =~= seq![CleanAction::Doc]);
        assert(s.drop_last().drop_last() =~= Seq::<CleanAction>::empty());
    } else if doc {
        assert(s =~= seq![CleanAction::Doc]);
        assert(s.drop_last() =~= Seq::<CleanAction>::empty());
    } else if release {
        assert(s =~= seq![CleanAction::Release]);
        assert(s.drop_last() =~= Seq::<CleanAction>::empty());
    } else {
        assert(s =~= Seq::<CleanAction>::empty());
    }
    assert(seq![CleanAction::Full].drop_last() =~= Seq::<CleanAction>::empty());
}

} // verus!
