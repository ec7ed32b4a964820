//! Ending processes: module processes left over from an earlier run, and
//! children whose parent is gone.
use vstd::prelude::*;
use vstd::string::*;

use crate::process::pairs;

verus! {

/// How often orphans are looked for again after they were asked to end.
pub const POLLS: u32 = 20;

/// The pause before each such look, in milliseconds.
pub const POLL_MILLIS: u64 = 100;

/// How far ending the orphans has come.
#[derive(Clone, Copy, Debug, PartialEq, Eq, Structural)]
pub enum OrphanSweep {
    /// Nothing was done yet.
    Fresh,
    /// The orphans were asked to end, and some were still there `waits`
    /// pauses later.
    Polling { waits: u32 },
    /// The orphans outlived all pauses.
    Outlived,
    /// Nothing is left to do.
    Done,
}

/// What to do about the orphans just seen.
#[derive(Debug)]
pub enum SweepAction {
    /// Nothing more.
    Finish,
    /// Ask these to end, pause, and look again.
    TerminateAndWait(Vec<(String, u32)>),
    /// Pause and look again.
    Wait,
    /// Look again at once.
    LookAgain,
    /// End these by force; that is all.
    Kill(Vec<(String, u32)>),
}

/// An action as contracts speak of it.
pub enum ActionModel {
    Finish,
    TerminateAndWait(Seq<(Seq<char>, u32)>),
    Wait,
    LookAgain,
    Kill(Seq<(Seq<char>, u32)>),
}

impl View for SweepAction {
    type V = ActionModel;

    open spec fn view(&self) -> ActionModel {
        match *self {
            SweepAction::Finish => ActionModel::Finish,
            SweepAction::TerminateAndWait(v) => ActionModel::TerminateAndWait(pairs(v@)),
            SweepAction::Wait => ActionModel::Wait,
            SweepAction::LookAgain => ActionModel::LookAgain,
            SweepAction::Kill(v) => ActionModel::Kill(pairs(v@)),
        }
    }
}

/// One step: from the orphans just seen to the next state and the action.
pub open spec fn sweep_step(state: OrphanSweep, seen: Seq<(Seq<char>, u32)>) -> (
    OrphanSweep,
    ActionModel,
) {
    match state {
        OrphanSweep::Fresh => if seen.len() == 0 {
            (OrphanSweep::Done, ActionModel::Finish)
        } else {
            (OrphanSweep::Polling { waits: 0 }, ActionModel::TerminateAndWait(seen))
        },
        OrphanSweep::Polling { waits } => if seen.len() == 0 {
            (OrphanSweep::Done, ActionModel::Finish)
        } else if waits + 1 < POLLS {
            (OrphanSweep::Polling { waits: (waits + 1) as u32 }, ActionModel::Wait)
        } else {
            (OrphanSweep::Outlived, ActionModel::LookAgain)
        },
        OrphanSweep::Outlived => (OrphanSweep::Done, ActionModel::Kill(seen)),
        OrphanSweep::Done => (OrphanSweep::Done, ActionModel::Finish),
    }
}

/// The state after a series of looks at the orphans.
pub open spec fn sweep_after(looks: Seq<Seq<(Seq<char>, u32)>>) -> OrphanSweep
    decreases looks.len(),
{
    if looks.len() == 0 {
        OrphanSweep::Fresh
    } else {
        sweep_step(sweep_after(looks.drop_last()), looks.last()).0
    }
}

/// The number of the first look that showed no orphan, or the number of
/// looks if each showed some.
pub open spec fn first_clear(looks: Seq<Seq<(Seq<char>, u32)>>) -> nat
    decreases looks.len(),
{
    if looks.len() == 0 {
        0
    } else if first_clear(looks.drop_last()) < looks.len() - 1 {
        first_clear(looks.drop_last())
    } else if looks.last().len() == 0 {
        (looks.len() - 1) as nat
    } else {
        looks.len()
    }
}

/// The state after a series of looks in closed form: it counts the looks as
/// long as each shows some orphan, up to the limit, and is final after that.
proof fn lemma_sweep_after(looks: Seq<Seq<(Seq<char>, u32)>>)
    ensures
        first_clear(looks) <= looks.len(),
        sweep_after(looks) == ({
            let n = looks.len();
            if n == 0 {
                OrphanSweep::Fresh
            } else if first_clear(looks) < n && first_clear(looks) <= POLLS {
                OrphanSweep::Done
            } else if n <= POLLS {
                OrphanSweep::Polling { waits: (n - 1) as u32 }
            } else if n == POLLS + 1 {
                OrphanSweep::Outlived
            } else {
                OrphanSweep::Done
            }
        }),
    decreases looks.len(),
{
    if looks.len() > 0 {
        lemma_sweep_after(looks.drop_last());
    }
}

/// Ending the orphans never takes more than two looks beyond the pauses.
pub proof fn law_sweep_ends(looks: Seq<Seq<(Seq<char>, u32)>>)
    requires
        looks.len() >= POLLS + 2,
    ensures
        sweep_after(looks) is Done,
{
    lemma_sweep_after(looks);
}

/// Processes are ended by force only after every pause went by and every
/// look up to then showed some orphan; the processes are those of the look
/// that follows.
pub proof fn law_kill_is_last_resort(
    looks: Seq<Seq<(Seq<char>, u32)>>,
    seen: Seq<(Seq<char>, u32)>,
    killed: Seq<(Seq<char>, u32)>,
)
    requires
        sweep_step(sweep_after(looks), seen).1 == ActionModel::Kill(killed),
    ensures
        killed == seen,
        looks.len() == POLLS + 1,
        first_clear(looks) == looks.len(),
{
    lemma_sweep_after(looks);
}

/// A look that shows no orphan, before the pauses are used up, ends the
/// work with no further signal.
pub proof fn law_clear_look_finishes(looks: Seq<Seq<(Seq<char>, u32)>>)
    requires
        looks.len() <= POLLS,
    ensures
        sweep_step(sweep_after(looks), Seq::empty()) == (OrphanSweep::Done, ActionModel::Finish),
{
    lemma_sweep_after(looks);
}

/// The orphans seen at the first look are asked to end exactly then.
pub proof fn law_terminate_is_first(
    looks: Seq<Seq<(Seq<char>, u32)>>,
    seen: Seq<(Seq<char>, u32)>,
)
    ensures
        (sweep_step(sweep_after(looks), seen).1 is TerminateAndWait) <==> looks.len() == 0
            && seen.len() > 0,
{
    lemma_sweep_after(looks);
}

/// Ending the orphans is over at a look that shows none, or at the look after
/// all pauses, when those it shows are ended by force; the orphans of the
/// first look, if there were any, were asked to end at once.
pub proof fn law_sweep_over_when_none_is_left(
    looks: Seq<Seq<(Seq<char>, u32)>>,
    seen: Seq<(Seq<char>, u32)>,
)
    requires
        !(sweep_after(looks) is Done),
        sweep_step(sweep_after(looks), seen).0 is Done,
    ensures
        ({
            let (_, action) = sweep_step(sweep_after(looks), seen);
            ||| seen.len() == 0 && action is Finish
            ||| looks.len() == POLLS + 1 && action == ActionModel::Kill(seen)
        }),
        looks.len() > 0 ==> sweep_step(OrphanSweep::Fresh, looks[0]).1
            == ActionModel::TerminateAndWait(looks[0]),
{
    lemma_sweep_after(looks);
    if looks.len() > 0 && looks[0].len() == 0 {
        lemma_first_clear(looks);
    }
}

proof fn lemma_first_clear(looks: Seq<Seq<(Seq<char>, u32)>>)
    requires
        looks.len() > 0,
        looks[0].len() == 0,
    ensures
        first_clear(looks) == 0,
    decreases looks.len(),
{
    let shorter = looks.drop_last();
    if shorter.len() > 0 {
        assert(shorter[0] == looks[0]);
        lemma_first_clear(shorter);
    } else {
        assert(first_clear(shorter) == 0);
    }
}

/// Decides what to do about the orphans just seen.
pub fn terminate_orphaned_module_processes(
    state: OrphanSweep,
    orphans: Vec<(String, u32)>,
) -> (r: (OrphanSweep, SweepAction))
    ensures
        (r.0, r.1@) == sweep_step(state, pairs(orphans@)),
{
    match state {
        OrphanSweep::Fresh => if orphans.len() == 0 {
            (OrphanSweep::Done, SweepAction::Finish)
        } else {
            (OrphanSweep::Polling { waits: 0 }, SweepAction::TerminateAndWait(orphans))
        },
        OrphanSweep::Polling { waits } => if orphans.len() == 0 {
            (OrphanSweep::Done, SweepAction::Finish)
        } else if waits < POLLS - 1 {
            (OrphanSweep::Polling { waits: waits + 1 }, SweepAction::Wait)
        } else {
            (OrphanSweep::Outlived, SweepAction::LookAgain)
        },
        OrphanSweep::Outlived => (OrphanSweep::Done, SweepAction::Kill(orphans)),
        OrphanSweep::Done => (OrphanSweep::Done, SweepAction::Finish),
    }
}

/// What reading the pipe from the parent gave.
#[derive(Clone, Copy, Debug, PartialEq, Eq, Structural)]
pub enum PipeRead {
    /// A number of bytes; none means that the other end was closed.
    Bytes(usize),
    /// An error.
    Failed,
}

/// What to do after such a read.
#[derive(Clone, Copy, Debug, PartialEq, Eq, Structural)]
pub enum MonitorAction {
    /// Read again.
    KeepWatching,
    /// Close the pipe and ask the child to end.
    TerminateChild,
}

/// Decides what to do after a read from the pipe whose other end closes when
/// the parent dies. Only data, which nobody should send, keeps the watch up.
pub fn monitor_parent_process(read: PipeRead) -> (r: MonitorAction)
    ensures
        r == (match read {
            PipeRead::Bytes(n) => if n == 0 {
                MonitorAction::TerminateChild
            } else {
                MonitorAction::KeepWatching
            },
            PipeRead::Failed => MonitorAction::TerminateChild,
        }),
        r == monitor_action(read),
{
    match read {
        PipeRead::Bytes(n) => if n == 0 {
            MonitorAction::TerminateChild
        } else {
            MonitorAction::KeepWatching
        },
        PipeRead::Failed => MonitorAction::TerminateChild,
    }
}

/// What is done about orphans that no look misses: at the first look all of
/// them are asked to end, then nineteen looks follow with a pause after each,
/// and those that a last look without a pause shows are ended by force.
pub proof fn law_sweep_of_lasting_orphans(
    looks: Seq<Seq<(Seq<char>, u32)>>,
    seen: Seq<(Seq<char>, u32)>,
)
    requires
        forall|i: int| 0 <= i < looks.len() ==> (#[trigger] looks[i]).len() > 0,
        seen.len() > 0,
    ensures
        ({
            let action = sweep_step(sweep_after(looks), seen).1;
            &&& looks.len() == 0 ==> action == ActionModel::TerminateAndWait(seen)
            &&& 0 < looks.len() < 20 ==> action is Wait
            &&& looks.len() == 20 ==> action is LookAgain
            &&& looks.len() == 21 ==> action == ActionModel::Kill(seen)
            &&& looks.len() > 21 ==> action is Finish
        }),
        POLL_MILLIS == 100,
{
    lemma_sweep_after(looks);
    lemma_never_clear(looks);
}

proof fn lemma_never_clear(looks: Seq<Seq<(Seq<char>, u32)>>)
    requires
        forall|i: int| 0 <= i < looks.len() ==> (#[trigger] looks[i]).len() > 0,
    ensures
        first_clear(looks) == looks.len(),
    decreases looks.len(),
{
    if looks.len() > 0 {
        let shorter = looks.drop_last();
        assert forall|i: int| 0 <= i < shorter.len() implies (#[trigger] shorter[i]).len() > 0 by {
            assert(shorter[i] == looks[i]);
        }
        lemma_never_clear(shorter);
        assert(looks[looks.len() - 1].len() > 0);
    }
}

/// Once a look up to the end of the pauses showed no orphan, nothing more is
/// done, whatever later looks show.
pub proof fn law_sweep_stays_over(
    looks: Seq<Seq<(Seq<char>, u32)>>,
    i: int,
    seen: Seq<(Seq<char>, u32)>,
)
    requires
        0 <= i < looks.len(),
        i <= 20,
        looks[i].len() == 0,
    ensures
        sweep_step(sweep_after(looks), seen) == (OrphanSweep::Done, ActionModel::Finish),
{
    lemma_sweep_after(looks);
    lemma_first_clear_bound(looks, i);
}

proof fn lemma_first_clear_bound(looks: Seq<Seq<(Seq<char>, u32)>>, i: int)
    requires
        0 <= i < looks.len(),
        looks[i].len() == 0,
    ensures
        first_clear(looks) <= i,
    decreases looks.len(),
{
    let shorter = looks.drop_last();
    lemma_sweep_after(shorter);
    if i < shorter.len() {
        assert(shorter[i] == looks[i]);
        lemma_first_clear_bound(shorter, i);
    }
}

/// What follows a read of the pipe from the parent.
pub open spec fn monitor_action(read: PipeRead) -> MonitorAction {
    match read {
        PipeRead::Bytes(n) => if n == 0 {
            MonitorAction::TerminateChild
        } else {
            MonitorAction::KeepWatching
        },
        PipeRead::Failed => MonitorAction::TerminateChild,
    }
}

/// The child is ended exactly when the parent is gone: at the end of the pipe
/// and at an error, and at no data that comes through it.
pub proof fn law_child_ends_with_parent(n: usize)
    ensures
        monitor_action(PipeRead::Bytes(0)) is TerminateChild,
        monitor_action(PipeRead::Failed) is TerminateChild,
        n > 0 ==> monitor_action(PipeRead::Bytes(n)) is KeepWatching,
{
}

/// An action stands as itself, with all the processes that it is about.
pub proof fn law_sweep_view(v: Vec<(String, u32)>)
    ensures
        SweepAction::Finish@ is Finish,
        SweepAction::Wait@ is Wait,
        SweepAction::LookAgain@ is LookAgain,
        SweepAction::TerminateAndWait(v)@ == ActionModel::TerminateAndWait(pairs(v@)),
        SweepAction::Kill(v)@ == ActionModel::Kill(pairs(v@)),
{
}

/// Ending orphans that no look misses goes on until the look after all pauses,
/// and is over then, and at a look that shows none.
pub proof fn law_sweep_reaches(
    looks: Seq<Seq<(Seq<char>, u32)>>,
    seen: Seq<(Seq<char>, u32)>,
)
    requires
        forall|i: int| 0 <= i < looks.len() ==> (#[trigger] looks[i]).len() > 0,
        looks.len() <= 21,
    ensures
        sweep_step(sweep_after(looks), seen).0 is Done <==> looks.len() == 21 || seen.len() == 0,
{
    lemma_sweep_after(looks);
    lemma_never_clear(looks);
}

} // verus!
