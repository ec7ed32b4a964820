//! What holds of the manager as a whole.
use vstd::arithmetic::power2::{lemma2_to64, lemma_pow2_unfold};
use vstd::prelude::*;

use crate::launch::{
    exit_of, kind_of, law_handler_by_name, law_success_means_exit_code_zero, plan_of, ExitModel,
    LaunchModel, MessageModel,
};
use crate::names::{key_list, law_key_list, law_key_order_exists};
use crate::outside::lossy_text;
use crate::state::{CrashModel, ManagerModel, StartModel, RESTART_LIMIT};
use crate::supervise::{crashed_in, restart_delay};
use crate::text::text_lt;
use crate::worker::{
    lemma_step_counts, lemma_stops_add, stops, ActionModel, EventModel, Phase, WorkerModel,
};

verus! {

/// A change of the manager's state.
pub enum Change {
    /// A message was taken in.
    Told { message: MessageModel },
    /// A module was asked to stop.
    Stop { name: Seq<char> },
    /// All modules were asked to stop.
    StopAll,
    /// A restart that had been decided on was counted.
    Restarted { name: Seq<char>, restart_count: u32 },
    /// A module was given up.
    GiveUp { name: Seq<char> },
}

/// The state after a change.
pub open spec fn changed(m: ManagerModel, change: Change) -> ManagerModel {
    match change {
        Change::Told { message } => m.told(message),
        Change::Stop { name } => m.stop(name),
        Change::StopAll => m.stop_all(),
        Change::Restarted { name, restart_count } => m.restarted(name, restart_count),
        Change::GiveUp { name } => m.give_up(name),
    }
}

/// Whether a change can occur: restarts are decided on below the limit only.
pub open spec fn possible(change: Change) -> bool {
    change matches Change::Restarted { restart_count, .. } ==> restart_count < RESTART_LIMIT
}

/// Whether the parts of the state fit together: exactly the modules that run
/// have a process number, and no module was restarted beyond the limit.
pub open spec fn consistent(m: ManagerModel) -> bool {
    &&& forall|n: Seq<char>| #[trigger] m.pids.contains_key(n) <==> m.is_running(n)
    &&& forall|n: Seq<char>| m.restart_count(n) <= RESTART_LIMIT
}

/// The parts of the state fit together at the start.
pub proof fn law_consistent_initially(discovered: Map<Seq<char>, Seq<u8>>)
    ensures
        consistent(ManagerModel::initial(discovered)),
{
}

/// Every change keeps the parts of the state fitting together.
pub proof fn law_consistent_kept(m: ManagerModel, change: Change)
    requires
        consistent(m),
        possible(change),
    ensures
        consistent(changed(m, change)),
{
    let next = changed(m, change);
    assert forall|n: Seq<char>| #[trigger] next.pids.contains_key(n) <==> next.is_running(n) by {
        assert(m.pids.contains_key(n) <==> m.is_running(n));
    }
    assert forall|n: Seq<char>| next.restart_count(n) <= RESTART_LIMIT by {
        assert(m.restart_count(n) <= RESTART_LIMIT);
    }
}

/// No change makes the manager forget or learn a module.
pub proof fn law_discovered_fixed(m: ManagerModel, change: Change)
    ensures
        changed(m, change).discovered == m.discovered,
{
}

/// The module that a change is about, if it is about one.
pub open spec fn concerns(change: Change, name: Seq<char>) -> bool {
    match change {
        Change::Told { message } => match message {
            MessageModel::Started { name: n, .. } => n == name,
            MessageModel::Stopped { name: n, .. } => n == name,
            MessageModel::Init => false,
        },
        Change::Stop { name: n } => n == name,
        Change::StopAll => true,
        Change::Restarted { name: n, .. } => n == name,
        Change::GiveUp { name: n } => n == name,
    }
}

/// A change about one module leaves what is known of the others alone.
pub proof fn law_other_modules_untouched(m: ManagerModel, change: Change, other: Seq<char>)
    requires
        !concerns(change, other),
    ensures
        changed(m, change).is_running(other) == m.is_running(other),
        changed(m, change).stop_signal(other) == m.stop_signal(other),
        changed(m, change).restart_count(other) == m.restart_count(other),
        changed(m, change).is_pending(other) == m.is_pending(other),
        changed(m, change).stored_args(other) == m.stored_args(other),
{
}

/// A module that was asked to stop is not restarted when it ends, whatever
/// its exit status.
pub proof fn law_stop_prevents_restart(m: ManagerModel, name: Seq<char>, success: bool)
    requires
        m.pids.contains_key(name),
    ensures
        m.stop(name).told(MessageModel::Stopped { name, success }).crash(name) is Ignore,
{
}

/// When all modules were asked to stop, none that had a process is restarted
/// when it ends, and each of them is signalled.
pub proof fn law_stop_all_prevents_restart(m: ManagerModel, name: Seq<char>, success: bool)
    requires
        m.pids.contains_key(name),
    ensures
        m.stop_all().told(MessageModel::Stopped { name, success }).crash(name) is Ignore,
        m.stop_signal(name) == Some(m.pids[name]),
{
}

/// Asking all modules to stop does to each module what asking it alone does.
pub proof fn law_stop_all_is_stop_each(m: ManagerModel, name: Seq<char>)
    ensures
        m.stop_all().is_pending(name) == m.stop(name).is_pending(name),
        m.stop_all().stop_all() == m.stop_all(),
{
    assert(m.stop_all().stop_all() =~= m.stop_all());
}

/// A module that was started anew is restarted or given up when it crashes,
/// though it had been asked to stop before.
pub proof fn law_start_lifts_stop(
    m: ManagerModel,
    name: Seq<char>,
    pid: u32,
    args: Option<Seq<Seq<char>>>,
)
    ensures
        !m.started(name, pid, args).is_pending(name),
        !(m.started(name, pid, args).stopped(name).crash(name) is Ignore),
{
}

/// A module is started once: after its start it runs, and asking for it
/// again leads to nothing.
pub proof fn law_no_second_start(
    m: ManagerModel,
    name: Seq<char>,
    pid: u32,
    args: Option<Seq<Seq<char>>>,
    other_args: Option<Seq<Seq<char>>>,
)
    ensures
        m.started(name, pid, args).is_running(name),
        m.started(name, pid, args).start(name, other_args) is AlreadyRunning,
{
}

/// A known module can be started again once it ended.
pub proof fn law_start_after_end(
    m: ManagerModel,
    name: Seq<char>,
    args: Option<Seq<Seq<char>>>,
)
    requires
        m.discovered.contains_key(name),
    ensures
        !m.stopped(name).is_running(name),
        m.stopped(name).start(name, args) == StartModel::Launch(
            LaunchModel { name, path: m.discovered[name], args, kind: kind_of(name) },
        ),
{
}

/// Of a module that runs and is stopped, the process that is signalled is
/// the one that was reported when it started.
pub proof fn law_stop_signals_started_process(
    m: ManagerModel,
    name: Seq<char>,
    pid: u32,
    args: Option<Seq<Seq<char>>>,
)
    ensures
        m.started(name, pid, args).stop_signal(name) == Some(pid),
        m.started(name, pid, args).stopped(name).stop_signal(name) is None,
{
}

/// The state in which a module that crashed runs again: it ended, the
/// restart was counted, and its process was started.
pub open spec fn crashed_and_restarted(
    m: ManagerModel,
    name: Seq<char>,
    pid: u32,
    args: Option<Seq<Seq<char>>>,
) -> ManagerModel {
    m.stopped(name).restarted(name, m.restart_count(name)).started(name, pid, args)
}

/// A module that crashes is restarted with the arguments it was last started
/// with, as long as the limit is not reached; each restart is counted.
pub proof fn law_crash_restarts(
    m: ManagerModel,
    name: Seq<char>,
    pid: u32,
    args: Option<Seq<Seq<char>>>,
)
    requires
        m.discovered.contains_key(name),
        m.restart_count(name) < RESTART_LIMIT,
    ensures
        ({
            let ended = m.started(name, pid, args).told(
                MessageModel::Stopped { name, success: false },
            );
            let n = m.restart_count(name);
            &&& crashed_in(MessageModel::Stopped { name, success: false }) == Some(name)
            &&& ended.crash(name) == CrashModel::Restart { restart_count: n }
            &&& ended.restarted(name, n).restart_count(name) == n + 1
            &&& ended.start(name, ended.stored_args(name)) == StartModel::Launch(
                LaunchModel { name, path: m.discovered[name], args, kind: kind_of(name) },
            )
        }),
{
}

/// A module that keeps on crashing is restarted as often as the limit says
/// and then given up: the next crash ends in giving it up, and crashes after
/// that lead to nothing.
pub proof fn law_restart_limit(
    m: ManagerModel,
    name: Seq<char>,
    pids: Seq<u32>,
    args: Option<Seq<Seq<char>>>,
)
    requires
        pids.len() == RESTART_LIMIT,
        m.restart_count(name) == 0,
        !m.is_pending(name),
    ensures
        ({
            let a = crashed_and_restarted(m, name, pids[0], args);
            let b = crashed_and_restarted(a, name, pids[1], args);
            let c = crashed_and_restarted(b, name, pids[2], args);
            &&& m.stopped(name).crash(name) == CrashModel::Restart { restart_count: 0 }
            &&& a.stopped(name).crash(name) == CrashModel::Restart { restart_count: 1 }
            &&& b.stopped(name).crash(name) == CrashModel::Restart { restart_count: 2 }
            &&& c.stopped(name).crash(name) is GiveUp
            &&& c.stopped(name).give_up(name).crash(name) is Ignore
        }),
{
}

/// No restart is decided on for a module that was restarted as often as the
/// limit says, even when it is started on request after it was given up.
pub proof fn law_no_restart_beyond_limit(
    m: ManagerModel,
    name: Seq<char>,
    pid: u32,
    args: Option<Seq<Seq<char>>>,
)
    requires
        m.restart_count(name) >= RESTART_LIMIT,
    ensures
        !(m.crash(name) is Restart),
        m.started(name, pid, args).stopped(name).crash(name) is GiveUp,
{
}

/// The pauses before restarts are two, four and eight seconds: each is twice
/// the one before.
pub proof fn law_backoff_doubles(restart_count: u32)
    requires
        restart_count + 1 < u32::MAX,
    ensures
        restart_delay(0) == 2,
        restart_delay(1) == 4,
        restart_delay(2) == 8,
        restart_delay((restart_count + 1) as u32) == 2 * restart_delay(restart_count),
{
    lemma2_to64();
    lemma_pow2_unfold((restart_count + 2) as nat);
}

/// A module that ended with success is not restarted.
pub proof fn law_success_is_no_crash(name: Seq<char>)
    ensures
        crashed_in(MessageModel::Stopped { name, success: true }) is None,
{
}

/// The state of the manager after a handler did what it did.
pub open spec fn informed(m: ManagerModel, actions: Seq<ActionModel>) -> ManagerModel
    decreases actions.len(),
{
    if actions.len() == 0 {
        m
    } else {
        match actions.last() {
            ActionModel::Tell(message) => informed(m, actions.drop_last()).told(message),
            _ => informed(m, actions.drop_last()),
        }
    }
}

/// The number of the process that a handler started last.
pub open spec fn last_process(w: WorkerModel, events: Seq<EventModel>) -> Option<u32>
    decreases events.len(),
{
    if events.len() == 0 {
        None
    } else {
        match (w.after(events.drop_last()).phase, events.last()) {
            (Phase::Starting, EventModel::Spawned { pid }) => Some(pid),
            _ => last_process(w, events.drop_last()),
        }
    }
}

proof fn lemma_informed_add(m: ManagerModel, a: Seq<ActionModel>, b: Seq<ActionModel>)
    ensures
        informed(m, a + b) == informed(informed(m, a), b),
    decreases b.len(),
{
    if b.len() == 0 {
        assert(a + b =~= a);
    } else {
        assert((a + b).drop_last() =~= a + b.drop_last());
        lemma_informed_add(m, a, b.drop_last());
    }
}

proof fn lemma_informed_one(m: ManagerModel, x: ActionModel)
    ensures
        informed(m, seq![x]) == (match x {
            ActionModel::Tell(message) => m.told(message),
            _ => m,
        }),
{
    assert(seq![x].drop_last() =~= Seq::empty());
    assert(informed(m, seq![x].drop_last()) == m);
}

proof fn lemma_informed_two(m: ManagerModel, x: ActionModel, y: ActionModel)
    ensures
        informed(m, seq![x, y]) == informed(informed(m, seq![x]), seq![y]),
{
    assert(seq![x, y] =~= seq![x] + seq![y]);
    lemma_informed_add(m, seq![x], seq![y]);
}

/// What one step of a handler makes of the manager's state.
proof fn lemma_informed_step(m: ManagerModel, w: WorkerModel, event: EventModel)
    ensures
        informed(m, w.step(event).1) == (match (w.phase, event) {
            (Phase::Starting, EventModel::Spawned { pid }) => m.started(
                w.request.name,
                pid,
                plan_of(w.request, w.port).reported_args,
            ),
            (Phase::Running, EventModel::Exited { code, stderr }) => match exit_of(
                w.request,
                code,
                lossy_text(stderr),
            ) {
                ExitModel::Report(message) => m.told(message),
                ExitModel::Relaunch(_) => m,
            },
            _ => m,
        }),
{
    let actions = w.step(event).1;
    match (w.phase, event) {
        (Phase::Starting, EventModel::Spawned { pid }) => {
            let first = w.stdin_action(ActionModel::KeepStdin);
            let tell = ActionModel::Tell(
                MessageModel::Started {
                    name: w.request.name,
                    pid,
                    args: plan_of(w.request, w.port).reported_args,
                },
            );
            let watch = ActionModel::WatchParent(pid);
            lemma_informed_one(m, ActionModel::KeepStdin);
            lemma_informed_add(m, first, seq![watch, tell]);
            lemma_informed_two(m, watch, tell);
            lemma_informed_one(m, watch);
            lemma_informed_one(m, tell);
        },
        (Phase::Running, EventModel::Exited { code, stderr }) => {
            match exit_of(w.request, code, lossy_text(stderr)) {
                ExitModel::Report(message) => {
                    let first = w.stdin_action(ActionModel::DropStdin);
                    lemma_informed_one(m, ActionModel::DropStdin);
                    lemma_informed_add(m, first, seq![ActionModel::Tell(message)]);
                    lemma_informed_one(m, ActionModel::Tell(message));
                },
                ExitModel::Relaunch(next) => {
                    let plan = ActionModel::Launch(plan_of(next, w.port));
                    lemma_informed_two(m, ActionModel::ReleasePipe, plan);
                    lemma_informed_one(m, ActionModel::ReleasePipe);
                    lemma_informed_one(m, plan);
                },
            }
        },
        (Phase::Starting, EventModel::SpawnFailed { error }) => {
            lemma_informed_one(m, ActionModel::ReleasePipe);
            if actions.len() == 2 {
                lemma_informed_two(m, actions[0], actions[1]);
                lemma_informed_one(m, actions[1]);
                assert(actions =~= seq![actions[0], actions[1]]);
            }
        },
        _ => {
            if actions.len() > 0 {
                assert(actions =~= seq![actions[0]]);
                lemma_informed_one(m, actions[0]);
            }
        },
    }
}

/// What the manager knows of a module is what its handler saw: while the
/// process runs, the manager has the module running, would signal this
/// process to stop it, and holds the arguments reported for it; when the end
/// of the process was told, the manager has the module stopped.
pub proof fn law_manager_follows_process(
    m: ManagerModel,
    request: LaunchModel,
    port: u16,
    events: Seq<EventModel>,
)
    ensures
        ({
            let w = WorkerModel::initial(request, port);
            let now = w.after(events);
            let state = informed(m, w.actions(events));
            &&& now.phase is Running ==> {
                &&& state.is_running(request.name)
                &&& state.stop_signal(request.name) == last_process(w, events)
                &&& last_process(w, events) is Some
                &&& state.stored_args(request.name) == plan_of(now.request, port).reported_args
            }
            &&& stops(w.actions(events)) == 1 ==> {
                &&& !state.is_running(request.name)
                &&& state.stop_signal(request.name) is None
            }
        }),
{
    lemma_follows(m, request, port, events);
}

proof fn lemma_follows(
    m: ManagerModel,
    request: LaunchModel,
    port: u16,
    events: Seq<EventModel>,
)
    ensures
        ({
            let w = WorkerModel::initial(request, port);
            let now = w.after(events);
            let state = informed(m, w.actions(events));
            &&& now.port == port
            &&& now.request.name == request.name
            &&& !(now.phase is Ended) ==> stops(w.actions(events)) == 0
            &&& now.phase is Running ==> {
                &&& state.is_running(request.name)
                &&& state.stop_signal(request.name) == last_process(w, events)
                &&& last_process(w, events) is Some
                &&& state.stored_args(request.name) == plan_of(now.request, port).reported_args
            }
            &&& stops(w.actions(events)) == 1 ==> {
                &&& !state.is_running(request.name)
                &&& state.stop_signal(request.name) is None
            }
        }),
    decreases events.len(),
{
    let w = WorkerModel::initial(request, port);
    if events.len() > 0 {
        let shorter = events.drop_last();
        let before = w.after(shorter);
        let told = informed(m, w.actions(shorter));
        lemma_follows(m, request, port, shorter);
        lemma_informed_add(m, w.actions(shorter), before.step(events.last()).1);
        lemma_informed_step(told, before, events.last());
        lemma_stops_add(w.actions(shorter), before.step(events.last()).1);
        lemma_step_counts(before, events.last());
    }
}

/// When all modules are asked to stop, every module that has a process, and no
/// other, is signalled: the list of processes to signal holds a name and a
/// number if and only if this is the process that stopping the module of this
/// name alone would signal. No module is listed twice.
pub proof fn law_stop_all_signals_each(m: ManagerModel, name: Seq<char>, pid: u32, i: int, j: int)
    requires
        m.pids.dom().finite(),
    ensures
        m.stop_all_signals().contains((name, pid)) <==> m.pids.contains_key(name) && m.pids[name]
            == pid,
        m.stop_all_signals().contains((name, pid)) <==> m.stop_signal(name) == Some(pid),
        0 <= i < j < m.stop_all_signals().len() ==> text_lt(
            m.stop_all_signals()[i].0,
            m.stop_all_signals()[j].0,
        ),
{
    law_key_order_exists(m.pids.dom());
    law_key_list(m.pids.dom());
    m.lemma_signals(key_list(m.pids.dom()), name, pid);
}

/// When all modules are asked to stop, those that have a process are kept from
/// being restarted, as are those that were before; nothing else changes.
pub proof fn law_stop_all_marks_each(m: ManagerModel, name: Seq<char>)
    ensures
        m.stop_all().is_pending(name) <==> m.pids.contains_key(name) || m.is_pending(name),
        m.stop_all().running == m.running,
        m.stop_all().pids == m.pids,
        m.stop_all().restarts == m.restarts,
        m.stop_all().args == m.args,
{
}

/// What the start of a process makes known: the module runs, under this number
/// and with these arguments, and may be restarted; how often it was restarted
/// stays known.
pub proof fn law_start_noted(
    m: ManagerModel,
    name: Seq<char>,
    pid: u32,
    args: Option<Seq<Seq<char>>>,
)
    ensures
        ({
            let next = m.told(MessageModel::Started { name, pid, args });
            &&& next == m.started(name, pid, args)
            &&& next.running.contains_key(name) && next.running[name]
            &&& next.pids.contains_key(name) && next.pids[name] == pid
            &&& next.args.contains_key(name) && next.args[name] == args
            &&& !next.pending.contains_key(name)
            &&& next.restarts == m.restarts
            &&& next.menu_set == m.menu_set
        }),
{
}

/// What the end of a process makes known, with success or without: the module
/// does not run and has no process; how it was started, how often it was
/// restarted and whether it is being stopped stays known.
pub proof fn law_end_noted(m: ManagerModel, name: Seq<char>, success: bool)
    ensures
        ({
            let next = m.told(MessageModel::Stopped { name, success });
            &&& next == m.stopped(name)
            &&& next.running.contains_key(name) && !next.running[name]
            &&& !next.pids.contains_key(name)
            &&& next.args == m.args
            &&& next.restarts == m.restarts
            &&& next.pending == m.pending
            &&& next.menu_set == m.menu_set
        }),
        m.told(MessageModel::Init) == m,
{
}

/// A module that has a process is signalled and kept from being restarted when
/// it is asked to stop; one that has none is left alone.
pub proof fn law_stop(m: ManagerModel, name: Seq<char>)
    ensures
        m.pids.contains_key(name) ==> {
            &&& m.stop_signal(name) == Some(m.pids[name])
            &&& m.stop(name).pending.contains_key(name) && m.stop(name).pending[name]
            &&& m.stop(name).running == m.running
            &&& m.stop(name).pids == m.pids
            &&& m.stop(name).restarts == m.restarts
            &&& m.stop(name).args == m.args
        },
        !m.pids.contains_key(name) ==> m.stop_signal(name) is None && m.stop(name) == m,
{
}

/// A module is launched exactly if it is known and does not run: the program
/// it was found with, with the arguments given, by the handler of its name. One
/// that runs is left alone, and one that is not known is not found.
pub proof fn law_start(m: ManagerModel, name: Seq<char>, args: Option<Seq<Seq<char>>>)
    ensures
        m.start(name, args) is AlreadyRunning <==> m.running.contains_key(name) && m.running[name],
        m.start(name, args) is Launch <==> m.discovered.contains_key(name) && !(
        m.running.contains_key(name) && m.running[name]),
        m.start(name, args) is Launch ==> {
            let request = m.start(name, args)->Launch_0;
            &&& request.name == name
            &&& request.path == m.discovered[name]
            &&& request.args == args
            &&& request.kind is Notify <==> name == "aw-notify"@
            &&& request.kind is OdooSync <==> name == "aw-odoo-sync"@
        },
{
    law_handler_by_name(name);
}

/// A crash of a module that is being stopped leads to nothing; one of any other
/// module leads to a restart if it was restarted less than three times, and to
/// giving it up otherwise.
pub proof fn law_crash(m: ManagerModel, name: Seq<char>)
    ensures
        m.crash(name) is Ignore <==> m.pending.contains_key(name) && m.pending[name],
        m.crash(name) is Restart <==> !(m.pending.contains_key(name) && m.pending[name]) && (
        m.restarts.contains_key(name) ==> m.restarts[name] < 3),
        m.crash(name) is Restart ==> m.crash(name)->restart_count == (if m.restarts.contains_key(
            name,
        ) {
            m.restarts[name]
        } else {
            0
        }),
{
}

/// A restart is counted, and a module given up is kept from being restarted;
/// nothing else changes.
pub proof fn law_restart_and_give_up(m: ManagerModel, name: Seq<char>, restart_count: u32)
    requires
        restart_count < 3,
    ensures
        ({
            let next = m.restarted(name, restart_count);
            &&& next.restarts.contains_key(name) && next.restarts[name] == restart_count + 1
            &&& next.running == m.running
            &&& next.pids == m.pids
            &&& next.pending == m.pending
            &&& next.args == m.args
        }),
        ({
            let next = m.give_up(name);
            &&& next.pending.contains_key(name) && next.pending[name]
            &&& next.running == m.running
            &&& next.pids == m.pids
            &&& next.restarts == m.restarts
            &&& next.args == m.args
        }),
{
}

/// The arguments for a restart are those that the module was last started
/// with.
pub proof fn law_restart_arguments(m: ManagerModel, name: Seq<char>)
    ensures
        m.args.contains_key(name) ==> m.stored_args(name) == m.args[name],
        !m.args.contains_key(name) ==> m.stored_args(name) is None,
{
}

/// A click stops a module that runs, and signals its process; it starts a known
/// module that does not, without arguments of its own, and changes nothing
/// then.
pub proof fn law_click(m: ManagerModel, name: Seq<char>)
    ensures
        m.running.contains_key(name) && m.running[name] ==> {
            &&& m.clicked(name).0 == m.stop(name)
            &&& m.clicked(name).1 is Stop
            &&& m.pids.contains_key(name) ==> m.clicked(name).1->Stop_0 == Some(m.pids[name])
            &&& !m.pids.contains_key(name) ==> m.clicked(name).1->Stop_0 is None
        },
        !(m.running.contains_key(name) && m.running[name]) ==> {
            &&& m.clicked(name).0 == m
            &&& m.clicked(name).1 is Start
            &&& m.clicked(name).1->Start_0 is Launch <==> m.discovered.contains_key(name)
            &&& m.clicked(name).1->Start_0 is Launch ==> m.clicked(name).1->Start_0->Launch_0.name
                == name && m.clicked(name).1->Start_0->Launch_0.args is None
        },
{
}

/// A manager starts with the modules that it knows and with nothing else.
pub proof fn law_initial(discovered: Map<Seq<char>, Seq<u8>>, name: Seq<char>)
    ensures
        ({
            let m = ManagerModel::initial(discovered);
            &&& m.discovered == discovered
            &&& !m.running.contains_key(name)
            &&& !m.pids.contains_key(name)
            &&& !m.restarts.contains_key(name)
            &&& !m.pending.contains_key(name)
            &&& !m.args.contains_key(name)
            &&& !m.menu_set
        }),
{
}

/// The end of a module is a crash exactly if it was no success, whatever the
/// module; so any module that ends with an exit code other than zero, or by a
/// signal, and is not launched again at once, is seen to crash.
pub proof fn law_failed_end_is_crash(
    message: MessageModel,
    request: LaunchModel,
    code: Option<i32>,
    stderr: Seq<char>,
)
    ensures
        match crashed_in(message) {
            Some(name) => message is Stopped && message->Stopped_name == name && !message->success,
            None => message is Stopped ==> message->success,
        },
        exit_of(request, code, stderr) is Report && code != Some(0i32) ==> crashed_in(
            exit_of(request, code, stderr)->Report_0,
        ) == Some(request.name),
{
    law_success_means_exit_code_zero(request, code, stderr);
}

/// A restart that is wanted is counted, and a known module that does not run
/// meanwhile is launched with the arguments it was last started with; one that
/// is not wanted changes nothing and starts nothing.
pub proof fn law_wanted_restart(m: ManagerModel, name: Seq<char>, restart_count: u32)
    requires
        restart_count < 3,
    ensures
        ({
            let (next, decision) = m.resumed(name, restart_count, true);
            &&& next.restarts.contains_key(name) && next.restarts[name] == restart_count + 1
            &&& next.running == m.running && next.pids == m.pids && next.pending == m.pending
                && next.args == m.args && next.discovered == m.discovered
            &&& decision is Some
            &&& decision->0 is Launch <==> m.discovered.contains_key(name) && !(
            m.running.contains_key(name) && m.running[name])
            &&& decision->0 is Launch && m.args.contains_key(name) ==> decision->0->Launch_0.args
                == m.args[name]
            &&& decision->0 is Launch ==> decision->0->Launch_0.name == name
                && decision->0->Launch_0.path == m.discovered[name]
        }),
        m.resumed(name, restart_count, false) == (m, None::<StartModel>),
{
    law_start(m, name, m.stored_args(name));
}

} // verus!
