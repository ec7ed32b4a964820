//! The life of one module's process, from its launch to its end: what its
//! handler does at each event.
use vstd::prelude::*;
use vstd::string::*;
use vstd::utf8::{decode_utf8, valid_utf8};

use crate::dialog::{handle_odoo_sync_output_line, odoo_action, OdooAction, OdooModel};
use crate::launch::{
    after_exit, after_spawn_error, as_generic, exit_of, lacks_output_only, law_complaint, plan_launch, plan_of,
    report_started, ExitModel, ExitOutcome, LaunchModel, LaunchPlan, LaunchRequest, MessageModel,
    ModuleKind, ModuleMessage, PlanModel,
};
use crate::notify::{handle_notify_output_line, notification_in, Notification};
use crate::outside::lossy_text;

verus! {

/// How far a handler has come.
#[derive(Clone, Copy, Debug, PartialEq, Eq, Structural)]
pub enum Phase {
    /// The process is being started.
    Starting,
    /// The process runs.
    Running,
    /// There is nothing left to do.
    Ended,
}

/// The handler of a module's process.
#[derive(Debug)]
pub struct Worker {
    pub request: LaunchRequest,
    pub port: u16,
    pub phase: Phase,
}

/// A handler as contracts speak of it.
#[verifier::ext_equal]
pub struct WorkerModel {
    pub request: LaunchModel,
    pub port: u16,
    pub phase: Phase,
}

impl View for Worker {
    type V = WorkerModel;

    open spec fn view(&self) -> WorkerModel {
        WorkerModel { request: self.request@, port: self.port, phase: self.phase }
    }
}

/// What can happen to a process.
#[derive(Debug)]
pub enum WorkerEvent {
    /// It could not be started.
    SpawnFailed { error: String },
    /// It was started.
    Spawned { pid: u32 },
    /// It printed a line.
    Line { line: String },
    /// It ended, with an exit code unless a signal ended it.
    Exited { code: Option<i32>, stderr: Vec<u8> },
}

/// An event as contracts speak of it.
pub enum EventModel {
    SpawnFailed { error: Seq<char> },
    Spawned { pid: u32 },
    Line { line: Seq<char> },
    Exited { code: Option<i32>, stderr: Seq<u8> },
}

impl View for WorkerEvent {
    type V = EventModel;

    open spec fn view(&self) -> EventModel {
        match *self {
            WorkerEvent::SpawnFailed { error } => EventModel::SpawnFailed { error: error@ },
            WorkerEvent::Spawned { pid } => EventModel::Spawned { pid },
            WorkerEvent::Line { line } => EventModel::Line { line: line@ },
            WorkerEvent::Exited { code, stderr } => EventModel::Exited { code, stderr: stderr@ },
        }
    }
}

/// Whether an event is the end of a process that left valid UTF-8 on its
/// standard error.
pub open spec fn ends_in_utf8(event: EventModel) -> bool {
    match event {
        EventModel::Exited { stderr, .. } => valid_utf8(stderr),
        _ => false,
    }
}

/// What a handler does.
#[derive(Debug)]
pub enum WorkerAction {
    /// Starts the process in this way.
    Launch(LaunchPlan),
    /// Closes the pipe that tells of the parent's death.
    ReleasePipe,
    /// Keeps the pipe to the standard input of the process.
    KeepStdin,
    /// Gives up the pipe to the standard input of the process.
    DropStdin,
    /// Watches the pipe that tells of the parent's death, to end the process
    /// with this number then.
    WatchParent(u32),
    /// Tells the manager.
    Tell(ModuleMessage),
    /// Shows a notification.
    Show(Notification),
    /// Changes the dialog.
    Dialog(OdooAction),
}

/// An action as contracts speak of it.
pub enum ActionModel {
    Launch(PlanModel),
    ReleasePipe,
    KeepStdin,
    DropStdin,
    WatchParent(u32),
    Tell(MessageModel),
    Show(Seq<char>, Seq<char>),
    Dialog(OdooModel),
}

impl View for WorkerAction {
    type V = ActionModel;

    open spec fn view(&self) -> ActionModel {
        match *self {
            WorkerAction::Launch(plan) => ActionModel::Launch(plan@),
            WorkerAction::ReleasePipe => ActionModel::ReleasePipe,
            WorkerAction::KeepStdin => ActionModel::KeepStdin,
            WorkerAction::DropStdin => ActionModel::DropStdin,
            WorkerAction::WatchParent(pid) => ActionModel::WatchParent(pid),
            WorkerAction::Tell(message) => ActionModel::Tell(message@),
            WorkerAction::Show(n) => ActionModel::Show(n.title@, n.message@),
            WorkerAction::Dialog(action) => ActionModel::Dialog(action@),
        }
    }
}

/// Several actions as contracts speak of them.
pub open spec fn action_models(v: Seq<WorkerAction>) -> Seq<ActionModel> {
    Seq::new(v.len(), |i: int| v[i]@)
}

impl WorkerModel {
    /// The handler of a launch, before the process is started.
    pub open spec fn initial(request: LaunchModel, port: u16) -> WorkerModel {
        WorkerModel { request, port, phase: Phase::Starting }
    }

    /// The same handler in another phase.
    pub open spec fn in_phase(self, phase: Phase) -> WorkerModel {
        WorkerModel { phase, ..self }
    }

    /// What happens when the launch is replaced by another.
    pub open spec fn relaunched(self, next: LaunchModel) -> (WorkerModel, Seq<ActionModel>) {
        (
            WorkerModel::initial(next, self.port),
            seq![ActionModel::ReleasePipe, ActionModel::Launch(plan_of(next, self.port))],
        )
    }

    /// `first` for the synchronisation module, which takes commands.
    pub open spec fn stdin_action(self, first: ActionModel) -> Seq<ActionModel> {
        if self.request.kind is OdooSync {
            seq![first]
        } else {
            Seq::empty()
        }
    }

    /// What a printed line leads to.
    pub open spec fn line_actions(self, line: Seq<char>) -> Seq<ActionModel> {
        match self.request.kind {
            ModuleKind::Generic => Seq::empty(),
            ModuleKind::Notify => match notification_in(line) {
                Some((title, message)) => seq![ActionModel::Show(title, message)],
                None => Seq::empty(),
            },
            ModuleKind::OdooSync => match odoo_action(line) {
                OdooModel::Ignore => Seq::empty(),
                action => seq![ActionModel::Dialog(action)],
            },
        }
    }

    /// What the end of the process leads to, given the text on its standard
    /// error.
    pub open spec fn exited(self, code: Option<i32>, stderr: Seq<char>) -> (
        WorkerModel,
        Seq<ActionModel>,
    ) {
        match exit_of(self.request, code, stderr) {
            ExitModel::Relaunch(next) => self.relaunched(next),
            ExitModel::Report(message) => (
                self.in_phase(Phase::Ended),
                self.stdin_action(ActionModel::DropStdin) + seq![ActionModel::Tell(message)],
            ),
        }
    }

    /// One step: from an event to the next state and the actions. Events that
    /// cannot happen in a phase change nothing.
    pub open spec fn step(self, event: EventModel) -> (WorkerModel, Seq<ActionModel>) {
        match (self.phase, event) {
            (Phase::Starting, EventModel::SpawnFailed { error }) => if self.request.kind is Notify
                && lacks_output_only(error) {
                self.relaunched(as_generic(self.request))
            } else {
                (self.in_phase(Phase::Ended), seq![ActionModel::ReleasePipe])
            },
            (Phase::Starting, EventModel::Spawned { pid }) => (
                self.in_phase(Phase::Running),
                self.stdin_action(ActionModel::KeepStdin) + seq![
                    ActionModel::WatchParent(pid),
                    ActionModel::Tell(
                        MessageModel::Started {
                            name: self.request.name,
                            pid,
                            args: plan_of(self.request, self.port).reported_args,
                        },
                    ),
                ],
            ),
            (Phase::Running, EventModel::Line { line }) => (self, self.line_actions(line)),
            (Phase::Running, EventModel::Exited { code, stderr }) => self.exited(
                code,
                lossy_text(stderr),
            ),
            _ => (self, Seq::empty()),
        }
    }

    /// The state after a series of events.
    pub open spec fn after(self, events: Seq<EventModel>) -> WorkerModel
        decreases events.len(),
    {
        if events.len() == 0 {
            self
        } else {
            self.after(events.drop_last()).step(events.last()).0
        }
    }

    /// The actions on a series of events.
    pub open spec fn actions(self, events: Seq<EventModel>) -> Seq<ActionModel>
        decreases events.len(),
    {
        if events.len() == 0 {
            Seq::empty()
        } else {
            self.actions(events.drop_last()) + self.after(events.drop_last()).step(events.last()).1
        }
    }
}

impl Worker {
    /// The handler of a launch, and how to start the process.
    pub fn new(request: LaunchRequest, port: u16) -> (r: (Worker, LaunchPlan))
        ensures
            r.0@ == WorkerModel::initial(request@, port),
            r.1@ == plan_of(request@, port),
    {
        let plan: LaunchPlan = plan_launch(&request, port);
        (Worker { request, port, phase: Phase::Starting }, plan)
    }

    fn is_odoo_sync(&self) -> (r: bool)
        ensures
            r == (self@.request.kind is OdooSync),
    {
        match self.request.kind {
            ModuleKind::OdooSync => true,
            _ => false,
        }
    }

    fn relaunch(next: LaunchRequest, port: u16) -> (r: (Worker, Vec<WorkerAction>))
        ensures
            r.0@ == WorkerModel::initial(next@, port),
            action_models(r.1@) == seq![
                ActionModel::ReleasePipe,
                ActionModel::Launch(plan_of(next@, port)),
            ],
    {
        let (worker, plan) = Worker::new(next, port);
        let mut actions: Vec<WorkerAction> = Vec::new();
        actions.push(WorkerAction::ReleasePipe);
        actions.push(WorkerAction::Launch(plan));
        assert(action_models(actions@) =~= seq![
            ActionModel::ReleasePipe,
            ActionModel::Launch(plan_of(next@, port)),
        ]);
        (worker, actions)
    }

    fn spawn_failed(self, error: &str) -> (r: (Worker, Vec<WorkerAction>))
        requires
            self.phase is Starting,
        ensures
            (r.0@, action_models(r.1@)) == self@.step(EventModel::SpawnFailed { error: error@ }),
    {
        let port: u16 = self.port;
        match after_spawn_error(&self.request, error) {
            Some(next) => {
                return Worker::relaunch(next, port);
            },
            None => {},
        }
        let mut actions: Vec<WorkerAction> = Vec::new();
        actions.push(WorkerAction::ReleasePipe);
        assert(action_models(actions@) =~= seq![ActionModel::ReleasePipe]);
        (Worker { request: self.request, port, phase: Phase::Ended }, actions)
    }

    fn spawned(self, pid: u32) -> (r: (Worker, Vec<WorkerAction>))
        requires
            self.phase is Starting,
        ensures
            (r.0@, action_models(r.1@)) == self@.step(EventModel::Spawned { pid }),
    {
        let mut actions: Vec<WorkerAction> = Vec::new();
        if self.is_odoo_sync() {
            actions.push(WorkerAction::KeepStdin);
        }
        let plan: LaunchPlan = plan_launch(&self.request, self.port);
        actions.push(WorkerAction::WatchParent(pid));
        actions.push(WorkerAction::Tell(report_started(&self.request, &plan, pid)));
        assert(action_models(actions@) =~= self@.step(EventModel::Spawned { pid }).1);
        (Worker { request: self.request, port: self.port, phase: Phase::Running }, actions)
    }

    fn printed(&self, line: &str) -> (r: Vec<WorkerAction>)
        ensures
            action_models(r@) == self@.line_actions(line@),
    {
        let mut actions: Vec<WorkerAction> = Vec::new();
        match self.request.kind {
            ModuleKind::Generic => {},
            ModuleKind::Notify => match handle_notify_output_line(line) {
                Some(n) => {
                    actions.push(WorkerAction::Show(n));
                },
                None => {},
            },
            ModuleKind::OdooSync => match handle_odoo_sync_output_line(line) {
                OdooAction::Ignore => {},
                action => {
                    actions.push(WorkerAction::Dialog(action));
                },
            },
        }
        assert(action_models(actions@) =~= self@.line_actions(line@));
        actions
    }

    fn exited(self, code: Option<i32>, stderr: &Vec<u8>) -> (r: (Worker, Vec<WorkerAction>))
        requires
            self.phase is Running,
        ensures
            (r.0@, action_models(r.1@)) == self@.step(EventModel::Exited { code, stderr: stderr@ }),
            valid_utf8(stderr@) ==> (r.0@, action_models(r.1@)) == self@.exited(
                code,
                decode_utf8(stderr@),
            ),
    {
        let port: u16 = self.port;
        let takes_commands: bool = self.is_odoo_sync();
        match after_exit(&self.request, code, stderr) {
            ExitOutcome::Relaunch(next) => Worker::relaunch(next, port),
            ExitOutcome::Report(message) => {
                let mut actions: Vec<WorkerAction> = Vec::new();
                if takes_commands {
                    actions.push(WorkerAction::DropStdin);
                }
                actions.push(WorkerAction::Tell(message));
                assert(action_models(actions@) =~= self@.stdin_action(ActionModel::DropStdin)
                    + seq![ActionModel::Tell(message@)]);
                (Worker { request: self.request, port, phase: Phase::Ended }, actions)
            },
        }
    }

    /// Decides what to do at an event.
    pub fn step(self, event: &WorkerEvent) -> (r: (Worker, Vec<WorkerAction>))
        ensures
            (r.0@, action_models(r.1@)) == self@.step(event@),
            self.phase is Running && ends_in_utf8(event@) ==> (r.0@, action_models(r.1@))
                == self@.exited(event@->code, decode_utf8(event@->stderr)),
    {
        match self.phase {
            Phase::Starting => match event {
                WorkerEvent::SpawnFailed { error } => {
                    return self.spawn_failed(error.as_str());
                },
                WorkerEvent::Spawned { pid } => {
                    return self.spawned(*pid);
                },
                _ => {},
            },
            Phase::Running => match event {
                WorkerEvent::Line { line } => {
                    let actions: Vec<WorkerAction> = self.printed(line.as_str());
                    return (self, actions);
                },
                WorkerEvent::Exited { code, stderr } => {
                    return self.exited(*code, stderr);
                },
                _ => {},
            },
            Phase::Ended => {},
        }
        let none: Vec<WorkerAction> = Vec::new();
        assert(action_models(none@) =~= Seq::empty());
        (self, none)
    }
}

/// Whether the manager is told that the process was started.
pub open spec fn is_start(action: ActionModel) -> bool {
    action matches ActionModel::Tell(message) && message is Started
}

/// Whether the manager is told that the process ended.
pub open spec fn is_stop(action: ActionModel) -> bool {
    action matches ActionModel::Tell(message) && message is Stopped
}

/// The number of actions that satisfy `p`.
pub open spec fn count(actions: Seq<ActionModel>, p: spec_fn(ActionModel) -> bool) -> nat
    decreases actions.len(),
{
    if actions.len() == 0 {
        0
    } else {
        count(actions.drop_last(), p) + (if p(actions.last()) {
            1nat
        } else {
            0nat
        })
    }
}

/// How often the manager is told that the process was started.
pub open spec fn starts(actions: Seq<ActionModel>) -> nat {
    count(actions, |a: ActionModel| is_start(a))
}

/// How often the manager is told that the process ended.
pub open spec fn stops(actions: Seq<ActionModel>) -> nat {
    count(actions, |a: ActionModel| is_stop(a))
}

proof fn lemma_count_add(
    a: Seq<ActionModel>,
    b: Seq<ActionModel>,
    p: spec_fn(ActionModel) -> bool,
)
    ensures
        count(a + b, p) == count(a, p) + count(b, p),
    decreases b.len(),
{
    if b.len() == 0 {
        assert(a + b =~= a);
    } else {
        assert((a + b).drop_last() =~= a + b.drop_last());
        lemma_count_add(a, b.drop_last(), p);
    }
}

/// Ends told in two series of actions add up.
pub proof fn lemma_stops_add(a: Seq<ActionModel>, b: Seq<ActionModel>)
    ensures
        stops(a + b) == stops(a) + stops(b),
{
    lemma_count_add(a, b, |x: ActionModel| is_stop(x));
}

proof fn lemma_count_one(x: ActionModel, p: spec_fn(ActionModel) -> bool)
    ensures
        count(seq![x], p) == (if p(x) {
            1nat
        } else {
            0nat
        }),
{
    assert(seq![x].drop_last() =~= Seq::empty());
    assert(count(seq![x].drop_last(), p) == 0);
}

proof fn lemma_count_two(x: ActionModel, y: ActionModel, p: spec_fn(ActionModel) -> bool)
    ensures
        count(seq![x, y], p) == count(seq![x], p) + count(seq![y], p),
{
    assert(seq![x, y] =~= seq![x] + seq![y]);
    lemma_count_add(seq![x], seq![y], p);
}

/// How the messages of one step count, by the event and the phase.
pub proof fn lemma_step_counts(w: WorkerModel, event: EventModel)
    ensures
        ({
            let (next, actions) = w.step(event);
            &&& starts(actions) == (if w.phase is Starting && event is Spawned {
                1nat
            } else {
                0nat
            })
            &&& stops(actions) == (if w.phase is Running && event is Exited && next.phase is Ended {
                1nat
            } else {
                0nat
            })
        }),
{
    let (next, actions) = w.step(event);
    let p = |a: ActionModel| is_start(a);
    let q = |a: ActionModel| is_stop(a);
    assert(count(Seq::empty(), p) == 0);
    assert(count(Seq::empty(), q) == 0);
    match (w.phase, event) {
        (Phase::Starting, EventModel::SpawnFailed { error }) => {
            let generic = as_generic(w.request);
            let plan = ActionModel::Launch(plan_of(generic, w.port));
            lemma_count_one(ActionModel::ReleasePipe, p);
            lemma_count_one(ActionModel::ReleasePipe, q);
            lemma_count_one(plan, p);
            lemma_count_one(plan, q);
            lemma_count_two(ActionModel::ReleasePipe, plan, p);
            lemma_count_two(ActionModel::ReleasePipe, plan, q);
        },
        (Phase::Starting, EventModel::Spawned { pid }) => {
            let first = w.stdin_action(ActionModel::KeepStdin);
            let watch = ActionModel::WatchParent(pid);
            let tell = ActionModel::Tell(
                MessageModel::Started {
                    name: w.request.name,
                    pid,
                    args: plan_of(w.request, w.port).reported_args,
                },
            );
            lemma_count_one(ActionModel::KeepStdin, p);
            lemma_count_one(ActionModel::KeepStdin, q);
            lemma_count_one(watch, p);
            lemma_count_one(watch, q);
            lemma_count_one(tell, p);
            lemma_count_one(tell, q);
            lemma_count_two(watch, tell, p);
            lemma_count_two(watch, tell, q);
            lemma_count_add(first, seq![watch, tell], p);
            lemma_count_add(first, seq![watch, tell], q);
        },
        (Phase::Running, EventModel::Line { line }) => {
            if actions.len() > 0 {
                lemma_count_one(actions[0], p);
                lemma_count_one(actions[0], q);
                assert(actions =~= seq![actions[0]]);
            }
        },
        (Phase::Running, EventModel::Exited { code, stderr }) => {
            match exit_of(w.request, code, lossy_text(stderr)) {
                ExitModel::Relaunch(request) => {
                    let plan = ActionModel::Launch(plan_of(request, w.port));
                    lemma_count_one(ActionModel::ReleasePipe, p);
                    lemma_count_one(ActionModel::ReleasePipe, q);
                    lemma_count_one(plan, p);
                    lemma_count_one(plan, q);
                    lemma_count_two(ActionModel::ReleasePipe, plan, p);
                    lemma_count_two(ActionModel::ReleasePipe, plan, q);
                },
                ExitModel::Report(message) => {
                    let first = w.stdin_action(ActionModel::DropStdin);
                    let tell = ActionModel::Tell(message);
                    lemma_count_one(ActionModel::DropStdin, p);
                    lemma_count_one(ActionModel::DropStdin, q);
                    lemma_count_one(tell, p);
                    lemma_count_one(tell, q);
                    lemma_count_add(first, seq![tell], p);
                    lemma_count_add(first, seq![tell], q);
                },
            }
        },
        _ => {},
    }
}

/// Whatever happens to a module's process, the manager is told of its end
/// at most once, and only after it was told of its start; of a start it is
/// told at most once, or twice if the notification module is launched again
/// as a generic one. While the process runs, its start was told and its end
/// was not.
pub proof fn law_messages_in_order(request: LaunchModel, port: u16, events: Seq<EventModel>)
    ensures
        ({
            let w = WorkerModel::initial(request, port);
            let done = w.actions(events);
            let now = w.after(events);
            &&& stops(done) <= 1
            &&& stops(done) == 1 ==> now.phase is Ended && starts(done) >= 1
            &&& now.phase is Running ==> starts(done) >= 1
            &&& starts(done) <= (if request.kind is Notify {
                2nat
            } else {
                1nat
            })
        }),
{
    lemma_messages(request, port, events);
}

proof fn lemma_messages(request: LaunchModel, port: u16, events: Seq<EventModel>)
    ensures
        ({
            let w = WorkerModel::initial(request, port);
            let done = w.actions(events);
            let now = w.after(events);
            let again = request.kind is Notify && now.request.kind is Generic;
            &&& now.request.name == request.name
            &&& now.request.path == request.path
            &&& now.request.args == request.args
            &&& now.request.kind == request.kind || again
            &&& !(now.phase is Ended) ==> stops(done) == 0
            &&& stops(done) <= 1
            &&& stops(done) == 1 ==> starts(done) >= 1
            &&& now.phase is Running ==> starts(done) >= 1
            &&& starts(done) <= (if now.phase is Starting {
                0nat
            } else {
                1nat
            }) + (if again {
                1nat
            } else {
                0nat
            })
        }),
    decreases events.len(),
{
    if events.len() > 0 {
        let w = WorkerModel::initial(request, port);
        let before = events.drop_last();
        lemma_messages(request, port, before);
        let step = w.after(before).step(events.last());
        lemma_step_counts(w.after(before), events.last());
        lemma_count_add(w.actions(before), step.1, |a: ActionModel| is_start(a));
        lemma_count_add(w.actions(before), step.1, |a: ActionModel| is_stop(a));
    }
}

/// The module keeps its name, program and arguments throughout.
pub proof fn law_identity_kept(request: LaunchModel, port: u16, events: Seq<EventModel>)
    ensures
        WorkerModel::initial(request, port).after(events).request.name == request.name,
        WorkerModel::initial(request, port).after(events).request.path == request.path,
        WorkerModel::initial(request, port).after(events).request.args == request.args,
{
    lemma_messages(request, port, events);
}

/// Once a handler has nothing left to do, no event makes it act.
pub proof fn law_end_is_final(w: WorkerModel, event: EventModel)
    requires
        w.phase is Ended,
    ensures
        w.step(event) == (w, Seq::<ActionModel>::empty()),
{
}

/// A process that could not be started is reported neither as started nor as
/// ended.
pub proof fn law_failed_start_untold(w: WorkerModel, error: Seq<char>)
    requires
        w.phase is Starting,
    ensures
        starts(w.step(EventModel::SpawnFailed { error }).1) == 0,
        stops(w.step(EventModel::SpawnFailed { error }).1) == 0,
{
    lemma_step_counts(w, EventModel::SpawnFailed { error });
}

/// When the process was started, its handler watches the parent for it and
/// tells the manager of it, under its name and number and with the arguments
/// of its plan; for the synchronisation module, and no other, it keeps the pipe
/// for commands first. Nothing else is done.
pub proof fn law_started_process(w: WorkerModel, pid: u32)
    requires
        w.phase is Starting,
    ensures
        ({
            let (next, actions) = w.step(EventModel::Spawned { pid });
            let n = actions.len();
            &&& next.phase is Running
            &&& next.request == w.request
            &&& next.port == w.port
            &&& n == (if w.request.kind is OdooSync {
                3int
            } else {
                2int
            })
            &&& w.request.kind is OdooSync ==> actions[0] is KeepStdin
            &&& actions[n - 2] == ActionModel::WatchParent(pid)
            &&& actions[n - 1] is Tell
            &&& actions[n - 1]->Tell_0 is Started
            &&& actions[n - 1]->Tell_0->Started_name == w.request.name
            &&& actions[n - 1]->Tell_0->pid == pid
            &&& actions[n - 1]->Tell_0->args == plan_of(w.request, w.port).reported_args
        }),
{
}

/// A process that could not be started is given up, and the watch on the parent
/// with it, unless it is the notification module and the error speaks of the
/// print-only mode: then it is started by the generic handler.
pub proof fn law_failed_start(
    w: WorkerModel,
    before: Seq<char>,
    after: Seq<char>,
    error: Seq<char>,
)
    requires
        w.phase is Starting,
    ensures
        ({
            let (next, actions) = w.step(EventModel::SpawnFailed { error });
            &&& next.port == w.port
            &&& actions.len() > 0
            &&& actions[0] is ReleasePipe
            &&& next.phase is Ended <==> actions.len() == 1
            &&& !(next.phase is Ended) ==> {
                &&& w.request.kind is Notify
                &&& exists|a: Seq<char>, b: Seq<char>|
                    error == #[trigger] (a + "No such option: --output-only"@ + b)
                &&& next.phase is Starting
                &&& next.request.kind is Generic
                &&& next.request.name == w.request.name
                &&& next.request.path == w.request.path
                &&& next.request.args == w.request.args
                &&& actions.len() == 2
                &&& actions[1] == ActionModel::Launch(plan_of(next.request, w.port))
            }
        }),
        w.request.kind is Notify ==> w.step(
            EventModel::SpawnFailed {
                error: before + "No such option: --output-only"@ + after,
            },
        ).0.phase is Starting,
{
    law_complaint(before, after, error);
}

/// A line of a generic module leads to nothing; one of the notification module
/// to the notification in it, if there is one; one of the synchronisation
/// module to what the dialog needs, if it needs anything. No line ends the
/// handler.
pub proof fn law_printed_line(w: WorkerModel, line: Seq<char>)
    requires
        w.phase is Running,
    ensures
        ({
            let (next, actions) = w.step(EventModel::Line { line });
            &&& next == w
            &&& w.request.kind is Generic ==> actions.len() == 0
            &&& w.request.kind is Notify ==> match notification_in(line) {
                Some((title, message)) => actions.len() == 1 && actions[0] == ActionModel::Show(
                    title,
                    message,
                ),
                None => actions.len() == 0,
            }
            &&& w.request.kind is OdooSync ==> if odoo_action(line) is Ignore {
                actions.len() == 0
            } else {
                actions.len() == 1 && actions[0] == ActionModel::Dialog(odoo_action(line))
            }
        }),
{
}

/// The end of a process is told to the manager, as a success if and only if the
/// exit code is zero, and the pipe for commands is given up first where there
/// is one; only the notification module, after the exit code for wrong usage,
/// can be launched again instead, and then nothing is told.
pub proof fn law_ended_process(w: WorkerModel, code: Option<i32>, stderr: Seq<char>)
    ensures
        ({
            let (next, actions) = w.exited(code, stderr);
            let n = actions.len();
            &&& next.port == w.port
            &&& next.request.name == w.request.name
            &&& next.request.path == w.request.path
            &&& next.request.args == w.request.args
            &&& next.phase is Ended ==> {
                &&& n == (if w.request.kind is OdooSync {
                    2int
                } else {
                    1int
                })
                &&& w.request.kind is OdooSync ==> actions[0] is DropStdin
                &&& actions[n - 1] is Tell
                &&& actions[n - 1]->Tell_0 is Stopped
                &&& actions[n - 1]->Tell_0->Stopped_name == w.request.name
                &&& actions[n - 1]->Tell_0->success <==> code is Some && code->0 == 0
            }
            &&& !(next.phase is Ended) ==> {
                &&& w.request.kind is Notify && code is Some && code->0 == 2
                &&& next.phase is Starting
                &&& next.request.kind is Generic
                &&& n == 2
                &&& actions[0] is ReleasePipe
                &&& actions[1] == ActionModel::Launch(plan_of(next.request, w.port))
            }
        }),
{
}

/// While a process runs, its end, and only its end or a line it prints, makes
/// its handler act; before it runs only the outcome of its start does.
pub proof fn law_events_in_their_phase(w: WorkerModel, event: EventModel)
    ensures
        w.phase is Starting && !(event is SpawnFailed) && !(event is Spawned) ==> w.step(event) == (
            w,
            Seq::<ActionModel>::empty(),
        ),
        w.phase is Running && !(event is Line) && !(event is Exited) ==> w.step(event) == (
            w,
            Seq::<ActionModel>::empty(),
        ),
        w.phase is Running && event is Exited ==> w.step(event) == w.exited(
            event->code,
            lossy_text(event->stderr),
        ),
{
}

/// Handlers, events and actions stand as what they hold.
pub proof fn law_worker_views(
    worker: Worker,
    event: WorkerEvent,
    action: WorkerAction,
    actions: Seq<WorkerAction>,
)
    ensures
        worker@.request == worker.request@,
        worker@.port == worker.port,
        worker@.phase == worker.phase,
        match event {
            WorkerEvent::SpawnFailed { error } => event@ == (EventModel::SpawnFailed {
                error: error@,
            }),
            WorkerEvent::Spawned { pid } => event@ == (EventModel::Spawned { pid }),
            WorkerEvent::Line { line } => event@ == (EventModel::Line { line: line@ }),
            WorkerEvent::Exited { code, stderr } => event@ == (EventModel::Exited {
                code,
                stderr: stderr@,
            }),
        },
        match action {
            WorkerAction::Launch(plan) => action@ == ActionModel::Launch(plan@),
            WorkerAction::ReleasePipe => action@ is ReleasePipe,
            WorkerAction::KeepStdin => action@ is KeepStdin,
            WorkerAction::DropStdin => action@ is DropStdin,
            WorkerAction::WatchParent(pid) => action@ == ActionModel::WatchParent(pid),
            WorkerAction::Tell(message) => action@ == ActionModel::Tell(message@),
            WorkerAction::Show(n) => action@ == ActionModel::Show(n.title@, n.message@),
            WorkerAction::Dialog(a) => action@ == ActionModel::Dialog(a@),
        },
        action_models(actions).len() == actions.len(),
        forall|i: int|
            0 <= i < actions.len() ==> #[trigger] action_models(actions)[i] == actions[i]@,
        forall|request: LaunchModel, port: u16| #[trigger]
            WorkerModel::initial(request, port).request == request,
        forall|request: LaunchModel, port: u16|
            (#[trigger] WorkerModel::initial(request, port)).port == port && WorkerModel::initial(
                request,
                port,
            ).phase is Starting,
{
}

} // verus!
