//! The state of the manager: which modules are known, which run, which are
//! being stopped, and how often each was restarted.
use vstd::prelude::*;
use vstd::string::*;

use crate::launch::{
    kind_of, opt_texts, start_module_thread, LaunchModel, LaunchRequest, MessageModel,
};
use crate::names::{key_list, lemma_push_contains, lists_keys, NameMap};
use crate::paths::clone_bytes;
use crate::process::pairs;
use crate::text::{clone_texts, texts};

verus! {

/// How often a module that crashes is restarted.
pub const RESTART_LIMIT: u32 = 3;

/// The state of the manager.
pub struct ManagerState {
    /// The modules that were started at some time, and whether they run.
    pub modules_running: NameMap<bool>,
    /// The known modules and the paths of their programs.
    pub modules_discovered: NameMap<Vec<u8>>,
    /// The process numbers of the modules that run.
    pub modules_pid: NameMap<u32>,
    /// How often modules were restarted after a crash.
    pub modules_restart_count: NameMap<u32>,
    /// The modules that must not be restarted when they end.
    pub modules_pending_shutdown: NameMap<bool>,
    /// The arguments that modules were last started with.
    pub modules_args: NameMap<Option<Vec<String>>>,
    /// Whether the menu lists the modules already.
    pub modules_menu_set: bool,
}

/// The state as contracts speak of it.
#[verifier::ext_equal]
pub struct ManagerModel {
    pub running: Map<Seq<char>, bool>,
    pub discovered: Map<Seq<char>, Seq<u8>>,
    pub pids: Map<Seq<char>, u32>,
    pub restarts: Map<Seq<char>, u32>,
    pub pending: Map<Seq<char>, bool>,
    pub args: Map<Seq<char>, Option<Seq<Seq<char>>>>,
    pub menu_set: bool,
}

/// Paths by name as contracts speak of them.
pub open spec fn path_models(m: Map<Seq<char>, Vec<u8>>) -> Map<Seq<char>, Seq<u8>> {
    m.map_values(|p: Vec<u8>| p@)
}

/// Arguments by name as contracts speak of them.
pub open spec fn args_models(m: Map<Seq<char>, Option<Vec<String>>>) -> Map<
    Seq<char>,
    Option<Seq<Seq<char>>>,
> {
    m.map_values(|a: Option<Vec<String>>| opt_texts(a))
}

impl View for ManagerState {
    type V = ManagerModel;

    open spec fn view(&self) -> ManagerModel {
        ManagerModel {
            running: self.modules_running@,
            discovered: path_models(self.modules_discovered@),
            pids: self.modules_pid@,
            restarts: self.modules_restart_count@,
            pending: self.modules_pending_shutdown@,
            args: args_models(self.modules_args@),
            menu_set: self.modules_menu_set,
        }
    }
}

/// What asking for a module's start leads to.
#[derive(Debug)]
pub enum StartDecision {
    /// Nothing: it runs already.
    AlreadyRunning,
    /// Nothing: no module of that name is known.
    NotFound,
    /// A launch.
    Launch(LaunchRequest),
}

/// A decision as contracts speak of it.
pub enum StartModel {
    AlreadyRunning,
    NotFound,
    Launch(LaunchModel),
}

impl View for StartDecision {
    type V = StartModel;

    open spec fn view(&self) -> StartModel {
        match *self {
            StartDecision::AlreadyRunning => StartModel::AlreadyRunning,
            StartDecision::NotFound => StartModel::NotFound,
            StartDecision::Launch(request) => StartModel::Launch(request@),
        }
    }
}

/// What a crash leads to, as contracts speak of it.
pub enum CrashModel {
    /// Nothing: the module was to stop.
    Ignore,
    /// A restart after a pause, the module having been restarted
    /// `restart_count` times before.
    Restart { restart_count: u32 },
    /// The module is given up.
    GiveUp,
}

impl ManagerModel {
    /// The state in which nothing was started yet.
    pub open spec fn initial(discovered: Map<Seq<char>, Seq<u8>>) -> ManagerModel {
        ManagerModel {
            running: Map::empty(),
            discovered,
            pids: Map::empty(),
            restarts: Map::empty(),
            pending: Map::empty(),
            args: Map::empty(),
            menu_set: false,
        }
    }

    pub open spec fn is_running(self, name: Seq<char>) -> bool {
        self.running.contains_key(name) && self.running[name]
    }

    /// A module's process was started.
    pub open spec fn started(
        self,
        name: Seq<char>,
        pid: u32,
        args: Option<Seq<Seq<char>>>,
    ) -> ManagerModel {
        ManagerModel {
            running: self.running.insert(name, true),
            pids: self.pids.insert(name, pid),
            args: self.args.insert(name, args),
            pending: self.pending.remove(name),
            ..self
        }
    }

    /// A module's process ended.
    pub open spec fn stopped(self, name: Seq<char>) -> ManagerModel {
        ManagerModel {
            running: self.running.insert(name, false),
            pids: self.pids.remove(name),
            ..self
        }
    }

    /// What asking for a module's start leads to.
    pub open spec fn start(self, name: Seq<char>, args: Option<Seq<Seq<char>>>) -> StartModel {
        if self.is_running(name) {
            StartModel::AlreadyRunning
        } else if self.discovered.contains_key(name) {
            StartModel::Launch(
                LaunchModel { name, path: self.discovered[name], args, kind: kind_of(name) },
            )
        } else {
            StartModel::NotFound
        }
    }

    /// The process to signal when a module is asked to stop.
    pub open spec fn stop_signal(self, name: Seq<char>) -> Option<u32> {
        if self.pids.contains_key(name) {
            Some(self.pids[name])
        } else {
            None
        }
    }

    /// A module was asked to stop.
    pub open spec fn stop(self, name: Seq<char>) -> ManagerModel {
        if self.pids.contains_key(name) {
            self.give_up(name)
        } else {
            self
        }
    }

    /// The processes to signal when all modules are asked to stop.
    pub open spec fn stop_all_signals(self) -> Seq<(Seq<char>, u32)> {
        key_list(self.pids.dom()).map_values(|k: Seq<char>| (k, self.pids[k]))
    }

    pub proof fn lemma_signals(self, names: Seq<Seq<char>>, name: Seq<char>, pid: u32)
        requires
            names == key_list(self.pids.dom()),
            lists_keys(names, self.pids.dom()),
        ensures
            self.stop_all_signals().contains((name, pid)) <==> self.stop_signal(name) == Some(pid),
    {
        let all = self.stop_all_signals();
        assert(names.contains(name) <==> self.pids.dom().contains(name));
        if self.stop_signal(name) == Some(pid) {
            let i = names.index_of(name);
            assert(names[i] == name);
            assert(all[i] == (name, pid));
        }
        if all.contains((name, pid)) {
            let i = all.index_of((name, pid));
            assert(names[i] == name);
            assert(names.contains(name));
        }
    }

    /// All modules were asked to stop.
    pub open spec fn stop_all(self) -> ManagerModel {
        ManagerModel {
            pending: Map::new(
                |k: Seq<char>| self.pending.contains_key(k) || self.pids.contains_key(k),
                |k: Seq<char>| self.pids.contains_key(k) || self.pending[k],
            ),
            ..self
        }
    }

    /// A module was clicked on: the state after that, and what it leads to.
    pub open spec fn clicked(self, name: Seq<char>) -> (ManagerModel, ClickModel) {
        if self.is_running(name) {
            (self.stop(name), ClickModel::Stop(self.stop_signal(name)))
        } else {
            (self, ClickModel::Start(self.start(name, None)))
        }
    }

    /// A module must not be restarted when it ends.
    pub open spec fn give_up(self, name: Seq<char>) -> ManagerModel {
        ManagerModel { pending: self.pending.insert(name, true), ..self }
    }

    pub open spec fn is_pending(self, name: Seq<char>) -> bool {
        self.pending.contains_key(name) && self.pending[name]
    }

    /// How often a module was restarted after a crash.
    pub open spec fn restart_count(self, name: Seq<char>) -> u32 {
        if self.restarts.contains_key(name) {
            self.restarts[name]
        } else {
            0
        }
    }

    /// What a crash of a module leads to.
    pub open spec fn crash(self, name: Seq<char>) -> CrashModel {
        if self.is_pending(name) {
            CrashModel::Ignore
        } else if self.restart_count(name) < RESTART_LIMIT {
            CrashModel::Restart { restart_count: self.restart_count(name) }
        } else {
            CrashModel::GiveUp
        }
    }

    /// A restart was counted, the module having been restarted
    /// `restart_count` times before.
    pub open spec fn restarted(self, name: Seq<char>, restart_count: u32) -> ManagerModel {
        ManagerModel { restarts: self.restarts.insert(name, (restart_count + 1) as u32), ..self }
    }

    /// The pause before a restart is over: the state after that, and what it
    /// leads to, if the restart is wanted.
    pub open spec fn resumed(self, name: Seq<char>, restart_count: u32, wanted: bool) -> (
        ManagerModel,
        Option<StartModel>,
    ) {
        if wanted {
            (
                self.restarted(name, restart_count),
                Some(self.start(name, self.stored_args(name))),
            )
        } else {
            (self, None)
        }
    }

    /// The arguments that a module was last started with.
    pub open spec fn stored_args(self, name: Seq<char>) -> Option<Seq<Seq<char>>> {
        if self.args.contains_key(name) {
            self.args[name]
        } else {
            None
        }
    }

    /// The state after a message.
    pub open spec fn told(self, message: MessageModel) -> ManagerModel {
        match message {
            MessageModel::Started { name, pid, args } => self.started(name, pid, args),
            MessageModel::Stopped { name, success } => self.stopped(name),
            MessageModel::Init => self,
        }
    }
}

impl ManagerState {
    /// A manager that knows the modules `discovered` and has started none.
    pub fn new(discovered: NameMap<Vec<u8>>) -> (r: ManagerState)
        ensures
            r@ == ManagerModel::initial(path_models(discovered@)),
    {
        let r = ManagerState {
            modules_running: NameMap::new(),
            modules_discovered: discovered,
            modules_pid: NameMap::new(),
            modules_restart_count: NameMap::new(),
            modules_pending_shutdown: NameMap::new(),
            modules_args: NameMap::new(),
            modules_menu_set: false,
        };
        assert(r@ =~= ManagerModel::initial(path_models(discovered@)));
        r
    }

    /// Notes that a module's process was started.
    pub fn started_module(&mut self, name: &str, pid: u32, args: Option<Vec<String>>)
        ensures
            final(self)@ == old(self)@.started(name@, pid, opt_texts(args)),
    {
        self.modules_running.insert(name, true);
        self.modules_pid.insert(name, pid);
        self.modules_args.insert(name, args);
        self.modules_pending_shutdown.remove(name);
        assert(self@ =~= old(self)@.started(name@, pid, opt_texts(args)));
    }

    /// Notes that a module's process ended.
    pub fn stopped_module(&mut self, name: &str)
        ensures
            final(self)@ == old(self)@.stopped(name@),
    {
        self.modules_running.insert(name, false);
        self.modules_pid.remove(name);
        assert(self@ =~= old(self)@.stopped(name@));
    }

    /// Whether a module runs.
    pub fn is_module_running(&self, name: &str) -> (r: bool)
        ensures
            r == self@.is_running(name@),
    {
        match self.modules_running.get(name) {
            Some(running) => *running,
            None => false,
        }
    }

    /// Decides on the start of a module with arguments of its own, if any
    /// are given.
    pub fn start_module(&self, name: &str, args: Option<&Vec<String>>) -> (r: StartDecision)
        ensures
            r@ == self@.start(
                name@,
                match args {
                    Some(v) => Some(texts(v@)),
                    None => None,
                },
            ),
    {
        if self.is_module_running(name) {
            return StartDecision::AlreadyRunning;
        }
        match self.modules_discovered.get(name) {
            Some(path) => {
                let own: Option<Vec<String>> = match args {
                    Some(v) => Some(clone_texts(v)),
                    None => None,
                };
                StartDecision::Launch(start_module_thread(name.to_owned(), clone_bytes(path), own))
            },
            None => StartDecision::NotFound,
        }
    }

    /// Marks a module as being stopped, so that it is not restarted, and
    /// tells the process to signal. A module without a process is left alone.
    pub fn stop_module(&mut self, name: &str) -> (r: Option<u32>)
        ensures
            final(self)@ == old(self)@.stop(name@),
            r == old(self)@.stop_signal(name@),
    {
        let pid: u32 = match self.modules_pid.get(name) {
            Some(pid) => *pid,
            None => {
                return None;
            },
        };
        self.modules_pending_shutdown.insert(name, true);
        assert(self@ =~= old(self)@.stop(name@));
        Some(pid)
    }

    /// Marks every module that has a process as being stopped, and tells the
    /// processes to signal.
    pub fn stop_modules(&mut self) -> (r: Vec<(String, u32)>)
        ensures
            final(self)@ == old(self)@.stop_all(),
            pairs(r@) == old(self)@.stop_all_signals(),
            forall|name: Seq<char>, pid: u32| #[trigger]
                pairs(r@).contains((name, pid)) <==> old(self)@.stop_signal(name) == Some(pid),
    {
        let module_names: Vec<String> = self.modules_pid.keys();
        let ghost names = texts(module_names@);
        let ghost first = self@;
        let ghost all = first.stop_all_signals();
        let mut signals: Vec<(String, u32)> = Vec::new();
        let mut i: usize = 0;
        assert(pairs(signals@) =~= all.take(0));
        while i < module_names.len()
            invariant
                i <= module_names.len(),
                names == texts(module_names@),
                names == key_list(first.pids.dom()),
                lists_keys(names, first.pids.dom()),
                all == first.stop_all_signals(),
                self@ == (ManagerModel { pending: self@.pending, ..first }),
                forall|k: Seq<char>| #[trigger]
                    self@.pending.contains_key(k) <==> first.pending.contains_key(k) || names.take(
                        i as int,
                    ).contains(k),
                forall|k: Seq<char>| #[trigger]
                    self@.pending.contains_key(k) ==> self@.pending[k] == (names.take(
                        i as int,
                    ).contains(k) || first.pending[k]),
                pairs(signals@) == all.take(i as int),
            decreases module_names.len() - i,
        {
            let ghost before = self@;
            let ghost sent = pairs(signals@);
            let name: String = module_names[i].clone();
            let stopped: Option<u32> = self.stop_module(name.as_str());
            proof {
                assert(names[i as int] == name@);
                assert(names.contains(name@));
                assert(first.pids.dom().contains(name@));
                assert(self@.pending == before.pending.insert(name@, true));
                let part = names.take(i as int);
                assert(names.take(i + 1) =~= part.push(name@));
                assert forall|k: Seq<char>| #[trigger] names.take(i + 1).contains(k)
                    <==> part.contains(k) || k == name@ by {
                    lemma_push_contains(part, name@, k);
                }
                assert(all.take(i + 1) =~= all.take(i as int).push(all[i as int]));
            }
            match stopped {
                Some(pid) => {
                    signals.push((name, pid));
                    assert(pairs(signals@) =~= sent.push((name@, pid)));
                },
                None => {},
            }
            i = i + 1;
        }
        proof {
            assert(names.take(names.len() as int) =~= names);
            assert(all.take(all.len() as int) =~= all);
            assert forall|k: Seq<char>| #[trigger] names.contains(k) <==> first.pids.contains_key(
                k,
            ) by {
                assert(names.contains(k) <==> first.pids.dom().contains(k));
            }
            assert(self@.pending =~= first.stop_all().pending);
            assert(self@ =~= first.stop_all());
            assert forall|name: Seq<char>, pid: u32| #[trigger]
                pairs(signals@).contains((name, pid)) <==> first.stop_signal(name) == Some(
                pid,
            ) by {
                first.lemma_signals(names, name, pid);
            }
        }
        signals
    }

    /// Decides on a click on a module in the menu: one that runs is stopped,
    /// any other is started with its default arguments.
    pub fn handle_system_click(&mut self, name: &str) -> (r: ClickDecision)
        ensures
            if old(self)@.is_running(name@) {
                &&& final(self)@ == old(self)@.stop(name@)
                &&& r@ == ClickModel::Stop(old(self)@.stop_signal(name@))
            } else {
                &&& final(self)@ == old(self)@
                &&& r@ == ClickModel::Start(old(self)@.start(name@, None))
            },
            (final(self)@, r@) == old(self)@.clicked(name@),
    {
        if self.is_module_running(name) {
            ClickDecision::Stop(self.stop_module(name))
        } else {
            ClickDecision::Start(self.start_module(name, None))
        }
    }
}

/// What a click on a module leads to.
#[derive(Debug)]
pub enum ClickDecision {
    /// Its process is signalled, if it has one.
    Stop(Option<u32>),
    Start(StartDecision),
}

/// A click as contracts speak of it.
pub enum ClickModel {
    Stop(Option<u32>),
    Start(StartModel),
}

impl View for ClickDecision {
    type V = ClickModel;

    open spec fn view(&self) -> ClickModel {
        match *self {
            ClickDecision::Stop(pid) => ClickModel::Stop(pid),
            ClickDecision::Start(decision) => ClickModel::Start(decision@),
        }
    }
}

/// The state stands as what its parts hold.
pub proof fn law_state_view(state: ManagerState, name: Seq<char>)
    ensures
        state@.running == state.modules_running@,
        state@.pids == state.modules_pid@,
        state@.restarts == state.modules_restart_count@,
        state@.pending == state.modules_pending_shutdown@,
        state@.menu_set == state.modules_menu_set,
        state@.discovered.contains_key(name) <==> state.modules_discovered@.contains_key(name),
        state.modules_discovered@.contains_key(name) ==> state@.discovered[name]
            == state.modules_discovered@[name]@,
        state@.args.contains_key(name) <==> state.modules_args@.contains_key(name),
        state.modules_args@.contains_key(name) ==> match state.modules_args@[name] {
            Some(v) => state@.args[name] == Some(texts(v@)),
            None => state@.args[name] is None,
        },
{
}

/// Decisions on starts and clicks stand as themselves, with what they hold.
pub proof fn law_decision_views(request: LaunchRequest, pid: Option<u32>, decision: StartDecision)
    ensures
        StartDecision::AlreadyRunning@ is AlreadyRunning,
        StartDecision::NotFound@ is NotFound,
        StartDecision::Launch(request)@ == StartModel::Launch(request@),
        ClickDecision::Stop(pid)@ == ClickModel::Stop(pid),
        ClickDecision::Start(decision)@ == ClickModel::Start(decision@),
{
}

} // verus!
