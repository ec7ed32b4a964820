//! Running the manager: its start, the messages of its modules, and what is
//! done about modules that crash.
use vstd::arithmetic::power2::{lemma2_to64, pow2};
use vstd::prelude::*;
use vstd::string::*;
use vstd::utf8::decode_utf8;

use crate::discovery::Platform;
use crate::launch::{clone_args, opt_texts, MessageModel, ModuleMessage};
use crate::menu::{entry_models, tray_menu, update_tray_menu, MenuEntry};
use crate::names::NameMap;
use crate::outside::{blank_words, is_shell_plain, shell_split, shell_words_of};
use crate::process::{
    are_utf8_locations, find_orphaned_module_processes, law_orphan_list_unique, listed,
    lists_orphans, locate_modules, locations, module_locations, orphan_list, pairs, reported, reports_utf8,
    utf8_module_locations, CommandOutput, ModuleLocation,
};
use crate::state::{
    path_models, CrashModel, ManagerModel, ManagerState, StartDecision, StartModel, RESTART_LIMIT,
};
use crate::sweep::{
    law_sweep_of_lasting_orphans, law_sweep_over_when_none_is_left, law_sweep_reaches, sweep_after, sweep_step, terminate_orphaned_module_processes,
    ActionModel, OrphanSweep, SweepAction, POLLS,
};
use crate::text::texts;

verus! {

/// Seconds to wait before a restart, the module having been restarted
/// `restart_count` times before.
pub open spec fn restart_delay(restart_count: u32) -> nat {
    pow2((restart_count + 1) as nat)
}

/// A restart that was decided on.
#[derive(Debug)]
pub struct PendingRestart {
    name: String,
    restart_count: u32,
}

impl PendingRestart {
    #[verifier::type_invariant]
    spec fn below_limit(self) -> bool {
        self.restart_count < RESTART_LIMIT
    }

    pub closed spec fn spec_name(self) -> Seq<char> {
        self.name@
    }

    pub closed spec fn spec_restart_count(self) -> u32 {
        self.restart_count
    }

    /// The module to restart.
    pub fn name(&self) -> (r: &str)
        ensures
            r@ == self.spec_name(),
    {
        self.name.as_str()
    }

    /// How often it was restarted before.
    pub fn restart_count(&self) -> (r: u32)
        ensures
            r == self.spec_restart_count(),
            r < RESTART_LIMIT,
    {
        proof {
            use_type_invariant(self);
        }
        self.restart_count
    }

    /// How many seconds to wait before the restart.
    pub fn delay_secs(&self) -> (r: u64)
        ensures
            r == restart_delay(self.spec_restart_count()),
    {
        proof {
            use_type_invariant(self);
            lemma2_to64();
        }
        if self.restart_count == 0 {
            2
        } else if self.restart_count == 1 {
            4
        } else {
            8
        }
    }

    /// What the user is told.
    pub fn notice(&self) -> (r: String)
        ensures
            r@ == self.spec_name() + " crashed. Restarting..."@,
            r@ == crash_notice(self.spec_name()),
    {
        self.name.clone().concat(" crashed. Restarting...")
    }
}

/// What the user is told when a module is given up.
pub fn give_up_notice(name: &str) -> (r: String)
    ensures
        r@ == name@ + " keeps on crashing. Restart limit reached."@,
        r@ == limit_notice(name@),
{
    name.to_owned().concat(" keeps on crashing. Restart limit reached.")
}

/// What a crash leads to.
#[derive(Debug)]
pub enum CrashDecision {
    /// Nothing: the module was to stop.
    Ignore,
    /// A restart after a pause.
    Restart(PendingRestart),
    /// The module is given up.
    GiveUp,
}

/// What a message to the manager leads to.
#[derive(Debug)]
pub struct Handled {
    /// The menu to show.
    pub menu: Vec<MenuEntry>,
    /// The module that ended with an error, if one did.
    pub crashed: Option<String>,
}

/// The module that a message reports to have ended with an error.
pub open spec fn crashed_in(message: MessageModel) -> Option<Seq<char>> {
    match message {
        MessageModel::Stopped { name, success } => if success {
            None
        } else {
            Some(name)
        },
        _ => None,
    }
}

/// A decision as contracts speak of it.
pub open spec fn crash_model(d: CrashDecision) -> CrashModel {
    match d {
        CrashDecision::Ignore => CrashModel::Ignore,
        CrashDecision::Restart(p) => CrashModel::Restart { restart_count: p.spec_restart_count() },
        CrashDecision::GiveUp => CrashModel::GiveUp,
    }
}

impl ManagerState {
    /// Decides what the crash of a module leads to.
    pub fn decide_restart(&self, name: &str) -> (r: CrashDecision)
        ensures
            crash_model(r) == self@.crash(name@),
            r is Restart ==> r->Restart_0.spec_name() == name@,
    {
        let restart_count: u32 = match self.modules_restart_count.get(name) {
            Some(n) => *n,
            None => 0,
        };
        let pending_shutdown: bool = match self.modules_pending_shutdown.get(name) {
            Some(b) => *b,
            None => false,
        };
        if pending_shutdown {
            return CrashDecision::Ignore;
        }
        if restart_count < RESTART_LIMIT {
            CrashDecision::Restart(PendingRestart { name: name.to_owned(), restart_count })
        } else {
            CrashDecision::GiveUp
        }
    }

    /// Ends the pause before a restart. If the user, who was told of the
    /// crash and asked about the restart, does not want it, nothing happens.
    /// Otherwise the restart is counted, and the module's start decided on
    /// with the arguments that it was last started with.
    pub fn restart(&mut self, decided: &PendingRestart, wanted: bool) -> (r: Option<StartDecision>)
        ensures
            match r {
                Some(decision) => {
                    &&& wanted
                    &&& final(self)@ == old(self)@.restarted(
                        decided.spec_name(),
                        decided.spec_restart_count(),
                    )
                    &&& decision@ == old(self)@.start(
                        decided.spec_name(),
                        old(self)@.stored_args(decided.spec_name()),
                    )
                },
                None => !wanted && final(self)@ == old(self)@,
            },
            (
                final(self)@,
                match r {
                    Some(decision) => Some(decision@),
                    None => None,
                },
            ) == old(self)@.resumed(decided.spec_name(), decided.spec_restart_count(), wanted),
    {
        if !wanted {
            return None;
        }
        let count: u32 = decided.restart_count() + 1;
        self.modules_restart_count.insert(decided.name(), count);
        assert(self@ =~= old(self)@.restarted(decided.spec_name(), decided.spec_restart_count()));
        let stored: Option<Vec<String>> = match self.modules_args.get(decided.name()) {
            Some(args) => clone_args(args),
            None => None,
        };
        Some(self.start_module(decided.name(), stored.as_ref()))
    }

    /// Marks a module as given up: its end leads to nothing until it has been
    /// started on request.
    pub fn give_up(&mut self, name: &str)
        ensures
            final(self)@ == old(self)@.give_up(name@),
    {
        self.modules_pending_shutdown.insert(name, true);
        assert(self@ =~= old(self)@.give_up(name@));
    }
}

/// Takes a message into the state, and tells the menu to show and the module
/// that crashed, if the message reports a crash.
pub fn handle(state: &mut ManagerState, message: ModuleMessage) -> (r: Handled)
    ensures
        final(state)@ == old(state)@.told(message@),
        entry_models(r.menu@) == tray_menu(
            old(state)@.told(message@).running,
            old(state)@.discovered.dom(),
        ),
        crashed_in(message@) == (match r.crashed {
            Some(name) => Some(name@),
            None => None,
        }),
{
    let crashed: Option<String> = match message {
        ModuleMessage::Started { name, pid, args } => {
            state.started_module(name.as_str(), pid, args);
            None
        },
        ModuleMessage::Stopped { name, success } => {
            state.stopped_module(name.as_str());
            if success {
                None
            } else {
                Some(name)
            }
        },
        ModuleMessage::Init => None,
    };
    let menu: Vec<MenuEntry> = update_tray_menu(&state.modules_running, &state.modules_discovered);
    assert(state.modules_discovered@.dom() =~= state@.discovered.dom());
    Handled { menu, crashed }
}

/// A module to start together with the manager, with its arguments in the
/// syntax of the shell.
#[derive(Debug)]
pub struct AutostartModule {
    pub name: String,
    pub args: String,
}

/// The arguments that a text in the syntax of the shell denotes, `words`
/// being what it splits into, if it can be split. An empty text stands for no
/// arguments of its own, one that cannot be split for an empty list.
pub open spec fn args_of(text: Seq<char>, words: Option<Seq<Seq<char>>>) -> Option<
    Seq<Seq<char>>,
> {
    if text.len() == 0 {
        None
    } else {
        match words {
            Some(w) => Some(w),
            None => Some(Seq::empty()),
        }
    }
}

/// The arguments that a text denotes, given the words it splits into.
pub fn args_from_words(text: &str, words: Option<Vec<String>>) -> (r: Option<Vec<String>>)
    ensures
        opt_texts(r) == args_of(text@, opt_texts(words)),
{
    if text.is_empty() {
        return None;
    }
    match words {
        Some(w) => Some(w),
        None => {
            let none: Vec<String> = Vec::new();
            assert(texts(none@) =~= Seq::empty());
            Some(none)
        },
    }
}

/// The arguments that a text denotes.
pub fn autostart_args(text: &str) -> (r: Option<Vec<String>>)
    ensures
        opt_texts(r) == args_of(text@, shell_split(text@)),
        is_shell_plain(text@) && text@.len() > 0 ==> opt_texts(r) == Some(blank_words(text@)),
{
    args_from_words(text, shell_words_of(text))
}

/// What the manager starts with.
pub struct Startup {
    pub state: ManagerState,
    /// What the start of each module to start leads to.
    pub decisions: Vec<StartDecision>,
    /// Whether the manager is to be told to show its menu.
    pub announce: bool,
}

/// A module to start together with the manager as contracts speak of it: its
/// name and its arguments in the syntax of the shell.
pub type AutostartModel = (Seq<char>, Seq<char>);

/// Several such modules as contracts speak of them.
pub open spec fn autostart_models(v: Seq<AutostartModule>) -> Seq<AutostartModel> {
    Seq::new(v.len(), |i: int| (v[i].name@, v[i].args@))
}

/// What the start of one module together with the manager leads to.
pub open spec fn autostart_decision(state: ManagerModel, module: AutostartModel) -> StartModel {
    state.start(module.0, args_of(module.1, shell_split(module.1)))
}

/// Whether `startup` is the start of a manager that knows the modules
/// `discovered`, has started none, and decides on the start of each module in
/// `autostart`, in this order.
pub open spec fn is_startup_of(
    startup: Startup,
    discovered: Map<Seq<char>, Seq<u8>>,
    autostart: Seq<AutostartModel>,
) -> bool {
    &&& startup.state@ == ManagerModel::initial(discovered)
    &&& startup.decisions@.len() == autostart.len()
    &&& forall|i: int|
        0 <= i < autostart.len() ==> (#[trigger] startup.decisions@[i])@ == autostart_decision(
            startup.state@,
            autostart[i],
        )
    &&& startup.announce == !startup.state@.menu_set
}

/// Whether arguments without quotes, backslashes and number signs are split at
/// their blanks in the decisions of a start.
pub open spec fn splits_at_blanks(startup: Startup, autostart: Seq<AutostartModel>) -> bool {
    forall|i: int|
        0 <= i < autostart.len() && is_shell_plain(autostart[i].1) && autostart[i].1.len() > 0
            ==> (#[trigger] startup.decisions@[i])@ == startup.state@.start(
            autostart[i].0,
            Some(blank_words(autostart[i].1)),
        )
}

/// Decides on the start of each module in `autostart`.
fn start_modules(discovered: NameMap<Vec<u8>>, autostart: &Vec<AutostartModule>) -> (r: Startup)
    ensures
        is_startup_of(r, path_models(discovered@), autostart_models(autostart@)),
        splits_at_blanks(r, autostart_models(autostart@)),
{
    let state: ManagerState = ManagerState::new(discovered);
    let ghost all = autostart_models(autostart@);
    let mut decisions: Vec<StartDecision> = Vec::new();
    let mut i: usize = 0;
    while i < autostart.len()
        invariant
            i <= autostart.len(),
            decisions.len() == i,
            all == autostart_models(autostart@),
            forall|j: int|
                0 <= j < i ==> (#[trigger] decisions@[j])@ == autostart_decision(state@, all[j]),
            forall|j: int|
                0 <= j < i && is_shell_plain(all[j].1) && all[j].1.len() > 0 ==> (
                #[trigger] decisions@[j])@ == state@.start(
                    all[j].0,
                    Some(blank_words(all[j].1)),
                ),
        decreases autostart.len() - i,
    {
        let args: Option<Vec<String>> = autostart_args(autostart[i].args.as_str());
        let decision: StartDecision = state.start_module(autostart[i].name.as_str(), args.as_ref());
        assert(all[i as int] == (autostart@[i as int].name@, autostart@[i as int].args@));
        decisions.push(decision);
        i = i + 1;
    }
    let announce: bool = !state.modules_menu_set;
    Startup { state, decisions, announce }
}

/// A manager about to start: the modules it knows, those it is to start, and
/// how far ending the processes left over from an earlier run has come.
pub struct Starting {
    discovered: NameMap<Vec<u8>>,
    autostart: Vec<AutostartModule>,
    sweep: OrphanSweep,
}

/// A manager about to start as contracts speak of it.
#[verifier::ext_equal]
pub struct StartingModel {
    pub discovered: Map<Seq<char>, Seq<u8>>,
    pub autostart: Seq<AutostartModel>,
    pub sweep: OrphanSweep,
}

impl View for Starting {
    type V = StartingModel;

    closed spec fn view(&self) -> StartingModel {
        StartingModel {
            discovered: path_models(self.discovered@),
            autostart: autostart_models(self.autostart@),
            sweep: self.sweep,
        }
    }
}

impl Starting {
    /// A manager that knows the modules `discovered` and is to start those in
    /// `autostart`. On Windows, where modules end together with the manager,
    /// nothing is left over.
    pub fn new(
        platform: Platform,
        discovered: NameMap<Vec<u8>>,
        autostart: Vec<AutostartModule>,
    ) -> (r: Starting)
        ensures
            r@ == (StartingModel {
                discovered: path_models(discovered@),
                autostart: autostart_models(autostart@),
                sweep: match platform {
                    Platform::Unix => OrphanSweep::Fresh,
                    Platform::Windows => OrphanSweep::Done,
                },
            }),
            r@.sweep == starting_on(platform),
    {
        let sweep: OrphanSweep = match platform {
            Platform::Unix => OrphanSweep::Fresh,
            Platform::Windows => OrphanSweep::Done,
        };
        Starting { discovered, autostart, sweep }
    }

    /// The modules that the manager knows.
    pub fn discovered(&self) -> (r: &NameMap<Vec<u8>>)
        ensures
            path_models(r@) == self@.discovered,
    {
        &self.discovered
    }
}

/// A look at the processes of the system.
pub struct ProcessLook {
    /// What the command that lists them left behind.
    pub listing: Option<CommandOutput>,
    /// The process of the manager.
    pub current_pid: u32,
    /// The paths of the programs of modules with all links resolved, where the
    /// file system gives one.
    pub canonical: NameMap<Vec<u8>>,
}

/// The processes of known modules that a look shows to be left over.
pub open spec fn left_over(
    discovered: Map<Seq<char>, Seq<u8>>,
    look: ProcessLook,
) -> Seq<(Seq<char>, u32)> {
    orphan_list(
        reported(look.listing),
        look.current_pid,
        module_locations(discovered, path_models(look.canonical@)),
    )
}

/// The same where the listing and all paths are valid UTF-8.
pub open spec fn utf8_left_over(
    discovered: Map<Seq<char>, Seq<u8>>,
    look: ProcessLook,
) -> Seq<(Seq<char>, u32)> {
    orphan_list(
        listed(decode_utf8(look.listing->0.stdout@)),
        look.current_pid,
        utf8_module_locations(discovered, path_models(look.canonical@)),
    )
}

/// What comes next when a manager is about to start.
pub enum StartStep {
    /// Doing this about the processes left over, and looking again.
    Sweep { action: SweepAction, starting: Starting },
    /// Doing this about the processes left over, and then starting.
    Start { action: SweepAction, startup: Startup },
}

/// Brings the start of the manager one step further, given a look at the
/// processes of the system. No module is started before ending the processes
/// left over from an earlier run is done.
pub fn start_manager(starting: Starting, look: &ProcessLook) -> (r: StartStep)
    ensures
        ({
            let (sweep, todo) = sweep_step(
                starting@.sweep,
                left_over(starting@.discovered, *look),
            );
            match r {
                StartStep::Sweep { action, starting: next } => {
                    &&& !(sweep is Done)
                    &&& action@ == todo
                    &&& next@ == (StartingModel { sweep, ..starting@ })
                },
                StartStep::Start { action, startup } => {
                    &&& sweep is Done
                    &&& action@ == todo
                    &&& is_startup_of(startup, starting@.discovered, starting@.autostart)
                    &&& splits_at_blanks(startup, starting@.autostart)
                },
            }
        }),
        r is Start <==> may_start(starting@, left_over(starting@.discovered, *look)),
        reports_utf8(look.listing) && are_utf8_locations(
            starting@.discovered,
            path_models(look.canonical@),
        ) ==> left_over(starting@.discovered, *look) == utf8_left_over(starting@.discovered, *look),
        lists_orphans(
            left_over(starting@.discovered, *look),
            reported(look.listing),
            look.current_pid,
            module_locations(starting@.discovered, path_models(look.canonical@)),
        ),
{
    let places: NameMap<ModuleLocation> = locate_modules(&starting.discovered, &look.canonical);
    let seen: Vec<(String, u32)> = find_orphaned_module_processes(
        &look.listing,
        look.current_pid,
        &places,
    );
    proof {
        let found = pairs(seen@);
        let all = reported(look.listing);
        let modules = locations(places@);
        law_orphan_list_unique(
            found,
            orphan_list(all, look.current_pid, modules),
            all,
            look.current_pid,
            modules,
        );
        if reports_utf8(look.listing) {
            let text = listed(decode_utf8(look.listing->0.stdout@));
            law_orphan_list_unique(
                found,
                orphan_list(text, look.current_pid, modules),
                text,
                look.current_pid,
                modules,
            );
        }
    }
    let (sweep, action) = terminate_orphaned_module_processes(starting.sweep, seen);
    match sweep {
        OrphanSweep::Done => StartStep::Start {
            action,
            startup: start_modules(starting.discovered, &starting.autostart),
        },
        _ => StartStep::Sweep {
            action,
            starting: Starting {
                discovered: starting.discovered,
                autostart: starting.autostart,
                sweep,
            },
        },
    }
}

/// The state of a manager about to start after a series of looks that showed
/// the given processes to be left over.
pub open spec fn after_looks(
    starting: StartingModel,
    looks: Seq<Seq<(Seq<char>, u32)>>,
) -> StartingModel
    decreases looks.len(),
{
    if looks.len() == 0 {
        starting
    } else {
        let before = after_looks(starting, looks.drop_last());
        StartingModel { sweep: sweep_step(before.sweep, looks.last()).0, ..before }
    }
}

/// Processes left over from an earlier run are ended before the first module
/// is started: at the look that lets the manager start, either none was left,
/// or those left had outlived every pause and are ended by force. If the first
/// look shows any, they are asked to end then, and the manager waits.
pub proof fn law_left_over_ended_before_start(
    starting: StartingModel,
    looks: Seq<Seq<(Seq<char>, u32)>>,
    seen: Seq<(Seq<char>, u32)>,
)
    requires
        starting.sweep is Fresh,
        !(after_looks(starting, looks).sweep is Done),
        sweep_step(after_looks(starting, looks).sweep, seen).0 is Done,
    ensures
        ({
            let (_, action) = sweep_step(after_looks(starting, looks).sweep, seen);
            ||| seen.len() == 0 && action is Finish
            ||| looks.len() == POLLS + 1 && action == ActionModel::Kill(seen)
        }),
        looks.len() > 0 ==> sweep_step(starting.sweep, looks[0]).1
            == ActionModel::TerminateAndWait(looks[0]),
{
    lemma_after_looks(starting, looks);
    law_sweep_over_when_none_is_left(looks, seen);
}

proof fn lemma_after_looks(starting: StartingModel, looks: Seq<Seq<(Seq<char>, u32)>>)
    requires
        starting.sweep is Fresh,
    ensures
        after_looks(starting, looks) == (StartingModel { sweep: sweep_after(looks), ..starting }),
    decreases looks.len(),
{
    if looks.len() > 0 {
        lemma_after_looks(starting, looks.drop_last());
    }
}

/// An empty text stands for no arguments of its own; any other for the words it
/// splits into, all of them in their order, or for none if it cannot be split.
pub proof fn law_arguments(text: Seq<char>, words: Seq<Seq<char>>, i: int)
    ensures
        text.len() == 0 ==> args_of(text, Some(words)) is None && args_of(text, None) is None,
        text.len() > 0 ==> {
            &&& args_of(text, Some(words)) is Some
            &&& args_of(text, Some(words))->0.len() == words.len()
            &&& 0 <= i < words.len() ==> args_of(text, Some(words))->0[i] == words[i]
            &&& args_of(text, None) is Some
            &&& args_of(text, None)->0.len() == 0
        },
{
}

/// Every module that is to be started with the manager is decided on, in its
/// place: it is launched exactly if it is known, under its name, with the
/// program it was found with and the words of its arguments. None of them
/// keeps another from being started, and the menu is announced.
pub proof fn law_autostart(
    startup: Startup,
    discovered: Map<Seq<char>, Seq<u8>>,
    autostart: Seq<AutostartModel>,
    i: int,
)
    requires
        is_startup_of(startup, discovered, autostart),
        0 <= i < autostart.len(),
    ensures
        startup.decisions@.len() == autostart.len(),
        startup.decisions@[i]@ is Launch <==> discovered.contains_key(autostart[i].0),
        startup.decisions@[i]@ is NotFound <==> !discovered.contains_key(autostart[i].0),
        startup.decisions@[i]@ is Launch ==> {
            let request = startup.decisions@[i]@->Launch_0;
            &&& request.name == autostart[i].0
            &&& request.path == discovered[autostart[i].0]
            &&& autostart[i].1.len() == 0 ==> request.args is None
            &&& autostart[i].1.len() > 0 ==> request.args is Some
            &&& autostart[i].1.len() > 0 && shell_split(autostart[i].1) is Some ==> request.args
                == shell_split(autostart[i].1)
            &&& autostart[i].1.len() > 0 && shell_split(autostart[i].1) is None
                ==> request.args->0.len() == 0
        },
        startup.announce,
        startup.state@.discovered == discovered,
        startup.state@.running.dom() =~= Set::empty(),
{
}

/// A decision about a crash stands as itself, with the count of a restart.
pub proof fn law_crash_model(d: CrashDecision)
    ensures
        crash_model(d) is Ignore <==> d is Ignore,
        crash_model(d) is GiveUp <==> d is GiveUp,
        crash_model(d) is Restart <==> d is Restart,
        d is Restart ==> crash_model(d)->restart_count == d->Restart_0.spec_restart_count(),
{
}

/// Modules to start stand as their names and arguments, one for one.
pub proof fn law_autostart_view(v: Seq<AutostartModule>)
    ensures
        autostart_models(v).len() == v.len(),
        forall|i: int|
            0 <= i < v.len() ==> (#[trigger] autostart_models(v)[i]).0 == v[i].name@
                && autostart_models(v)[i].1 == v[i].args@,
{
}

/// What the user is told when a module crashed and is restarted.
pub open spec fn crash_notice(name: Seq<char>) -> Seq<char> {
    name + " crashed. Restarting..."@
}

/// What the user is told when a module is given up.
pub open spec fn limit_notice(name: Seq<char>) -> Seq<char> {
    name + " keeps on crashing. Restart limit reached."@
}

/// What the user is told starts with the whole name of the module, and goes on
/// with the same words for every module.
pub proof fn law_notices_name_the_module(name: Seq<char>)
    ensures
        crash_notice(name).take(name.len() as int) == name,
        crash_notice(name).skip(name.len() as int) == " crashed. Restarting..."@,
        limit_notice(name).take(name.len() as int) == name,
        limit_notice(name).skip(name.len() as int)
            == " keeps on crashing. Restart limit reached."@,
{
    assert(crash_notice(name).take(name.len() as int) =~= name);
    assert(crash_notice(name).skip(name.len() as int) =~= " crashed. Restarting..."@);
    assert(limit_notice(name).take(name.len() as int) =~= name);
    assert(limit_notice(name).skip(name.len() as int)
        =~= " keeps on crashing. Restart limit reached."@);
}

/// Whether a look that shows the processes `seen` to be left over lets the
/// manager start.
pub open spec fn may_start(starting: StartingModel, seen: Seq<(Seq<char>, u32)>) -> bool {
    sweep_step(starting.sweep, seen).0 is Done
}

/// The manager starts at a look that shows nothing left over, or at the one
/// after all pauses; as long as something is left over before that, it does
/// not. Where nothing is swept it starts at once.
pub proof fn law_start_waits_for_sweep(
    starting: StartingModel,
    looks: Seq<Seq<(Seq<char>, u32)>>,
    seen: Seq<(Seq<char>, u32)>,
)
    requires
        starting.sweep is Fresh,
        forall|i: int| 0 <= i < looks.len() ==> (#[trigger] looks[i]).len() > 0,
        looks.len() <= 21,
    ensures
        may_start(after_looks(starting, looks), seen) <==> looks.len() == 21 || seen.len() == 0,
        starting_on(Platform::Unix) is Fresh,
        starting_on(Platform::Windows) is Done,
        may_start(StartingModel { sweep: starting_on(Platform::Windows), ..starting }, seen),
{
    lemma_after_looks(starting, looks);
    if seen.len() > 0 {
        law_sweep_of_lasting_orphans(looks, seen);
    }
    law_sweep_reaches(looks, seen);
}

/// How far ending the processes left over has come at first.
pub open spec fn starting_on(platform: Platform) -> OrphanSweep {
    match platform {
        Platform::Unix => OrphanSweep::Fresh,
        Platform::Windows => OrphanSweep::Done,
    }
}

} // verus!
