//! Launching a module: which handler runs it, with which arguments, and what
//! becomes of it when its process fails to start or ends.
use vstd::prelude::*;
use vstd::string::*;
use vstd::utf8::{decode_utf8, encode_utf8, valid_utf8};

use crate::outside::{lossy_text, text_from_bytes};
use crate::paths::{clone_bytes, join, join_path, opt_bytes};
use crate::text::{
    clone_texts, contains_text, decimal, decimal_text, law_decimal_reads_back, law_occurs, law_texts,
    occurs_in, same_text, texts, u32_value,
};

verus! {

/// The port of the server that modules assume unless told otherwise.
pub const DEFAULT_PORT: u16 = 5600;

/// The handlers of modules.
#[derive(Clone, Copy, Debug, PartialEq, Eq, Structural)]
pub enum ModuleKind {
    /// Only started and waited for.
    Generic,
    /// Prints notifications, which the manager shows.
    Notify,
    /// Prints dialog events and takes commands.
    OdooSync,
}

/// The handler of the module `name`.
pub open spec fn kind_of(name: Seq<char>) -> ModuleKind {
    if name == "aw-notify"@ {
        ModuleKind::Notify
    } else if name == "aw-odoo-sync"@ {
        ModuleKind::OdooSync
    } else {
        ModuleKind::Generic
    }
}

/// Optional arguments as contracts speak of them.
pub open spec fn opt_texts(args: Option<Vec<String>>) -> Option<Seq<Seq<char>>> {
    match args {
        Some(v) => Some(texts(v@)),
        None => None,
    }
}

/// A module that is to be launched.
#[derive(Debug)]
pub struct LaunchRequest {
    pub name: String,
    pub path: Vec<u8>,
    /// Arguments in place of the default ones.
    pub args: Option<Vec<String>>,
    pub kind: ModuleKind,
}

/// A launch as contracts speak of it.
#[verifier::ext_equal]
pub struct LaunchModel {
    pub name: Seq<char>,
    pub path: Seq<u8>,
    pub args: Option<Seq<Seq<char>>>,
    pub kind: ModuleKind,
}

impl View for LaunchRequest {
    type V = LaunchModel;

    open spec fn view(&self) -> LaunchModel {
        LaunchModel {
            name: self.name@,
            path: self.path@,
            args: opt_texts(self.args),
            kind: self.kind,
        }
    }
}

/// Copies optional arguments.
pub fn clone_args(args: &Option<Vec<String>>) -> (r: Option<Vec<String>>)
    ensures
        opt_texts(r) == opt_texts(*args),
{
    match args {
        Some(v) => Some(clone_texts(v)),
        None => None,
    }
}

/// Requests the launch of a module by the handler that its name selects.
pub fn start_module_thread(
    name: String,
    path: Vec<u8>,
    custom_args: Option<Vec<String>>,
) -> (r: LaunchRequest)
    ensures
        r@ == (LaunchModel {
            name: name@,
            path: path@,
            args: opt_texts(custom_args),
            kind: kind_of(name@),
        }),
{
    let kind: ModuleKind = if same_text(name.as_str(), "aw-notify") {
        ModuleKind::Notify
    } else if same_text(name.as_str(), "aw-odoo-sync") {
        ModuleKind::OdooSync
    } else {
        ModuleKind::Generic
    };
    LaunchRequest { name, path, args: custom_args, kind }
}

/// A variable in the environment of a process.
#[derive(Debug)]
pub struct EnvVar {
    pub key: String,
    pub value: Vec<u8>,
}

/// Variables as contracts speak of them.
pub open spec fn env_models(v: Seq<EnvVar>) -> Seq<(Seq<char>, Seq<u8>)> {
    Seq::new(v.len(), |i: int| (v[i].key@, v[i].value@))
}

/// The variables that tell a module where to log: the directory of all logs
/// and its own directory.
pub open spec fn log_variables(root: Seq<u8>, own: Seq<u8>) -> Seq<(Seq<char>, Seq<u8>)> {
    seq![("AW_LOG_ROOT"@, root), ("AW_LOG_DIR"@, own)]
}

/// The variables to set for a module on Unix: its own directory is the one of
/// its name below the directory of all logs. None are set if there is no
/// such directory.
pub open spec fn environment(log_root: Option<Seq<u8>>, name: Seq<char>) -> Seq<
    (Seq<char>, Seq<u8>),
> {
    match log_root {
        Some(root) => log_variables(root, join(root, encode_utf8(name))),
        None => Seq::empty(),
    }
}

/// The variables that tell a module where to log.
fn log_variables_of(root: &Vec<u8>, own: Vec<u8>) -> (r: Vec<EnvVar>)
    ensures
        env_models(r@) == log_variables(root@, own@),
{
    let mut vars: Vec<EnvVar> = Vec::new();
    vars.push(EnvVar { key: "AW_LOG_ROOT".to_owned(), value: clone_bytes(root) });
    vars.push(EnvVar { key: "AW_LOG_DIR".to_owned(), value: own });
    assert(env_models(vars@) =~= log_variables(root@, own@));
    vars
}

/// A directory of all logs and the directory of one module below it, as
/// Windows joins them.
pub struct LogDirectories {
    pub root: Vec<u8>,
    pub own: Vec<u8>,
}

/// The variables to set for a module on Windows, where the system joins paths.
/// None are set if there is no directory of all logs.
pub fn apply_windows_module_environment(logs: &Option<LogDirectories>) -> (r: Vec<EnvVar>)
    ensures
        env_models(r@) == (match *logs {
            Some(l) => log_variables(l.root@, l.own@),
            None => Seq::empty(),
        }),
{
    match logs {
        Some(l) => log_variables_of(&l.root, clone_bytes(&l.own)),
        None => {
            let none: Vec<EnvVar> = Vec::new();
            assert(env_models(none@) =~= Seq::empty());
            none
        },
    }
}

/// The variables to set for a module on Unix.
pub fn apply_module_environment(log_root: &Option<Vec<u8>>, name: &str) -> (r: Vec<EnvVar>)
    ensures
        env_models(r@) == environment(opt_bytes(*log_root), name@),
{
    match log_root {
        Some(root) => log_variables_of(root, join_path(root, name.as_bytes())),
        None => {
            let none: Vec<EnvVar> = Vec::new();
            assert(env_models(none@) =~= Seq::empty());
            none
        },
    }
}

/// How a process is started and what is reported of it.
#[derive(Debug)]
pub struct LaunchPlan {
    /// The arguments on its command line.
    pub args: Vec<String>,
    /// The arguments in the report that it started.
    pub reported_args: Option<Vec<String>>,
    /// Whether the manager keeps a pipe to its standard input.
    pub pipe_stdin: bool,
}

/// A plan as contracts speak of it.
#[verifier::ext_equal]
pub struct PlanModel {
    pub args: Seq<Seq<char>>,
    pub reported_args: Option<Seq<Seq<char>>>,
    pub pipe_stdin: bool,
}

impl View for LaunchPlan {
    type V = PlanModel;

    open spec fn view(&self) -> PlanModel {
        PlanModel {
            args: texts(self.args@),
            reported_args: opt_texts(self.reported_args),
            pipe_stdin: self.pipe_stdin,
        }
    }
}

/// The arguments that tell a module the port, if it is not the default one.
pub open spec fn port_args(port: u16) -> Seq<Seq<char>> {
    if port == DEFAULT_PORT {
        Seq::empty()
    } else {
        seq!["--port"@, decimal(port as nat)]
    }
}

/// The arguments of a generic module: its own if it has any set, the port
/// otherwise.
pub open spec fn generic_args(custom: Option<Seq<Seq<char>>>, port: u16) -> Seq<Seq<char>> {
    match custom {
        Some(args) => args,
        None => port_args(port),
    }
}

/// The arguments of the notification module: print only, then the port,
/// then its own.
pub open spec fn notify_args(custom: Option<Seq<Seq<char>>>, port: u16) -> Seq<Seq<char>> {
    seq!["--output-only"@] + port_args(port) + (match custom {
        Some(args) => args,
        None => Seq::empty(),
    })
}

/// The plan for a launch.
pub open spec fn plan_of(request: LaunchModel, port: u16) -> PlanModel {
    match request.kind {
        ModuleKind::Generic => PlanModel {
            args: generic_args(request.args, port),
            reported_args: request.args,
            pipe_stdin: false,
        },
        ModuleKind::OdooSync => PlanModel {
            args: generic_args(request.args, port),
            reported_args: request.args,
            pipe_stdin: true,
        },
        ModuleKind::Notify => PlanModel {
            args: notify_args(request.args, port),
            reported_args: Some(notify_args(request.args, port)),
            pipe_stdin: false,
        },
    }
}

fn push_port_args(args: &mut Vec<String>, port: u16)
    ensures
        texts(final(args)@) == texts(old(args)@) + port_args(port),
{
    if port != DEFAULT_PORT {
        args.push("--port".to_owned());
        args.push(decimal_text(port as u32));
    }
    assert(texts(args@) =~= texts(old(args)@) + port_args(port));
}

/// The arguments of a generic module.
fn generic_arguments(custom_args: &Option<Vec<String>>, port: u16) -> (r: Vec<String>)
    ensures
        texts(r@) == generic_args(opt_texts(*custom_args), port),
{
    match custom_args {
        Some(args) => clone_texts(args),
        None => {
            let mut args: Vec<String> = Vec::new();
            push_port_args(&mut args, port);
            assert(texts(args@) =~= port_args(port));
            args
        },
    }
}

/// Plans the launch of a module that is only started and waited for.
pub fn start_generic_module_thread(custom_args: &Option<Vec<String>>, port: u16) -> (r: LaunchPlan)
    ensures
        r@ == (PlanModel {
            args: generic_args(opt_texts(*custom_args), port),
            reported_args: opt_texts(*custom_args),
            pipe_stdin: false,
        }),
{
    LaunchPlan {
        args: generic_arguments(custom_args, port),
        reported_args: clone_args(custom_args),
        pipe_stdin: false,
    }
}

/// Plans the launch of the synchronisation module, which takes commands.
pub fn start_odoo_sync_module_thread(
    custom_args: &Option<Vec<String>>,
    port: u16,
) -> (r: LaunchPlan)
    ensures
        r@ == (PlanModel {
            args: generic_args(opt_texts(*custom_args), port),
            reported_args: opt_texts(*custom_args),
            pipe_stdin: true,
        }),
{
    LaunchPlan {
        args: generic_arguments(custom_args, port),
        reported_args: clone_args(custom_args),
        pipe_stdin: true,
    }
}

/// Plans the launch of the notification module, which only prints.
pub fn start_notify_module_thread(custom_args: &Option<Vec<String>>, port: u16) -> (r: LaunchPlan)
    ensures
        r@ == (PlanModel {
            args: notify_args(opt_texts(*custom_args), port),
            reported_args: Some(notify_args(opt_texts(*custom_args), port)),
            pipe_stdin: false,
        }),
{
    let mut args: Vec<String> = Vec::new();
    args.push("--output-only".to_owned());
    push_port_args(&mut args, port);
    let ghost head = texts(args@);
    assert(head =~= seq!["--output-only"@] + port_args(port));
    match custom_args {
        Some(custom) => {
            let mut own: Vec<String> = clone_texts(custom);
            let ghost tail = texts(own@);
            args.append(&mut own);
            assert(texts(args@) =~= head + tail);
        },
        None => {
            assert(head =~= head + Seq::<Seq<char>>::empty());
        },
    }
    let reported: Vec<String> = clone_texts(&args);
    LaunchPlan { args, reported_args: Some(reported), pipe_stdin: false }
}

/// Plans a launch by the handler of the module.
pub fn plan_launch(request: &LaunchRequest, port: u16) -> (r: LaunchPlan)
    ensures
        r@ == plan_of(request@, port),
        !(request.kind is Notify) && request.args is Some ==> {
            &&& r.args@.len() == request.args->0@.len()
            &&& forall|i: int|
                0 <= i < r.args@.len() ==> (#[trigger] r.args@[i])@ == request.args->0@[i]@
        },
{
    let plan: LaunchPlan = match request.kind {
        ModuleKind::Generic => start_generic_module_thread(&request.args, port),
        ModuleKind::OdooSync => start_odoo_sync_module_thread(&request.args, port),
        ModuleKind::Notify => start_notify_module_thread(&request.args, port),
    };
    proof {
        if !(request.kind is Notify) && request.args is Some {
            let own = request.args->0@;
            law_texts(own);
            law_texts(plan.args@);
            law_own_arguments_used(request@, port, texts(own), 0);
            assert forall|i: int| 0 <= i < plan.args@.len() implies (#[trigger] plan.args@[i])@
                == own[i]@ by {
                law_own_arguments_used(request@, port, texts(own), i);
                assert(texts(plan.args@)[i] == texts(own)[i]);
            }
        }
    }
    plan
}

/// What a module's handler tells the manager.
#[derive(Debug)]
pub enum ModuleMessage {
    Started { name: String, pid: u32, args: Option<Vec<String>> },
    Stopped { name: String, success: bool },
    Init,
}

/// A message as contracts speak of it.
pub enum MessageModel {
    Started { name: Seq<char>, pid: u32, args: Option<Seq<Seq<char>>> },
    Stopped { name: Seq<char>, success: bool },
    Init,
}

impl View for ModuleMessage {
    type V = MessageModel;

    open spec fn view(&self) -> MessageModel {
        match *self {
            ModuleMessage::Started { name, pid, args } => MessageModel::Started {
                name: name@,
                pid,
                args: opt_texts(args),
            },
            ModuleMessage::Stopped { name, success } => MessageModel::Stopped {
                name: name@,
                success,
            },
            ModuleMessage::Init => MessageModel::Init,
        }
    }
}

/// The report that a process was started.
pub fn report_started(request: &LaunchRequest, plan: &LaunchPlan, pid: u32) -> (r: ModuleMessage)
    ensures
        r@ == (MessageModel::Started { name: request@.name, pid, args: plan@.reported_args }),
{
    ModuleMessage::Started {
        name: request.name.clone(),
        pid,
        args: clone_args(&plan.reported_args),
    }
}

/// What a notification module without the print-only mode complains of.
pub open spec fn lacks_output_only(complaint: Seq<char>) -> bool {
    occurs_in("No such option: --output-only"@, complaint)
}

/// The same launch by the generic handler.
pub open spec fn as_generic(request: LaunchModel) -> LaunchModel {
    LaunchModel { kind: ModuleKind::Generic, ..request }
}

fn generic_copy(request: &LaunchRequest) -> (r: LaunchRequest)
    ensures
        r@ == as_generic(request@),
{
    LaunchRequest {
        name: request.name.clone(),
        path: clone_bytes(&request.path),
        args: clone_args(&request.args),
        kind: ModuleKind::Generic,
    }
}

/// The launch to try in place of one whose process did not start: the
/// generic one if the notification module does not know the print-only
/// mode, and none otherwise.
pub fn after_spawn_error(request: &LaunchRequest, error: &str) -> (r: Option<LaunchRequest>)
    ensures
        match r {
            Some(next) => request@.kind is Notify && lacks_output_only(error@) && next@
                == as_generic(request@),
            None => !(request@.kind is Notify && lacks_output_only(error@)),
        },
{
    let is_notify: bool = match request.kind {
        ModuleKind::Notify => true,
        _ => false,
    };
    if is_notify && contains_text(error, "No such option: --output-only") {
        Some(generic_copy(request))
    } else {
        None
    }
}

/// What follows the end of a module's process.
#[derive(Debug)]
pub enum ExitOutcome {
    /// Launch it again in this way.
    Relaunch(LaunchRequest),
    /// Report this to the manager.
    Report(ModuleMessage),
}

/// An outcome as contracts speak of it.
pub enum ExitModel {
    Relaunch(LaunchModel),
    Report(MessageModel),
}

impl View for ExitOutcome {
    type V = ExitModel;

    open spec fn view(&self) -> ExitModel {
        match *self {
            ExitOutcome::Relaunch(request) => ExitModel::Relaunch(request@),
            ExitOutcome::Report(message) => ExitModel::Report(message@),
        }
    }
}

/// What follows the end of a process with an exit code (none if a signal
/// ended it) and the text on its standard error. A notification module that
/// exits with code 2 and complains of the print-only mode is launched as a
/// generic one; of any other the end is reported, code 0 being a success.
pub open spec fn exit_of(
    request: LaunchModel,
    code: Option<i32>,
    stderr: Seq<char>,
) -> ExitModel {
    if request.kind is Notify && code == Some(2i32) && lacks_output_only(stderr) {
        ExitModel::Relaunch(as_generic(request))
    } else {
        ExitModel::Report(
            MessageModel::Stopped { name: request.name, success: code == Some(0i32) },
        )
    }
}

/// Decides what follows the end of a process that left a text on its
/// standard error.
pub fn after_exit_text(request: &LaunchRequest, code: Option<i32>, stderr: &str) -> (r: ExitOutcome)
    ensures
        r@ == exit_of(request@, code, stderr@),
{
    let is_notify: bool = match request.kind {
        ModuleKind::Notify => true,
        _ => false,
    };
    let usage_error: bool = match code {
        Some(c) => c == 2,
        None => false,
    };
    let success: bool = match code {
        Some(c) => c == 0,
        None => false,
    };
    if is_notify && usage_error && contains_text(stderr, "No such option: --output-only") {
        ExitOutcome::Relaunch(generic_copy(request))
    } else {
        ExitOutcome::Report(ModuleMessage::Stopped { name: request.name.clone(), success })
    }
}

/// Decides what follows the end of a process.
pub fn after_exit(request: &LaunchRequest, code: Option<i32>, stderr: &Vec<u8>) -> (r: ExitOutcome)
    ensures
        r@ == exit_of(request@, code, lossy_text(stderr@)),
        valid_utf8(stderr@) ==> r@ == exit_of(request@, code, decode_utf8(stderr@)),
{
    let text: String = text_from_bytes(stderr);
    after_exit_text(request, code, text.as_str())
}

/// A process that ended is launched again at most once: the launch that
/// takes its place keeps its name, program and arguments, and its own end is
/// always reported.
pub proof fn law_relaunch_once(
    request: LaunchModel,
    code: Option<i32>,
    stderr: Seq<char>,
    next: LaunchModel,
    next_code: Option<i32>,
    next_stderr: Seq<char>,
)
    requires
        exit_of(request, code, stderr) == ExitModel::Relaunch(next),
    ensures
        next.name == request.name,
        next.path == request.path,
        next.args == request.args,
        exit_of(next, next_code, next_stderr) == ExitModel::Report(
            MessageModel::Stopped { name: request.name, success: next_code == Some(0i32) },
        ),
{
}

/// The arguments reported for a module, set as its own, give the same
/// command line again, unless it is the notification module.
pub proof fn law_reported_args_restart(request: LaunchModel, port: u16)
    requires
        !(request.kind is Notify),
    ensures
        plan_of(LaunchModel { args: plan_of(request, port).reported_args, ..request }, port)
            == plan_of(request, port),
{
}

/// The arguments reported for the notification module, set as its own, are
/// put behind the print-only flag and the port again.
pub proof fn law_reported_args_restart_notify(request: LaunchModel, port: u16)
    requires
        request.kind is Notify,
    ensures
        plan_of(LaunchModel { args: plan_of(request, port).reported_args, ..request }, port).args
            == seq!["--output-only"@] + port_args(port) + plan_of(request, port).args,
{
}

/// The notification module and the synchronisation module, and no other, have
/// handlers of their own.
pub proof fn law_handler_by_name(name: Seq<char>)
    ensures
        kind_of(name) is Notify <==> name == "aw-notify"@,
        kind_of(name) is OdooSync <==> name == "aw-odoo-sync"@,
        kind_of(name) is Generic <==> name != "aw-notify"@ && name != "aw-odoo-sync"@,
{
    reveal_strlit("aw-notify");
    reveal_strlit("aw-odoo-sync");
    assert("aw-notify"@.len() != "aw-odoo-sync"@.len());
}

/// A module other than the notification module that has arguments of its own
/// is started with just these: as many, and the same one at each place. They
/// are also what is reported.
pub proof fn law_own_arguments_used(request: LaunchModel, port: u16, own: Seq<Seq<char>>, i: int)
    requires
        !(request.kind is Notify),
        request.args == Some(own),
    ensures
        plan_of(request, port).args.len() == own.len(),
        0 <= i < own.len() ==> plan_of(request, port).args[i] == own[i],
        plan_of(request, port).reported_args is Some,
        plan_of(request, port).reported_args->0.len() == own.len(),
        0 <= i < own.len() ==> plan_of(request, port).reported_args->0[i] == own[i],
{
}

/// A module other than the notification module without arguments of its own is
/// told the port of the server, unless it is the one that modules assume; no
/// arguments are reported for it.
pub proof fn law_port_told(request: LaunchModel, port: u16)
    requires
        !(request.kind is Notify),
        request.args is None,
    ensures
        port == 5600 ==> plan_of(request, port).args.len() == 0,
        port != 5600 ==> {
            &&& plan_of(request, port).args.len() == 2
            &&& plan_of(request, port).args[0] == "--port"@
            &&& u32_value(plan_of(request, port).args[1]) == Some(port as u32)
        },
        plan_of(request, port).reported_args is None,
{
    law_decimal_reads_back(port as u32);
}

/// The notification module is told to print only, then the port of the server
/// unless it is the one that modules assume, and then its own arguments, all of
/// them in their order; all this is reported.
pub proof fn law_notify_arguments(request: LaunchModel, port: u16, i: int)
    requires
        request.kind is Notify,
    ensures
        ({
            let args = plan_of(request, port).args;
            let front: int = if port == 5600 {
                1
            } else {
                3
            };
            &&& args.len() == front + (match request.args {
                Some(own) => own.len(),
                None => 0,
            })
            &&& args[0] == "--output-only"@
            &&& port != 5600 ==> args[1] == "--port"@ && u32_value(args[2]) == Some(port as u32)
            &&& request.args is Some && 0 <= i < request.args->0.len() ==> args[front + i]
                == request.args->0[i]
            &&& plan_of(request, port).reported_args is Some
            &&& plan_of(request, port).reported_args->0.len() == args.len()
            &&& 0 <= i < args.len() ==> plan_of(request, port).reported_args->0[i] == args[i]
        }),
{
    law_decimal_reads_back(port as u32);
}

/// The synchronisation module, and no other, gets a pipe for commands.
pub proof fn law_command_pipe(request: LaunchModel, port: u16)
    ensures
        plan_of(request, port).pipe_stdin <==> request.kind is OdooSync,
{
}

/// Whatever the kind of a module, when its end is reported, it is reported
/// under its name, and as a success if and only if the exit code is zero: any
/// other code, and a signal, is a failure.
pub proof fn law_success_means_exit_code_zero(
    request: LaunchModel,
    code: Option<i32>,
    stderr: Seq<char>,
)
    ensures
        match exit_of(request, code, stderr) {
            ExitModel::Report(message) => message is Stopped && message->Stopped_name
                == request.name && (message->success <==> code is Some && code->0 == 0),
            ExitModel::Relaunch(_) => true,
        },
{
}

/// A process that ended is launched again exactly if it is the notification
/// module, ended with the exit code for wrong usage, and complained of the
/// print-only mode somewhere on its standard error; it is then launched with
/// the same name, program and arguments, by the generic handler.
pub proof fn law_fallback_after_exit(
    request: LaunchModel,
    code: Option<i32>,
    before: Seq<char>,
    after: Seq<char>,
    stderr: Seq<char>,
)
    ensures
        request.kind is Notify && code == Some(2i32) ==> exit_of(
            request,
            code,
            before + "No such option: --output-only"@ + after,
        ) is Relaunch,
        exit_of(request, code, stderr) matches ExitModel::Relaunch(next) ==> {
            &&& request.kind is Notify
            &&& code is Some && code->0 == 2
            &&& exists|a: Seq<char>, b: Seq<char>|
                stderr == #[trigger] (a + "No such option: --output-only"@ + b)
            &&& next.kind is Generic
            &&& next.name == request.name
            &&& next.path == request.path
            &&& next.args == request.args
        },
{
    law_occurs(before, "No such option: --output-only"@, after, stderr);
}

/// A complaint of the print-only mode is one that holds these words anywhere.
pub proof fn law_complaint(before: Seq<char>, after: Seq<char>, complaint: Seq<char>)
    ensures
        lacks_output_only(before + "No such option: --output-only"@ + after),
        lacks_output_only(complaint) ==> exists|a: Seq<char>, b: Seq<char>|
            complaint == #[trigger] (a + "No such option: --output-only"@ + b),
{
    law_occurs(before, "No such option: --output-only"@, after, complaint);
}

/// The generic launch that takes the place of another differs in the handler
/// alone.
pub proof fn law_generic_launch(request: LaunchModel)
    ensures
        as_generic(request).kind is Generic,
        as_generic(request).name == request.name,
        as_generic(request).path == request.path,
        as_generic(request).args == request.args,
{
}

/// A module is told the directory of all logs and the one of its own, both or
/// neither.
pub proof fn law_log_variables(root: Seq<u8>, own: Seq<u8>)
    ensures
        log_variables(root, own).len() == 2,
        log_variables(root, own)[0].0 == "AW_LOG_ROOT"@,
        log_variables(root, own)[0].1 == root,
        log_variables(root, own)[1].0 == "AW_LOG_DIR"@,
        log_variables(root, own)[1].1 == own,
{
}

/// On Unix the log directory of a module stands directly below the directory of
/// all logs, under the module's name; without a directory of all logs nothing
/// is set.
pub proof fn law_log_directory(root: Seq<u8>, name: Seq<char>)
    requires
        encode_utf8(name).len() > 0,
        encode_utf8(name)[0] != 47,
        root.len() > 0,
    ensures
        environment(None, name).len() == 0,
        environment(Some(root), name).len() == 2,
        environment(Some(root), name)[0] == ("AW_LOG_ROOT"@, root),
        environment(Some(root), name)[1].0 == "AW_LOG_DIR"@,
        root.last() != 47 ==> environment(Some(root), name)[1].1 == root + seq![47u8]
            + encode_utf8(name),
        root.last() == 47 ==> environment(Some(root), name)[1].1 == root + encode_utf8(name),
{
    assert(root.push(47u8) =~= root + seq![47u8]);
}

/// Launches, plans and messages stand as what they hold.
pub proof fn law_launch_views(
    request: LaunchRequest,
    plan: LaunchPlan,
    args: Vec<String>,
    message: ModuleMessage,
    vars: Seq<EnvVar>,
)
    ensures
        opt_texts(Some(args)) == Some(texts(args@)),
        opt_texts(None) is None,
        request@.name == request.name@,
        request@.path == request.path@,
        request@.kind == request.kind,
        request@.args == opt_texts(request.args),
        plan@.args == texts(plan.args@),
        plan@.reported_args == opt_texts(plan.reported_args),
        plan@.pipe_stdin == plan.pipe_stdin,
        match message {
            ModuleMessage::Started { name, pid, args } => message@ is Started
                && message@->Started_name == name@ && message@->pid == pid && message@->args
                == opt_texts(args),
            ModuleMessage::Stopped { name, success } => message@ is Stopped
                && message@->Stopped_name == name@ && message@->success == success,
            ModuleMessage::Init => message@ is Init,
        },
        ExitOutcome::Relaunch(request)@ == ExitModel::Relaunch(request@),
        ExitOutcome::Report(message)@ == ExitModel::Report(message@),
        env_models(vars).len() == vars.len(),
        forall|i: int|
            0 <= i < vars.len() ==> (#[trigger] env_models(vars)[i]).0 == vars[i].key@
                && env_models(vars)[i].1 == vars[i].value@,
{
}

} // verus!
