//! The elements FastUp manages: how the configuration describes them, how
//! they are started, and what is recorded about a running one.
use vstd::prelude::*;

use crate::process::ProcessTable;
use crate::state::{runs_something_else, validated, FastUpState};
use crate::text::views_of;

verus! {

/// Information about a running element.
#[derive(Clone)]
pub struct ElementInfo {
    /// PID executing the element
    pub pid: usize,
    /// Name of the element
    pub name: String,
    /// Start time of the element
    pub start_time: u64,
    /// Type of element: "Command" or "Service"
    pub element_type: String,
    /// Whether the element was started by fastup or is externally running
    pub started_by_fastup: bool,
}

/// The value of an `ElementInfo`.
pub struct ElementInfoView {
    pub pid: usize,
    pub name: Seq<char>,
    pub start_time: u64,
    pub element_type: Seq<char>,
    pub started_by_fastup: bool,
}

impl View for ElementInfo {
    type V = ElementInfoView;

    open spec fn view(&self) -> ElementInfoView {
        ElementInfoView {
            pid: self.pid,
            name: self.name@,
            start_time: self.start_time,
            element_type: self.element_type@,
            started_by_fastup: self.started_by_fastup,
        }
    }
}

impl ElementInfo {
    /// A copy of this record.
    pub fn duplicate(&self) -> (r: ElementInfo)
        ensures
            r@ == self@,
    {
        ElementInfo {
            pid: self.pid,
            name: self.name.clone(),
            start_time: self.start_time,
            element_type: self.element_type.clone(),
            started_by_fastup: self.started_by_fastup,
        }
    }
}

/// The type of an element and how to start or stop it.
#[derive(Clone)]
pub enum ElementType {
    /// Element that is started with a custom command
    Command {
        /// Command to start the element
        start_command: String,
        /// Arguments for the start command
        args: Vec<String>,
        /// Optional file that receives the element's output
        log_file: Option<String>,
    },
    /// Service that is started as a system service
    Service {
        /// Name of the service
        service_name: String,
    },
}

/// The value of an `ElementType`.
pub enum ElementTypeView {
    Command { start_command: Seq<char>, args: Seq<Seq<char>>, log_file: Option<Seq<char>> },
    Service { service_name: Seq<char> },
}

impl View for ElementType {
    type V = ElementTypeView;

    open spec fn view(&self) -> ElementTypeView {
        match self {
            ElementType::Command { start_command, args, log_file } => ElementTypeView::Command {
                start_command: start_command@,
                args: views_of(args@),
                log_file: match log_file {
                    Some(f) => Some(f@),
                    None => None,
                },
            },
            ElementType::Service { service_name } => ElementTypeView::Service {
                service_name: service_name@,
            },
        }
    }
}

/// An element as the configuration file defines it.
pub struct ElementConfig {
    /// Name of the element
    pub name: String,
    /// Port on which the element is expected to run
    pub port: u16,
    /// Element type (Command or Service)
    pub element_type: ElementType,
}

/// The value of an `ElementConfig`.
pub struct ElementConfigView {
    pub name: Seq<char>,
    pub port: u16,
    pub element_type: ElementTypeView,
}

impl View for ElementConfig {
    type V = ElementConfigView;

    open spec fn view(&self) -> ElementConfigView {
        ElementConfigView { name: self.name@, port: self.port, element_type: self.element_type@ }
    }
}

/// The word FastUp records for the type of an element.
pub open spec fn kind_name_of(t: ElementTypeView) -> Seq<char> {
    match t {
        ElementTypeView::Command { .. } => "Command"@,
        ElementTypeView::Service { .. } => "Service"@,
    }
}

/// A program to run, with its arguments and where its output goes.
pub struct Invocation {
    /// The program
    pub program: String,
    /// Its arguments
    pub args: Vec<String>,
    /// The file that receives its output (appended to); `None` discards the
    /// output of a command element and leaves a service's on the terminal
    pub output_file: Option<String>,
}

/// The value of an `Invocation`.
pub struct InvocationView {
    pub program: Seq<char>,
    pub args: Seq<Seq<char>>,
    pub output_file: Option<Seq<char>>,
}

impl View for Invocation {
    type V = InvocationView;

    open spec fn view(&self) -> InvocationView {
        InvocationView {
            program: self.program@,
            args: views_of(self.args@),
            output_file: match self.output_file {
                Some(f) => Some(f@),
                None => None,
            },
        }
    }
}

/// `sudo systemctl <action> <service>`.
pub open spec fn systemctl_invocation(action: Seq<char>, service: Seq<char>) -> InvocationView {
    InvocationView {
        program: "sudo"@,
        args: seq!["systemctl"@, action, service],
        output_file: None,
    }
}

/// The command that asks systemd to `action` (start, stop) a service.
pub fn systemctl(action: &str, service_name: &String) -> (r: Invocation)
    ensures
        r@ == systemctl_invocation(action@, service_name@),
{
    let mut args: Vec<String> = Vec::new();
    args.push(String::from_str("systemctl"));
    args.push(String::from_str(action));
    args.push(service_name.clone());
    let r = Invocation { program: String::from_str("sudo"), args, output_file: None };
    assert(r@.args =~= seq!["systemctl"@, action@, service_name@]);
    r
}

/// A copy of a list of strings.
fn copy_strings(v: &Vec<String>) -> (r: Vec<String>)
    ensures
        views_of(r@) == views_of(v@),
{
    let mut r: Vec<String> = Vec::new();
    let mut i: usize = 0;
    while i < v.len()
        invariant
            i <= v.len(),
            r@.len() == i,
            forall|k: int| 0 <= k < i ==> #[trigger] r@[k]@ == v@[k]@,
        decreases v.len() - i,
    {
        r.push(v[i].clone());
        i = i + 1;
    }
    assert(views_of(r@) =~= views_of(v@));
    r
}

impl ElementType {
    /// The word FastUp records for this type: "Command" or "Service".
    pub fn kind_name(&self) -> (r: String)
        ensures
            r@ == kind_name_of(self@),
    {
        match self {
            ElementType::Command { .. } => String::from_str("Command"),
            ElementType::Service { .. } => String::from_str("Service"),
        }
    }

    /// Whether this element is a system service.
    pub fn is_service(&self) -> (r: bool)
        ensures
            r == (self@ is Service),
    {
        match self {
            ElementType::Command { .. } => false,
            ElementType::Service { .. } => true,
        }
    }

    /// What starting the element runs: its own command with its arguments,
    /// output to its log file or discarded; or, for a service,
    /// `sudo systemctl start <service>` on the terminal.
    pub fn start_invocation(&self) -> (r: Invocation)
        ensures
            r@ == match self@ {
                ElementTypeView::Command { start_command, args, log_file } => InvocationView {
                    program: start_command,
                    args: args,
                    output_file: log_file,
                },
                ElementTypeView::Service { service_name } => systemctl_invocation(
                    "start"@,
                    service_name,
                ),
            },
    {
        match self {
            ElementType::Command { start_command, args, log_file } => {
                let output_file = match log_file {
                    Some(f) => Some(f.clone()),
                    None => None,
                };
                Invocation { program: start_command.clone(), args: copy_strings(args), output_file }
            },
            ElementType::Service { service_name } => systemctl("start", service_name),
        }
    }
}

/// What stopping an element comes down to.
pub enum StopStep {
    /// Kill the process with this id, then forget the element
    Kill(usize),
    /// The element is validated but no process has the given id: nothing to do
    NoProcess,
    /// The element does not validate (not recorded, its recorded process
    /// gone, or running something else): leave it
    Mismatch,
    /// Run this command, then forget the element
    StopService(Invocation),
}

impl ElementType {
    /// Decides how to stop the element `command`, believed to run as `pid`:
    /// a command element is killed only when its recorded process still runs
    /// its start command and a process with id `pid` runs (validating it
    /// forgets the element when its recorded process runs something else);
    /// a service is stopped with `sudo systemctl stop <service>`. Once the
    /// kill or the command is done, `finish_stop` forgets the element.
    pub fn stop_step(
        &self,
        pid: usize,
        state: &mut FastUpState,
        command: &str,
        procs: &ProcessTable,
    ) -> (r: StopStep)
        ensures
            final(state)@ == match self@ {
                ElementTypeView::Command { start_command, .. } => if runs_something_else(
                    old(state)@,
                    command@,
                    start_command,
                    procs@,
                ) {
                    old(state)@.remove(command@)
                } else {
                    old(state)@
                },
                ElementTypeView::Service { .. } => old(state)@,
            },
            match self@ {
                ElementTypeView::Command { start_command, .. } => if validated(
                    old(state)@,
                    command@,
                    start_command,
                    procs@,
                ) {
                    if procs.runs(pid) {
                        r == StopStep::Kill(pid)
                    } else {
                        r is NoProcess
                    }
                } else {
                    r is Mismatch
                },
                ElementTypeView::Service { service_name } => match r {
                    StopStep::StopService(inv) => inv@ == systemctl_invocation(
                        "stop"@,
                        service_name,
                    ),
                    _ => false,
                },
            },
    {
        match self {
            ElementType::Command { start_command, .. } => {
                if state.validate(command, start_command.as_str(), procs) {
                    if procs.is_running(pid) {
                        StopStep::Kill(pid)
                    } else {
                        StopStep::NoProcess
                    }
                } else {
                    StopStep::Mismatch
                }
            },
            ElementType::Service { service_name } => StopStep::StopService(
                systemctl("stop", service_name),
            ),
        }
    }
}

/// Whether a stop step, once carried out, leaves the element stopped: a
/// kill or a service stop.
pub open spec fn step_stops(step: StopStep) -> bool {
    step is Kill || step is StopService
}

/// Completes a stop once its step has been carried out (the process killed,
/// the service command run): a stopped element is forgotten; after any other
/// step the state stays as it is.
pub fn finish_stop(state: &mut FastUpState, command: &str, step: &StopStep)
    ensures
        final(state)@ == if step_stops(*step) {
            old(state)@.remove(command@)
        } else {
            old(state)@
        },
        (step is Kill || step is StopService) ==> final(state)@ == old(state)@.remove(command@),
        (step is NoProcess || step is Mismatch) ==> final(state)@ == old(state)@,
{
    match step {
        StopStep::Kill(_) | StopStep::StopService(_) => {
            state.remove_element(command);
        },
        _ => {},
    }
}

/// The process to stop for a command element recorded as running as
/// `cached_pid`: that process while it runs; otherwise the process found
/// listening on the element's port, if it is not 0 and runs; otherwise none.
pub fn pid_to_stop(cached_pid: usize, procs: &ProcessTable, listening_pid: Option<usize>) -> (r:
    Option<usize>)
    ensures
        r == if procs.runs(cached_pid) {
            Some(cached_pid)
        } else {
            match listening_pid {
                Some(p) => if p != 0 && procs.runs(p) {
                    Some(p)
                } else {
                    None
                },
                None => None,
            }
        },
{
    let mut pid = cached_pid;
    if !procs.is_running(pid) {
        if let Some(found) = listening_pid {
            pid = found;
        }
        if pid == 0 || !procs.is_running(pid) {
            return None;
        }
    }
    Some(pid)
}

} // verus!

verus! {

/// Stopping a validated command element whose process runs, or a service,
/// and then finishing the stop, forgets the element and nothing else: the
/// state that follows is the state before without it.
pub proof fn law_stop_then_finish_forgets(
    m: Map<Seq<char>, crate::elements::ElementInfoView>,
    command: Seq<char>,
    start_command: Seq<char>,
    procs: Seq<crate::process::ProcessView>,
)
    requires
        validated(m, command, start_command, procs),
    ensures
        !runs_something_else(m, command, start_command, procs),
        m.remove(command).dom() == m.dom().remove(command),
        forall|k: Seq<char>| #[trigger] m.remove(command).contains_key(k) ==> m.remove(command)[k]
            == m[k],
{
    assert(m.remove(command).dom() =~= m.dom().remove(command));
}

} // verus!

verus! {

/// Finishing a stop forgets the element only after a step that stopped
/// something: a kill or a service stop. After a step that stopped nothing
/// (no process to kill, or an element that does not validate) the element
/// is kept, as it still runs or was never stopped.
pub proof fn law_only_stopping_steps_forget(step: StopStep)
    ensures
        step_stops(step) <==> (step is Kill || step is StopService),
        step is NoProcess ==> !step_stops(step),
        step is Mismatch ==> !step_stops(step),
{
}

} // verus!
