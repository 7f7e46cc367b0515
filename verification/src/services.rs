//! Listing and controlling system services. The listing and the control
//! commands run outside the library; here stand what to run, how their
//! output is read, and how their outcome becomes a result.

pub mod linux;
pub mod other;
pub mod windows;

use vstd::prelude::*;
use crate::text::{chars_of, dec_i32, from_utf8_lossy, int_dec, string_of, trim, trim_chars, utf8_lossy};

verus! {

/// One service as listed: its name, its state (`"active (running)"` on
/// Linux, `"RUNNING"` on Windows) and its description.
#[derive(Clone, Debug)]
pub struct ServiceRow {
    pub name: String,
    pub state: String,
    pub description: String,
}

/// A service row as text.
pub struct ServiceSpec {
    pub name: Seq<char>,
    pub state: Seq<char>,
    pub description: Seq<char>,
}

impl View for ServiceRow {
    type V = ServiceSpec;

    open spec fn view(&self) -> ServiceSpec {
        ServiceSpec { name: self.name@, state: self.state@, description: self.description@ }
    }
}

/// The views of a sequence of rows.
pub open spec fn rows_view(v: Seq<ServiceRow>) -> Seq<ServiceSpec> {
    v.map_values(|r: ServiceRow| r@)
}

impl ServiceRow {
    /// A row holding the given texts.
    pub fn from_chars(name: &[char], state: &[char], description: &[char]) -> (r: ServiceRow)
        ensures
            r@ == (ServiceSpec { name: name@, state: state@, description: description@ }),
    {
        ServiceRow {
            name: string_of(name),
            state: string_of(state),
            description: string_of(description),
        }
    }

    /// A copy of this row.
    pub fn copy(&self) -> (r: ServiceRow)
        ensures
            r@ == self@,
    {
        ServiceRow {
            name: self.name.clone(),
            state: self.state.clone(),
            description: self.description.clone(),
        }
    }
}

/// What can be done to a service.
#[derive(Clone, Copy, Debug, PartialEq, Eq, Structural)]
pub enum ServiceAction {
    Start,
    Stop,
    Restart,
}

/// The operating system the monitor runs on.
#[derive(Clone, Copy, Debug, PartialEq, Eq, Structural)]
pub enum Platform {
    Linux,
    Windows,
    Other,
}

/// A program to run and its arguments.
#[derive(Debug)]
pub struct Invocation {
    pub program: String,
    pub args: Vec<String>,
}

/// An invocation as text.
pub struct InvocationSpec {
    pub program: Seq<char>,
    pub args: Seq<Seq<char>>,
}

impl View for Invocation {
    type V = InvocationSpec;

    open spec fn view(&self) -> InvocationSpec {
        InvocationSpec { program: self.program@, args: self.args@.map_values(|a: String| a@) }
    }
}

/// The views of a sequence of invocations.
pub open spec fn invocations_view(v: Seq<Invocation>) -> Seq<InvocationSpec> {
    v.map_values(|i: Invocation| i@)
}

/// An invocation of `program` with the given literal arguments.
pub fn invocation(program: &str, args: &[&str]) -> (r: Invocation)
    ensures
        r@.program == program@,
        r@.args == args@.map_values(|a: &str| a@),
{
    let mut v: Vec<String> = Vec::new();
    let mut i: usize = 0;
    while i < args.len()
        invariant
            i <= args.len(),
            v.len() == i,
            forall|j: int| 0 <= j < i ==> (#[trigger] v@[j])@ == args@[j]@,
        decreases args.len() - i,
    {
        v.push(String::from_str(args[i]));
        i += 1;
    }
    assert(v@.map_values(|a: String| a@) =~= args@.map_values(|a: &str| a@));
    Invocation { program: String::from_str(program), args: v }
}

/// How a command ended: it could not be started (with the error's text),
/// or it ran and exited.
#[derive(Debug)]
pub enum CommandOutcome {
    NotStarted { error: String },
    Exited { success: bool, code: Option<i32>, stdout: Vec<u8>, stderr: Vec<u8> },
}

/// `{:?}` of an optional exit code.
pub open spec fn code_debug(code: Option<i32>) -> Seq<char> {
    match code {
        Some(c) => "Some("@ + int_dec(c as int) + ")"@,
        None => "None"@,
    }
}

/// The result that a command's outcome gives: success if it exited
/// successfully; otherwise its trimmed standard error, or failing that its
/// trimmed standard output, or failing that a message with its exit code.
pub open spec fn collect_spec(cmd: Seq<char>, outcome: CommandOutcome) -> Result<(), Seq<char>> {
    match outcome {
        CommandOutcome::NotStarted { error } => Err(
            "Impossible de lancer "@ + cmd + " : "@ + error@,
        ),
        CommandOutcome::Exited { success, code, stdout, stderr } => {
            if success {
                Ok(())
            } else if trim(utf8_lossy(stderr@)).len() > 0 {
                Err(trim(utf8_lossy(stderr@)))
            } else if trim(utf8_lossy(stdout@)).len() > 0 {
                Err(trim(utf8_lossy(stdout@)))
            } else {
                Err(cmd + " a échoué (code "@ + code_debug(code) + ")"@)
            }
        },
    }
}

/// The view of a result with a text error.
pub open spec fn result_view(r: Result<(), String>) -> Result<(), Seq<char>> {
    match r {
        Ok(()) => Ok(()),
        Err(e) => Err(e@),
    }
}

/// The trimmed text of some output bytes.
fn trimmed_text(b: &[u8]) -> (r: Vec<char>)
    ensures
        r@ == trim(utf8_lossy(b@)),
{
    let s = from_utf8_lossy(b);
    let c = chars_of(s.as_str());
    trim_chars(c.as_slice())
}

/// The result of running `cmd`, from how it ended.
pub fn run_and_collect(cmd: &str, outcome: &CommandOutcome) -> (r: Result<(), String>)
    ensures
        result_view(r) == collect_spec(cmd@, *outcome),
{
    match outcome {
        CommandOutcome::NotStarted { error } => {
            let mut m = String::from_str("Impossible de lancer ");
            m.append(cmd);
            m.append(" : ");
            m.append(error.as_str());
            assert(m@ == "Impossible de lancer "@ + cmd@ + " : "@ + error@);
            assert(collect_spec(cmd@, *outcome) == Err::<(), Seq<char>>(m@));
            Err(m)
        },
        CommandOutcome::Exited { success, code, stdout, stderr } => {
            if *success {
                return Ok(());
            }
            let msg = trimmed_text(stderr.as_slice());
            if msg.len() > 0 {
                return Err(string_of(msg.as_slice()));
            }
            let msg = trimmed_text(stdout.as_slice());
            if msg.len() > 0 {
                return Err(string_of(msg.as_slice()));
            }
            let mut m = String::from_str(cmd);
            m.append(" a échoué (code ");
            match code {
                Some(c) => {
                    m.append("Some(");
                    let d = dec_i32(*c);
                    let ds = string_of(d.as_slice());
                    m.append(ds.as_str());
                    m.append(")");
                },
                None => {
                    m.append("None");
                },
            }
            m.append(")");
            assert(m@ =~= cmd@ + " a échoué (code "@ + code_debug(*code) + ")"@);
            Err(m)
        },
    }
}


/// The result of an action whose steps all ran, each with its outcome: the
/// last step's result, whatever the earlier steps gave (a restart reports
/// its start, even when its stop failed); success when there was no step.
pub open spec fn action_result_spec(ran: Seq<(InvocationSpec, CommandOutcome)>) -> Result<(), Seq<char>> {
    if ran.len() == 0 {
        Ok(())
    } else {
        collect_spec(ran.last().0.program, ran.last().1)
    }
}

/// The views of the steps of an action that ran.
pub open spec fn ran_view(ran: Seq<(Invocation, CommandOutcome)>) -> Seq<(InvocationSpec, CommandOutcome)> {
    ran.map_values(|p: (Invocation, CommandOutcome)| (p.0@, p.1))
}

/// The result of an action from the outcomes of its steps, run in order.
pub fn action_result(ran: &[(Invocation, CommandOutcome)]) -> (r: Result<(), String>)
    ensures
        result_view(r) == action_result_spec(ran_view(ran@)),
{
    if ran.len() == 0 {
        return Ok(());
    }
    let last = &ran[ran.len() - 1];
    run_and_collect(last.0.program.as_str(), &last.1)
}

/// On Windows a restart stops, then starts the service, and reports what
/// the start gave, whatever the stop gave.
pub proof fn law_windows_restart_reports_start(
    name: Seq<char>,
    stop: CommandOutcome,
    start: CommandOutcome,
)
    ensures
        control_for(Platform::Windows, name, ServiceAction::Restart) matches Ok(plan) && plan.len() == 2
            && plan[0].args == seq!["stop"@, name] && plan[1].args == seq!["start"@, name]
            && action_result_spec(seq![(plan[0], stop), (plan[1], start)]) == collect_spec(
            "sc"@,
            start,
        ),
{
}

/// The services that a listing command's output gives on `platform`; none
/// on other platforms or when the command could not be run.
pub open spec fn fetch_for(platform: Platform, stdout: Option<Seq<u8>>) -> Seq<ServiceSpec> {
    match platform {
        Platform::Linux => linux::fetch_spec(stdout),
        Platform::Windows => windows::fetch_spec(stdout),
        Platform::Other => seq![],
    }
}

/// The view of optional output bytes.
pub open spec fn bytes_view(b: Option<&[u8]>) -> Option<Seq<u8>> {
    match b {
        Some(x) => Some(x@),
        None => None,
    }
}

/// The commands that apply `action` to the service `name` on `platform`,
/// or the message refusing it.
pub open spec fn control_for(platform: Platform, name: Seq<char>, action: ServiceAction) -> Result<
    Seq<InvocationSpec>,
    Seq<char>,
> {
    match platform {
        Platform::Linux => Ok(linux::control_plan(name, action)),
        Platform::Windows => Ok(windows::control_plan(name, action)),
        Platform::Other => Err(other::unsupported_message()),
    }
}

/// The view of a control plan.
pub open spec fn plan_view(r: Result<Vec<Invocation>, String>) -> Result<
    Seq<InvocationSpec>,
    Seq<char>,
> {
    match r {
        Ok(steps) => Ok(invocations_view(steps@)),
        Err(e) => Err(e@),
    }
}

/// The command that lists the services on `platform`, if it has one.
pub fn listing_command(platform: Platform) -> (r: Option<Invocation>)
    ensures
        (r is Some) == (platform != Platform::Other),
        platform == Platform::Linux ==> r.unwrap()@.program == "systemctl"@,
        platform == Platform::Windows ==> r.unwrap()@.program == "sc"@,
{
    match platform {
        Platform::Linux => Some(linux::listing_command()),
        Platform::Windows => Some(windows::listing_command()),
        Platform::Other => None,
    }
}

/// The services of `platform` as last listed.
pub struct ServiceMonitor {
    services: Vec<ServiceRow>,
}

impl View for ServiceMonitor {
    type V = Seq<ServiceSpec>;

    closed spec fn view(&self) -> Seq<ServiceSpec> {
        rows_view(self.services@)
    }
}

impl ServiceMonitor {
    /// A monitor holding the services of a first listing.
    pub fn new(platform: Platform, stdout: Option<&[u8]>) -> (s: Self)
        ensures
            s@ == fetch_for(platform, bytes_view(stdout)),
    {
        let mut s = ServiceMonitor { services: Vec::new() };
        s.refresh(platform, stdout);
        s
    }

    /// Replaces the services with those of a new listing.
    pub fn refresh(&mut self, platform: Platform, stdout: Option<&[u8]>)
        ensures
            final(self)@ == fetch_for(platform, bytes_view(stdout)),
    {
        self.services = fetch_services(platform, stdout);
    }

    /// The services, in listing order.
    pub fn services(&self) -> (r: &[ServiceRow])
        ensures
            rows_view(r@) == self@,
    {
        self.services.as_slice()
    }

    /// The commands that apply `action` to the service `name`.
    pub fn control(&self, platform: Platform, name: &str, action: ServiceAction) -> (r: Result<
        Vec<Invocation>,
        String,
    >)
        ensures
            plan_view(r) == control_for(platform, name@, action),
    {
        control_service(platform, name, action)
    }
}

/// The services that a listing command's output gives on `platform`.
pub fn fetch_services(platform: Platform, stdout: Option<&[u8]>) -> (r: Vec<ServiceRow>)
    ensures
        rows_view(r@) == fetch_for(platform, bytes_view(stdout)),
{
    match platform {
        Platform::Linux => linux::fetch_services(stdout),
        Platform::Windows => windows::fetch_services(stdout),
        Platform::Other => {
            let r = other::fetch_services();
            assert(rows_view(r@) =~= seq![]);
            r
        },
    }
}

/// The commands that apply `action` to the service `name` on `platform`,
/// or the message refusing it.
pub fn control_service(platform: Platform, name: &str, action: ServiceAction) -> (r: Result<
    Vec<Invocation>,
    String,
>)
    ensures
        plan_view(r) == control_for(platform, name@, action),
{
    match platform {
        Platform::Linux => linux::control_service(name, action),
        Platform::Windows => windows::control_service(name, action),
        Platform::Other => other::control_service(name, action),
    }
}

} // verus!
