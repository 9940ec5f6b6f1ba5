use vstd::prelude::*;
use vstd::std_specs::convert::FromSpecImpl;

use crate::diagnostics::{TraceCollector, TraceEvent};
use crate::terminal::{
    detect_color_capability, spec_graphics_summary, spec_truecolor_marker,
    summarize_graphics_environment, validate_terminal_environment, ColorCapability,
    TerminalColorEnvironment, TerminalGraphicsEnvironment, TerminalSize, TerminalValidationError,
};
use crate::text::{append_decimal, append_str, chars_of, decimal};

verus! {

broadcast use vstd::string::group_string_axioms;

/// What the process found out about its terminal before starting.
#[derive(Clone, Debug, PartialEq, Eq)]
pub struct StartupEnvironment {
    pub stdout_is_terminal: bool,
    pub terminal_size: TerminalSize,
    pub color_environment: TerminalColorEnvironment,
    pub graphics_environment: TerminalGraphicsEnvironment,
}

impl StartupEnvironment {
    /// An environment with no colour or graphics variables set.
    pub fn new(stdout_is_terminal: bool, terminal_size: TerminalSize) -> (environment:
        StartupEnvironment)
        ensures
            environment.stdout_is_terminal == stdout_is_terminal,
            environment.terminal_size == terminal_size,
            environment.color_environment.colorterm is None,
            environment.color_environment.term is None,
            environment.graphics_environment.term is None,
            environment.graphics_environment.colorterm is None,
            !environment.graphics_environment.kitty_window_id,
            !environment.graphics_environment.kitty_pid,
    {
        StartupEnvironment {
            stdout_is_terminal,
            terminal_size,
            color_environment: TerminalColorEnvironment::default(),
            graphics_environment: TerminalGraphicsEnvironment::default(),
        }
    }

    pub fn with_color_environment(self, color_environment: TerminalColorEnvironment) -> (environment:
        StartupEnvironment)
        ensures
            environment == (StartupEnvironment { color_environment, ..self }),
    {
        StartupEnvironment { color_environment, ..self }
    }

    pub fn with_graphics_environment(
        self,
        graphics_environment: TerminalGraphicsEnvironment,
    ) -> (environment: StartupEnvironment)
        ensures
            environment == (StartupEnvironment { graphics_environment, ..self }),
    {
        StartupEnvironment { graphics_environment, ..self }
    }
}

/// Why the application could not start.
#[derive(Clone, Copy, Debug, PartialEq, Eq, Structural)]
pub enum AppError {
    Terminal(TerminalValidationError),
}

impl AppError {
    pub open spec fn spec_message(self) -> Seq<char> {
        match self {
            AppError::Terminal(error) => error.spec_message(),
        }
    }

    /// The user-facing description: that of the underlying error.
    pub fn message(&self) -> (message: String)
        ensures
            message@ == self.spec_message(),
    {
        match self {
            AppError::Terminal(error) => error.message(),
        }
    }
}

impl From<TerminalValidationError> for AppError {
    fn from(error: TerminalValidationError) -> (converted: AppError) {
        AppError::Terminal(error)
    }
}

impl FromSpecImpl<TerminalValidationError> for AppError {
    open spec fn obeys_from_spec() -> bool {
        true
    }

    open spec fn from_spec(error: TerminalValidationError) -> AppError {
        AppError::Terminal(error)
    }
}

/// What startup established about the terminal.
#[derive(Clone, Copy, Debug, PartialEq, Eq, Structural)]
pub struct StartupReport {
    pub terminal_size: TerminalSize,
    pub color_capability: ColorCapability,
}

/// The target and message of each event, without the time stamps.
pub open spec fn event_texts(events: Seq<(Seq<char>, Seq<char>, u64)>) -> Seq<(Seq<char>, Seq<char>)> {
    events.map_values(|event: (Seq<char>, Seq<char>, u64)| (event.0, event.1))
}

pub open spec fn spec_color_capability(environment: TerminalColorEnvironment) -> ColorCapability {
    if environment.colorterm is Some && spec_truecolor_marker(environment.colorterm->0@) {
        ColorCapability::Truecolor
    } else {
        ColorCapability::Limited
    }
}

pub open spec fn spec_color_message(capability: ColorCapability) -> Seq<char> {
    match capability {
        ColorCapability::Truecolor => "truecolor capability detected"@,
        ColorCapability::Limited => "limited color capability detected; truecolor is recommended"@,
    }
}

/// The events startup records, in order: the size being validated, then, when the
/// terminal is accepted, the colour capability, the graphics environment and the success.
pub open spec fn spec_startup_events(environment: StartupEnvironment) -> Seq<(Seq<char>, Seq<char>)> {
    let size = environment.terminal_size;
    let first = seq![
        ("startup"@, "validating terminal environment for "@ + chars_of(decimal(size.width as nat))
            + "x"@ + chars_of(decimal(size.height as nat))),
    ];
    if environment.stdout_is_terminal && size.width >= 80 && size.height >= 24 {
        first + seq![
            ("terminal.color"@, spec_color_message(spec_color_capability(environment.color_environment))),
            ("terminal.graphics"@, spec_graphics_summary(environment.graphics_environment)),
            ("startup"@, "startup validated for pixel canvas graphics runtime"@),
        ]
    } else {
        first
    }
}

fn record_text(traces: &mut TraceCollector, target: &str, message: String)
    ensures
        final(traces).spec_enabled() == old(traces).spec_enabled(),
        event_texts(final(traces).spec_events()) == if old(traces).spec_enabled() {
            event_texts(old(traces).spec_events()).push((target@, message@))
        } else {
            event_texts(old(traces).spec_events())
        },
{
    traces.record(TraceEvent::from_text(target.to_owned(), message));
    proof {
        if old(traces).spec_enabled() {
            let after = traces.spec_events();
            assert(event_texts(after) =~= event_texts(after.drop_last()).push((target@, message@)));
        }
    }
}

fn record_color_capability(environment: &StartupEnvironment, traces: &mut TraceCollector) -> (capability:
    ColorCapability)
    ensures
        capability == spec_color_capability(environment.color_environment),
        final(traces).spec_enabled() == old(traces).spec_enabled(),
        event_texts(final(traces).spec_events()) == if old(traces).spec_enabled() {
            event_texts(old(traces).spec_events()).push(
                ("terminal.color"@, spec_color_message(capability)),
            )
        } else {
            event_texts(old(traces).spec_events())
        },
{
    let capability = detect_color_capability(&environment.color_environment);
    let mut message = String::new();
    match capability {
        ColorCapability::Truecolor => append_str(&mut message, "truecolor capability detected"),
        // Truecolor is not a hard startup requirement because some terminal emulators
        // approximate 24-bit ANSI colour without advertising it.
        ColorCapability::Limited => append_str(
            &mut message,
            "limited color capability detected; truecolor is recommended",
        ),
    }
    proof {
        assert(message@ =~= spec_color_message(capability));
    }
    record_text(traces, "terminal.color", message);
    capability
}

fn record_graphics_environment(environment: &StartupEnvironment, traces: &mut TraceCollector)
    ensures
        final(traces).spec_enabled() == old(traces).spec_enabled(),
        event_texts(final(traces).spec_events()) == if old(traces).spec_enabled() {
            event_texts(old(traces).spec_events()).push(
                ("terminal.graphics"@, spec_graphics_summary(environment.graphics_environment)),
            )
        } else {
            event_texts(old(traces).spec_events())
        },
{
    record_text(
        traces,
        "terminal.graphics",
        summarize_graphics_environment(&environment.graphics_environment),
    );
}

/// Validates the terminal and records what startup found. Fails, after recording only the
/// first event, exactly when the terminal is rejected, with that rejection.
pub fn prepare_startup(environment: StartupEnvironment, traces: &mut TraceCollector) -> (result:
    Result<StartupReport, AppError>)
    ensures
        final(traces).spec_enabled() == old(traces).spec_enabled(),
        event_texts(final(traces).spec_events()) == if old(traces).spec_enabled() {
            event_texts(old(traces).spec_events()) + spec_startup_events(environment)
        } else {
            event_texts(old(traces).spec_events())
        },
        !environment.stdout_is_terminal ==> result == Err::<StartupReport, AppError>(
            AppError::Terminal(TerminalValidationError::StdoutNotTerminal),
        ),
        environment.stdout_is_terminal && (environment.terminal_size.width < 80
            || environment.terminal_size.height < 24) ==> result == Err::<StartupReport, AppError>(
            AppError::Terminal(
                TerminalValidationError::TooSmall {
                    actual: environment.terminal_size,
                    minimum: TerminalSize { width: 80, height: 24 },
                },
            ),
        ),
        environment.stdout_is_terminal && environment.terminal_size.width >= 80
            && environment.terminal_size.height >= 24 ==> result == Ok::<StartupReport, AppError>(
            StartupReport {
                terminal_size: environment.terminal_size,
                color_capability: spec_color_capability(environment.color_environment),
            },
        ),
{
    let mut message = String::new();
    append_str(&mut message, "validating terminal environment for ");
    append_decimal(&mut message, environment.terminal_size.width as u64);
    append_str(&mut message, "x");
    append_decimal(&mut message, environment.terminal_size.height as u64);
    record_text(traces, "startup", message);
    let ghost after_first = event_texts(traces.spec_events());
    match validate_terminal_environment(environment.stdout_is_terminal, environment.terminal_size) {
        Ok(()) => {},
        Err(error) => {
            proof {
                if old(traces).spec_enabled() {
                    assert(after_first =~= event_texts(old(traces).spec_events()) + spec_startup_events(
                        environment,
                    ));
                }
            }
            return Err(AppError::from(error));
        },
    }
    let color_capability = record_color_capability(&environment, traces);
    record_graphics_environment(&environment, traces);
    let mut done = String::new();
    append_str(&mut done, "startup validated for pixel canvas graphics runtime");
    record_text(traces, "startup", done);
    proof {
        if old(traces).spec_enabled() {
            assert(event_texts(traces.spec_events()) =~= event_texts(old(traces).spec_events())
                + spec_startup_events(environment));
        }
    }
    Ok(StartupReport { terminal_size: environment.terminal_size, color_capability })
}

} // verus!
