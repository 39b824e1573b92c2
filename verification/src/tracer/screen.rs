//! Which of the tracer's screens is shown, and what moving between them
//! asks the caller to do.
use crate::tracer::live::LiveAction;
use crate::tracer::setup::SetupAction;
use vstd::prelude::*;

verus! {

/// The screen on display.
#[derive(Clone, Copy, Debug, PartialEq, Eq, Structural)]
pub enum Screen {
    Setup,
    Generating,
    Live,
    Result,
}

/// What happened since the last step.
#[derive(Clone, Copy, Debug, PartialEq, Eq, Structural)]
pub enum ScreenEvent {
    /// A frame was drawn; `generation_done` tells whether the dataset
    /// being generated is complete.
    Tick { generation_done: bool },
    /// The setup screen's answer to a key.
    Setup(SetupAction),
    /// The live screen's answer to a key.
    Live(LiveAction),
    /// `q` on a screen whose own state ignores keys.
    Quit,
    /// `r` on the result screen.
    Restart,
    /// Ctrl-C, on any screen.
    Interrupt,
}

/// What the caller must do after a step.
#[derive(Clone, Copy, Debug, PartialEq, Eq, Structural)]
pub enum ScreenCommand {
    Nothing,
    /// Leave the program.
    Exit,
    /// Start generating the dataset.
    StartGeneration,
    /// Build a fresh live screen and start the first run.
    StartLive,
    /// Build the result screen from the finished runs.
    ShowResult,
    /// Drop the runs and their results, keeping the setup and the dataset.
    ResetRuns,
}

/// The screen and command after `event` on `screen`: Ctrl-C leaves from
/// anywhere; setup leaves, generates or starts the runs as its key asked;
/// a completed generation starts the runs; the live screen leaves or shows
/// the result as its key asked; `q` leaves the generating and result
/// screens; `r` on the result screen returns to setup.  Anything else
/// changes nothing.
pub open spec fn spec_next_screen(screen: Screen, event: ScreenEvent) -> (Screen, ScreenCommand) {
    match (screen, event) {
        (_, ScreenEvent::Interrupt) => (screen, ScreenCommand::Exit),
        (Screen::Setup, ScreenEvent::Setup(SetupAction::Quit)) => (screen, ScreenCommand::Exit),
        (Screen::Setup, ScreenEvent::Setup(SetupAction::Generate)) => (
            Screen::Generating,
            ScreenCommand::StartGeneration,
        ),
        (Screen::Setup, ScreenEvent::Setup(SetupAction::StartRuns)) => (
            Screen::Live,
            ScreenCommand::StartLive,
        ),
        (Screen::Generating, ScreenEvent::Tick { generation_done: true }) => (
            Screen::Live,
            ScreenCommand::StartLive,
        ),
        (Screen::Generating, ScreenEvent::Quit) => (screen, ScreenCommand::Exit),
        (Screen::Live, ScreenEvent::Live(LiveAction::Quit)) => (screen, ScreenCommand::Exit),
        (Screen::Live, ScreenEvent::Live(LiveAction::ShowResult)) => (
            Screen::Result,
            ScreenCommand::ShowResult,
        ),
        (Screen::Result, ScreenEvent::Quit) => (screen, ScreenCommand::Exit),
        (Screen::Result, ScreenEvent::Restart) => (Screen::Setup, ScreenCommand::ResetRuns),
        _ => (screen, ScreenCommand::Nothing),
    }
}

/// One step of the screen switching.
pub fn next_screen(screen: Screen, event: ScreenEvent) -> (r: (Screen, ScreenCommand))
    ensures
        r == spec_next_screen(screen, event),
{
    match (screen, event) {
        (_, ScreenEvent::Interrupt) => (screen, ScreenCommand::Exit),
        (Screen::Setup, ScreenEvent::Setup(SetupAction::Quit)) => (screen, ScreenCommand::Exit),
        (Screen::Setup, ScreenEvent::Setup(SetupAction::Generate)) => (
            Screen::Generating,
            ScreenCommand::StartGeneration,
        ),
        (Screen::Setup, ScreenEvent::Setup(SetupAction::StartRuns)) => (
            Screen::Live,
            ScreenCommand::StartLive,
        ),
        (Screen::Generating, ScreenEvent::Tick { generation_done: true }) => (
            Screen::Live,
            ScreenCommand::StartLive,
        ),
        (Screen::Generating, ScreenEvent::Quit) => (screen, ScreenCommand::Exit),
        (Screen::Live, ScreenEvent::Live(LiveAction::Quit)) => (screen, ScreenCommand::Exit),
        (Screen::Live, ScreenEvent::Live(LiveAction::ShowResult)) => (
            Screen::Result,
            ScreenCommand::ShowResult,
        ),
        (Screen::Result, ScreenEvent::Quit) => (screen, ScreenCommand::Exit),
        (Screen::Result, ScreenEvent::Restart) => (Screen::Setup, ScreenCommand::ResetRuns),
        _ => (screen, ScreenCommand::Nothing),
    }
}

/// Ctrl-C leaves the program from every screen.
pub proof fn law_interrupt_always_exits(screen: Screen)
    ensures
        spec_next_screen(screen, ScreenEvent::Interrupt) == (screen, ScreenCommand::Exit),
{
}

/// A step that changes the screen always asks for the work the new screen
/// needs: generating, starting the runs, building the result, or dropping
/// the runs on the way back to setup; and a step that asks to leave never
/// changes the screen.
pub proof fn law_screen_changes_carry_their_work(screen: Screen, event: ScreenEvent)
    ensures
        ({
            let (next, command) = spec_next_screen(screen, event);
            &&& next != screen ==> match next {
                Screen::Generating => command == ScreenCommand::StartGeneration,
                Screen::Live => command == ScreenCommand::StartLive,
                Screen::Result => command == ScreenCommand::ShowResult,
                Screen::Setup => command == ScreenCommand::ResetRuns,
            }
            &&& command == ScreenCommand::Exit ==> next == screen
        }),
{
}

} // verus!
