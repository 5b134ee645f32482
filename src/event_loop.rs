use vstd::prelude::*;

use crate::hit_test::{hit, hit_test, HitTestResult, ScaleFactor};
use crate::window_control::{Direction, WindowRequest};

verus! {

/// What the event loop is asked to do; its only input besides the native
/// close request.
#[derive(Clone, Debug)]
pub enum AppEvent {
    RunScript(String),
    DragWindow,
    Minimize,
    ToggleMaximize,
    CloseWindow,
    Resize(Direction),
    MouseMove(i32, i32),
    MouseDown(i32, i32),
    InboundHostMessage(String),
}

/// One input taken by the loop.
#[derive(Clone, Debug)]
pub enum LoopInput {
    CloseRequested,
    App(AppEvent),
}

#[derive(Clone, Copy, Debug, PartialEq, Eq, Structural)]
pub enum LoopState {
    Running,
    Exiting,
}

/// The native work that one step of the loop asks for.
#[derive(Clone, Debug)]
pub enum LoopAction {
    Evaluate(String),
    Minimize,
    ToggleMaximize,
    Drag,
    Resize(Direction),
    SetCursor(HitTestResult),
    ReleaseViewAndExit,
    Report(String),
    Nothing,
}

/// The window's physical size and scale, as the loop sees them when it steps.
#[derive(Clone, Copy, Debug, PartialEq, Eq, Structural)]
pub struct Geometry {
    pub width: u32,
    pub height: u32,
    pub scale: ScaleFactor,
}

/// The event that a decoded window-control message becomes.
pub open spec fn request_event(r: WindowRequest) -> AppEvent {
    match r {
        WindowRequest::Minimize => AppEvent::Minimize,
        WindowRequest::ToggleMaximize => AppEvent::ToggleMaximize,
        WindowRequest::Close => AppEvent::CloseWindow,
        WindowRequest::Drag => AppEvent::DragWindow,
        WindowRequest::Resize(d) => AppEvent::Resize(d),
        WindowRequest::MouseMove(x, y) => AppEvent::MouseMove(x, y),
        WindowRequest::MouseDown(x, y) => AppEvent::MouseDown(x, y),
    }
}

pub fn event_for_request(r: WindowRequest) -> (e: AppEvent)
    ensures
        e == request_event(r),
{
    match r {
        WindowRequest::Minimize => AppEvent::Minimize,
        WindowRequest::ToggleMaximize => AppEvent::ToggleMaximize,
        WindowRequest::Close => AppEvent::CloseWindow,
        WindowRequest::Drag => AppEvent::DragWindow,
        WindowRequest::Resize(d) => AppEvent::Resize(d),
        WindowRequest::MouseMove(x, y) => AppEvent::MouseMove(x, y),
        WindowRequest::MouseDown(x, y) => AppEvent::MouseDown(x, y),
    }
}

/// The resize direction of a border hit, if it is one.
pub open spec fn border_direction(h: HitTestResult) -> Option<Direction> {
    match h {
        HitTestResult::Left => Some(Direction::West),
        HitTestResult::Right => Some(Direction::East),
        HitTestResult::Top => Some(Direction::North),
        HitTestResult::Bottom => Some(Direction::South),
        HitTestResult::TopLeft => Some(Direction::NorthWest),
        HitTestResult::TopRight => Some(Direction::NorthEast),
        HitTestResult::BottomLeft => Some(Direction::SouthWest),
        HitTestResult::BottomRight => Some(Direction::SouthEast),
        _ => None,
    }
}

pub fn direction_of_hit(h: HitTestResult) -> (r: Option<Direction>)
    ensures
        r == border_direction(h),
{
    match h {
        HitTestResult::Left => Some(Direction::West),
        HitTestResult::Right => Some(Direction::East),
        HitTestResult::Top => Some(Direction::North),
        HitTestResult::Bottom => Some(Direction::South),
        HitTestResult::TopLeft => Some(Direction::NorthWest),
        HitTestResult::TopRight => Some(Direction::NorthEast),
        HitTestResult::BottomLeft => Some(Direction::SouthWest),
        HitTestResult::BottomRight => Some(Direction::SouthEast),
        _ => None,
    }
}

/// One step of the loop: the next state and the action to perform.
/// `Exiting` is terminal and every input taken there is discarded.
pub open spec fn next(state: LoopState, input: LoopInput, g: Geometry) -> (LoopState, LoopAction) {
    match state {
        LoopState::Exiting => (LoopState::Exiting, LoopAction::Nothing),
        LoopState::Running => match input {
            LoopInput::CloseRequested => (LoopState::Exiting, LoopAction::ReleaseViewAndExit),
            LoopInput::App(e) => match e {
                AppEvent::CloseWindow => (LoopState::Exiting, LoopAction::ReleaseViewAndExit),
                AppEvent::RunScript(js) => (LoopState::Running, LoopAction::Evaluate(js)),
                AppEvent::DragWindow => (LoopState::Running, LoopAction::Drag),
                AppEvent::Minimize => (LoopState::Running, LoopAction::Minimize),
                AppEvent::ToggleMaximize => (LoopState::Running, LoopAction::ToggleMaximize),
                AppEvent::Resize(d) => (LoopState::Running, LoopAction::Resize(d)),
                AppEvent::MouseMove(x, y) => (
                    LoopState::Running,
                    LoopAction::SetCursor(hit(g.width, g.height, x, y, g.scale)),
                ),
                AppEvent::MouseDown(x, y) => (
                    LoopState::Running,
                    match border_direction(hit(g.width, g.height, x, y, g.scale)) {
                        Some(d) => LoopAction::Resize(d),
                        None => LoopAction::Nothing,
                    },
                ),
                AppEvent::InboundHostMessage(m) => (LoopState::Running, LoopAction::Report(m)),
            },
        },
    }
}

/// Takes one input in `state`; `geometry` is the window as it stands.
pub fn step(state: LoopState, input: LoopInput, geometry: Geometry) -> (r: (LoopState, LoopAction))
    requires
        geometry.scale.valid(),
    ensures
        r == next(state, input, geometry),
{
    match state {
        LoopState::Exiting => (LoopState::Exiting, LoopAction::Nothing),
        LoopState::Running => match input {
            LoopInput::CloseRequested => (LoopState::Exiting, LoopAction::ReleaseViewAndExit),
            LoopInput::App(e) => match e {
                AppEvent::CloseWindow => (LoopState::Exiting, LoopAction::ReleaseViewAndExit),
                AppEvent::RunScript(js) => (LoopState::Running, LoopAction::Evaluate(js)),
                AppEvent::DragWindow => (LoopState::Running, LoopAction::Drag),
                AppEvent::Minimize => (LoopState::Running, LoopAction::Minimize),
                AppEvent::ToggleMaximize => (LoopState::Running, LoopAction::ToggleMaximize),
                AppEvent::Resize(d) => (LoopState::Running, LoopAction::Resize(d)),
                AppEvent::MouseMove(x, y) => {
                    let h = hit_test(geometry.width, geometry.height, x, y, geometry.scale);
                    (LoopState::Running, LoopAction::SetCursor(h))
                },
                AppEvent::MouseDown(x, y) => {
                    let h = hit_test(geometry.width, geometry.height, x, y, geometry.scale);
                    match direction_of_hit(h) {
                        Some(d) => (LoopState::Running, LoopAction::Resize(d)),
                        None => (LoopState::Running, LoopAction::Nothing),
                    }
                },
                AppEvent::InboundHostMessage(m) => (LoopState::Running, LoopAction::Report(m)),
            },
        },
    }
}

/// Once the loop is exiting it stays so, and no input taken after that has
/// any effect.
pub proof fn lemma_exiting_is_terminal(input: LoopInput, g: Geometry)
    ensures
        next(LoopState::Exiting, input, g) == (LoopState::Exiting, LoopAction::Nothing),
{
}

/// A native close request and a close event both release the view and exit.
pub proof fn lemma_close_exits(g: Geometry)
    ensures
        next(LoopState::Running, LoopInput::CloseRequested, g) == (
            LoopState::Exiting,
            LoopAction::ReleaseViewAndExit,
        ),
        next(LoopState::Running, LoopInput::App(AppEvent::CloseWindow), g) == (
            LoopState::Exiting,
            LoopAction::ReleaseViewAndExit,
        ),
{
}

} // verus!
