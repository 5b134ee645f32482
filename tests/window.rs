use dry::event_loop::{
    direction_of_hit, event_for_request, step, AppEvent, Geometry, LoopAction, LoopInput, LoopState,
};
use dry::hit_test::{hit_test, HitTestResult, ScaleFactor};
use dry::window_control::{handle_window_requests, Direction, WindowRequest};

const ONE: ScaleFactor = ScaleFactor { numerator: 1, denominator: 1 };

#[test]
fn resize_south_west_gives_one_event() {
    let r = handle_window_requests("window_control:resize:south-west");
    assert_eq!(r, Some(WindowRequest::Resize(Direction::SouthWest)));
    assert!(matches!(event_for_request(r.unwrap()), AppEvent::Resize(Direction::SouthWest)));
}

#[test]
fn mouse_move_missing_coordinate_gives_nothing() {
    assert_eq!(handle_window_requests("window_control:mouse_move:12"), None);
}

#[test]
fn decodes_every_action() {
    assert_eq!(handle_window_requests("window_control:minimize"), Some(WindowRequest::Minimize));
    assert_eq!(
        handle_window_requests("window_control:toggle_maximize"),
        Some(WindowRequest::ToggleMaximize)
    );
    assert_eq!(handle_window_requests("window_control:close"), Some(WindowRequest::Close));
    assert_eq!(handle_window_requests("window_control:drag"), Some(WindowRequest::Drag));
    assert_eq!(
        handle_window_requests("window_control:mouse_move:120,340"),
        Some(WindowRequest::MouseMove(120, 340))
    );
    assert_eq!(
        handle_window_requests("window_control:mouse_down:-4,0"),
        Some(WindowRequest::MouseDown(-4, 0))
    );
    let dirs = [
        ("north", Direction::North),
        ("south", Direction::South),
        ("east", Direction::East),
        ("west", Direction::West),
        ("north-east", Direction::NorthEast),
        ("north-west", Direction::NorthWest),
        ("south-east", Direction::SouthEast),
        ("south-west", Direction::SouthWest),
    ];
    for (name, d) in dirs {
        let msg = format!("window_control:resize:{name}");
        assert_eq!(handle_window_requests(&msg), Some(WindowRequest::Resize(d)));
    }
}

#[test]
fn rejects_bad_window_messages() {
    for msg in [
        "window_control",
        "window_control:",
        "window_control:shrink",
        "window_control:resize",
        "window_control:resize:up",
        "window_control:mouse_move:a,b",
        "window_control:mouse_down:1,",
        "window_control:mouse_move:2147483648,0",
        "window_control:Minimize",
    ] {
        assert_eq!(handle_window_requests(msg), None, "{msg}");
    }
}

#[test]
fn hit_test_edges_corners_and_client() {
    assert_eq!(hit_test(800, 600, 400, 300, ONE), HitTestResult::Client);
    assert_eq!(hit_test(800, 600, 2, 300, ONE), HitTestResult::Left);
    assert_eq!(hit_test(800, 600, 797, 300, ONE), HitTestResult::Right);
    assert_eq!(hit_test(800, 600, 400, 4, ONE), HitTestResult::Top);
    assert_eq!(hit_test(800, 600, 400, 595, ONE), HitTestResult::Bottom);
    assert_eq!(hit_test(800, 600, 0, 0, ONE), HitTestResult::TopLeft);
    assert_eq!(hit_test(800, 600, 799, 0, ONE), HitTestResult::TopRight);
    assert_eq!(hit_test(800, 600, 1, 599, ONE), HitTestResult::BottomLeft);
    assert_eq!(hit_test(800, 600, 799, 599, ONE), HitTestResult::BottomRight);
}

#[test]
fn hit_test_band_boundaries() {
    assert_eq!(hit_test(800, 600, 5, 300, ONE), HitTestResult::Client);
    assert_eq!(hit_test(800, 600, 4, 300, ONE), HitTestResult::Left);
    assert_eq!(hit_test(800, 600, 795, 300, ONE), HitTestResult::Right);
    assert_eq!(hit_test(800, 600, 794, 300, ONE), HitTestResult::Client);
}

#[test]
fn hit_test_with_scale() {
    let two = ScaleFactor { numerator: 2, denominator: 1 };
    // logical width 400, inset 10
    assert_eq!(hit_test(800, 600, 9, 150, two), HitTestResult::Left);
    assert_eq!(hit_test(800, 600, 10, 150, two), HitTestResult::Client);
    assert_eq!(hit_test(800, 600, 390, 150, two), HitTestResult::Right);
    assert_eq!(hit_test(800, 600, 389, 150, two), HitTestResult::Client);
    let one_and_half = ScaleFactor { numerator: 3, denominator: 2 };
    // inset 7.5, logical height 400
    assert_eq!(hit_test(600, 600, 200, 7, one_and_half), HitTestResult::Top);
    assert_eq!(hit_test(600, 600, 200, 8, one_and_half), HitTestResult::Client);
    assert_eq!(hit_test(600, 600, 200, 393, one_and_half), HitTestResult::Bottom);
    assert_eq!(hit_test(600, 600, 200, 392, one_and_half), HitTestResult::Client);
}

#[test]
fn hit_test_tiny_window_is_nowhere() {
    assert_eq!(hit_test(6, 600, 3, 300, ONE), HitTestResult::NoWhere);
}

fn geometry() -> Geometry {
    Geometry { width: 800, height: 600, scale: ONE }
}

#[test]
fn loop_runs_window_events() {
    let (s, a) = step(LoopState::Running, LoopInput::App(AppEvent::RunScript("x()".into())), geometry());
    assert_eq!(s, LoopState::Running);
    assert!(matches!(a, LoopAction::Evaluate(js) if js == "x()"));
    let (s, a) = step(LoopState::Running, LoopInput::App(AppEvent::Minimize), geometry());
    assert_eq!(s, LoopState::Running);
    assert!(matches!(a, LoopAction::Minimize));
    let (_, a) = step(LoopState::Running, LoopInput::App(AppEvent::ToggleMaximize), geometry());
    assert!(matches!(a, LoopAction::ToggleMaximize));
    let (_, a) = step(LoopState::Running, LoopInput::App(AppEvent::DragWindow), geometry());
    assert!(matches!(a, LoopAction::Drag));
    let (_, a) = step(
        LoopState::Running,
        LoopInput::App(AppEvent::Resize(Direction::East)),
        geometry(),
    );
    assert!(matches!(a, LoopAction::Resize(Direction::East)));
    let (_, a) = step(
        LoopState::Running,
        LoopInput::App(AppEvent::InboundHostMessage("hi".into())),
        geometry(),
    );
    assert!(matches!(a, LoopAction::Report(m) if m == "hi"));
}

#[test]
fn loop_mouse_events_use_hit_test() {
    let (_, a) = step(LoopState::Running, LoopInput::App(AppEvent::MouseMove(0, 0)), geometry());
    assert!(matches!(a, LoopAction::SetCursor(HitTestResult::TopLeft)));
    let (_, a) = step(LoopState::Running, LoopInput::App(AppEvent::MouseDown(799, 300)), geometry());
    assert!(matches!(a, LoopAction::Resize(Direction::East)));
    let (_, a) = step(LoopState::Running, LoopInput::App(AppEvent::MouseDown(400, 300)), geometry());
    assert!(matches!(a, LoopAction::Nothing));
    assert_eq!(direction_of_hit(HitTestResult::BottomLeft), Some(Direction::SouthWest));
    assert_eq!(direction_of_hit(HitTestResult::Client), None);
}

#[test]
fn loop_close_is_terminal() {
    let (s, a) = step(LoopState::Running, LoopInput::CloseRequested, geometry());
    assert_eq!(s, LoopState::Exiting);
    assert!(matches!(a, LoopAction::ReleaseViewAndExit));
    let (s, a) = step(LoopState::Running, LoopInput::App(AppEvent::CloseWindow), geometry());
    assert_eq!(s, LoopState::Exiting);
    assert!(matches!(a, LoopAction::ReleaseViewAndExit));
    for input in [
        LoopInput::CloseRequested,
        LoopInput::App(AppEvent::RunScript("late()".into())),
        LoopInput::App(AppEvent::Minimize),
        LoopInput::App(AppEvent::CloseWindow),
    ] {
        let (s, a) = step(LoopState::Exiting, input, geometry());
        assert_eq!(s, LoopState::Exiting);
        assert!(matches!(a, LoopAction::Nothing));
    }
}
