use computer_use::backend::BackendError;
use computer_use::fingerprint::fingerprint;
use computer_use::monitor::Monitor;
use computer_use::observe::{Observe, ObserveAction, ObserveEvent};

fn mon(name: &str, x: i32, disabled: bool) -> Monitor {
    Monitor {
        name: name.into(),
        description: String::new(),
        x,
        y: 0,
        width: 1920,
        height: 1080,
        scale: "1".into(),
        scaled_width: 1920,
        scaled_height: 1080,
        transform: 0,
        disabled,
        id: 0,
    }
}

fn png(w: u32, h: u32) -> Vec<u8> {
    let mut png = vec![137, 80, 78, 71, 13, 10, 26, 10, 0, 0, 0, 13];
    png.extend_from_slice(b"IHDR");
    png.extend_from_slice(&w.to_be_bytes());
    png.extend_from_slice(&h.to_be_bytes());
    png
}

fn listed(monitors: Vec<Monitor>, generation: u64) -> ObserveEvent {
    ObserveEvent::Listed { monitors: Ok(monitors), generation }
}

fn expect_capture(action: ObserveAction) -> String {
    match action {
        ObserveAction::Capture { monitor } => monitor,
        _ => panic!("expected a capture"),
    }
}

fn expect_reject(action: ObserveAction) -> (&'static str, String) {
    match action {
        ObserveAction::Reject { code, message } => (code, message),
        _ => panic!("expected a refusal"),
    }
}

#[test]
fn observe_delivers_when_configuration_holds() {
    let (mut obs, first) = Observe::new("HDMI-A-1".into());
    assert!(matches!(first, ObserveAction::ListMonitors));
    let before = vec![mon("eDP-1", 0, false), mon("HDMI-A-1", 1920, false)];
    let target = expect_capture(obs.step(listed(before, 4)));
    assert_eq!(target, "HDMI-A-1");
    assert!(matches!(obs.step(ObserveEvent::Captured(Ok(png(1920, 1080)))), ObserveAction::ListMonitors));
    // The compositor may list the same monitors in another order, and a
    // disabled output does not count.
    let after = vec![mon("HDMI-A-1", 1920, false), mon("DP-9", 0, true), mon("eDP-1", 0, false)];
    let expected_fp = fingerprint(&[mon("eDP-1", 0, false), mon("HDMI-A-1", 1920, false)]);
    match obs.step(listed(after, 4)) {
        ObserveAction::Deliver { monitor, width, height, generation, fingerprint, png: image } => {
            assert_eq!(monitor.name, "HDMI-A-1");
            assert_eq!(monitor.x, 1920);
            assert_eq!((width, height), (1920, 1080));
            assert_eq!(generation, 4);
            assert_eq!(fingerprint, expected_fp);
            assert_eq!(image, png(1920, 1080));
        }
        _ => panic!("expected an observation"),
    }
}

#[test]
fn observe_refuses_unknown_or_disabled_monitor() {
    let (mut obs, _) = Observe::new("DP-2".into());
    let (code, message) = expect_reject(obs.step(listed(vec![mon("eDP-1", 0, false), mon("DP-2", 0, true)], 0)));
    assert_eq!(code, "MONITOR_NOT_FOUND");
    assert_eq!(message, "no selectable monitor \"DP-2\"; call computer_monitors");
}

#[test]
fn observe_retries_once_then_refuses_when_configuration_keeps_changing() {
    let (mut obs, _) = Observe::new("eDP-1".into());
    expect_capture(obs.step(listed(vec![mon("eDP-1", 0, false)], 1)));
    obs.step(ObserveEvent::Captured(Ok(png(10, 10))));
    // The generation moved during the capture: list again and retry.
    assert!(matches!(obs.step(listed(vec![mon("eDP-1", 0, false)], 2)), ObserveAction::ListMonitors));
    expect_capture(obs.step(listed(vec![mon("eDP-1", 0, false)], 2)));
    obs.step(ObserveEvent::Captured(Ok(png(10, 10))));
    // This time the layout moved (same generation, other fingerprint).
    let (code, message) = expect_reject(obs.step(listed(vec![mon("eDP-1", 100, false)], 2)));
    assert_eq!(code, "DISPLAY_CONFIGURATION_CHANGED");
    assert_eq!(message, "display configuration changed during capture; call computer_observe again");
}

#[test]
fn observe_refuses_image_that_is_not_png() {
    let (mut obs, _) = Observe::new("eDP-1".into());
    expect_capture(obs.step(listed(vec![mon("eDP-1", 0, false)], 0)));
    obs.step(ObserveEvent::Captured(Ok(b"garbage".to_vec())));
    let (code, message) = expect_reject(obs.step(listed(vec![mon("eDP-1", 0, false)], 0)));
    assert_eq!(code, "CAPTURE_FAILED");
    assert_eq!(message, "grim output was not a PNG");
}

#[test]
fn observe_passes_backend_errors_through() {
    let (mut obs, _) = Observe::new("eDP-1".into());
    expect_capture(obs.step(listed(vec![mon("eDP-1", 0, false)], 0)));
    match obs.step(ObserveEvent::Captured(Err(BackendError::Timeout("grim")))) {
        ObserveAction::Fail(e) => assert_eq!(e.code(), "BACKEND_TIMEOUT"),
        _ => panic!("expected the backend error"),
    }
    let (mut obs, _) = Observe::new("eDP-1".into());
    match obs.step(ObserveEvent::Listed { monitors: Err(BackendError::Missing("hyprctl")), generation: 0 }) {
        ObserveAction::Fail(e) => assert_eq!(e.code(), "MISSING_DEPENDENCY"),
        _ => panic!("expected the backend error"),
    }
}

#[test]
fn observe_accepts_only_the_awaited_event() {
    let (mut obs, _) = Observe::new("eDP-1".into());
    assert!(obs.accepts(&listed(vec![], 0)));
    assert!(!obs.accepts(&ObserveEvent::Captured(Ok(vec![]))));
    expect_capture(obs.step(listed(vec![mon("eDP-1", 0, false)], 0)));
    assert!(obs.accepts(&ObserveEvent::Captured(Ok(vec![]))));
    assert!(!obs.accepts(&listed(vec![], 0)));
}
