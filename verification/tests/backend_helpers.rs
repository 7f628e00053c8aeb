use computer_use::backend::{
    active_window_monitor, clipboard_result, run_result, spawn_error, BackendError,
    ProcessOutcome, WaitOutcome, MAX_CAPTURE_BYTES,
};
use computer_use::events::{
    is_display_event, keyboard_binds, output_bind_version, pointer_manager_binds,
    wayland_display_choice, watch_effect, BindTarget, GlobalInfo, WatchEvent,
};
use computer_use::tool::{tool_content, ContentBlock};

#[test]
fn error_messages_and_codes() {
    let e = BackendError::Missing("grim capture");
    assert_eq!(e.message(), "missing dependency or session: grim capture");
    assert_eq!(e.code(), "MISSING_DEPENDENCY");
    let e = BackendError::Timeout("hyprctl monitors");
    assert_eq!(e.message(), "hyprctl monitors timed out");
    assert_eq!(e.code(), "BACKEND_TIMEOUT");
    let e = BackendError::TooLarge(MAX_CAPTURE_BYTES);
    assert_eq!(e.message(), "capture exceeded 50331648 byte limit");
    assert_eq!(e.code(), "CAPTURE_TOO_LARGE");
    let e = BackendError::Failed("boom".into());
    assert_eq!(e.message(), "boom");
    assert_eq!(e.code(), "BACKEND_FAILED");
}

#[test]
fn run_outcomes() {
    assert!(matches!(run_result("x", ProcessOutcome::TimedOut), Err(BackendError::Timeout("x"))));
    match run_result("x", ProcessOutcome::WaitFailed("gone".into())) {
        Err(BackendError::Failed(m)) => assert_eq!(m, "x: gone"),
        _ => panic!(),
    }
    let exited = ProcessOutcome::Exited {
        success: false,
        status: "exit status: 1".into(),
        stdout: vec![],
        stderr: "  no such output \n".into(),
    };
    match run_result("grim capture", exited) {
        Err(BackendError::Failed(m)) => assert_eq!(m, "grim capture exited exit status: 1: no such output"),
        _ => panic!(),
    }
    let big = ProcessOutcome::Exited {
        success: true,
        status: String::new(),
        stdout: vec![0; MAX_CAPTURE_BYTES + 1],
        stderr: String::new(),
    };
    assert!(matches!(run_result("x", big), Err(BackendError::TooLarge(n)) if n == MAX_CAPTURE_BYTES));
    let ok = ProcessOutcome::Exited { success: true, status: String::new(), stdout: vec![1, 2], stderr: String::new() };
    assert_eq!(run_result("x", ok).unwrap(), vec![1, 2]);
}

#[test]
fn spawn_and_clipboard_errors() {
    assert!(matches!(spawn_error("wl-copy", true, "x"), BackendError::Missing("wl-copy")));
    match spawn_error("wl-copy", false, "denied") {
        BackendError::Failed(m) => assert_eq!(m, "wl-copy spawn: denied"),
        _ => panic!(),
    }
    match clipboard_result(Some("broken pipe".into()), WaitOutcome::TimedOut) {
        Err(BackendError::Failed(m)) => assert_eq!(m, "wl-copy stdin: broken pipe"),
        _ => panic!(),
    }
    assert!(matches!(clipboard_result(None, WaitOutcome::TimedOut), Err(BackendError::Timeout("wl-copy"))));
    match clipboard_result(None, WaitOutcome::Exited { success: false, status: "exit status: 2".into() }) {
        Err(BackendError::Failed(m)) => assert_eq!(m, "wl-copy exited exit status: 2"),
        _ => panic!(),
    }
    assert!(clipboard_result(None, WaitOutcome::Exited { success: true, status: String::new() }).is_ok());
}

#[test]
fn active_window_parsing() {
    assert_eq!(active_window_monitor(b" \n\t").unwrap(), None);
    assert_eq!(active_window_monitor(b"{\"monitor\": 1, \"title\": \"x\"}").unwrap(), Some(1));
    assert_eq!(active_window_monitor(b"{\"title\": \"x\"}").unwrap(), None);
    assert_eq!(active_window_monitor(b"{\"monitor\": \"DP-1\"}").unwrap(), None);
    match active_window_monitor(b"{nope") {
        Err(BackendError::Failed(m)) => assert!(m.starts_with("activewindow parse: ")),
        _ => panic!(),
    }
}

#[test]
fn display_events_bump_the_generation() {
    assert!(is_display_event("monitoradded>>DP-1"));
    assert!(is_display_event("monitoraddedv2>>1,DP-1,desc"));
    assert!(is_display_event("monitorremoved>>DP-1"));
    assert!(is_display_event("configreloaded>>"));
    assert!(is_display_event("configreloaded"));
    assert!(!is_display_event("configreloadedx>>"));
    assert!(!is_display_event("workspace>>monitoradded"));
    assert!(!is_display_event("activewindow>>kitty,~"));
    let e = watch_effect(&WatchEvent::Ended);
    assert_eq!((e.set_healthy, e.bump_generation), (Some(false), true));
    let e = watch_effect(&WatchEvent::Connected);
    assert_eq!((e.set_healthy, e.bump_generation), (Some(true), false));
    let e = watch_effect(&WatchEvent::IpcLine("monitorremoved>>HDMI-A-1".into()));
    assert_eq!((e.set_healthy, e.bump_generation), (None, true));
    let e = watch_effect(&WatchEvent::IpcLine("openwindow>>1".into()));
    assert_eq!((e.set_healthy, e.bump_generation), (None, false));
    assert!(watch_effect(&WatchEvent::OutputEvent).bump_generation);
    assert!(watch_effect(&WatchEvent::RegistryGlobal).bump_generation);
}

fn g(name: u32, interface: &str, version: u32) -> GlobalInfo {
    GlobalInfo { name, interface: interface.into(), version }
}

#[test]
fn global_binding_choices() {
    assert_eq!(output_bind_version("wl_output", 6), Some(4));
    assert_eq!(output_bind_version("wl_output", 3), Some(3));
    assert_eq!(output_bind_version("wl_seat", 9), None);
    let globals = vec![
        g(1, "wl_seat", 9),
        g(2, "zwlr_virtual_pointer_manager_v1", 2),
        g(3, "wl_seat", 7),
        g(4, "zwp_virtual_keyboard_manager_v1", 1),
        g(5, "zwlr_virtual_pointer_manager_v1", 1),
    ];
    assert_eq!(pointer_manager_binds(&globals), vec![(2, 2), (5, 1)]);
    assert_eq!(
        keyboard_binds(&globals),
        vec![(BindTarget::Seat, 1, 1), (BindTarget::KeyboardManager, 4, 1)]
    );
}

#[test]
fn wayland_display_is_first_by_name() {
    let names: Vec<String> = vec!["wayland-1".into(), "hypr".into(), "wayland-0.lock".into(), "wayland-0".into()];
    assert_eq!(wayland_display_choice(&names), Some(3));
    let none: Vec<String> = vec!["pulse".into()];
    assert_eq!(wayland_display_choice(&none), None);
}

#[test]
fn tool_content_encodes_png() {
    let c = tool_content("{}".into(), Some(vec![1, 2, 3]));
    assert_eq!(c.len(), 2);
    match &c[1] {
        ContentBlock::Image { data, mime_type } => {
            assert_eq!(data, "AQID");
            assert_eq!(*mime_type, "image/png");
        }
        _ => panic!(),
    }
    assert_eq!(tool_content("x".into(), None).len(), 1);
}

#[test]
fn exit_error_trims_unicode_whitespace_only_at_the_ends() {
    let exited = ProcessOutcome::Exited {
        success: false,
        status: "exit status: 2".into(),
        stdout: vec![],
        stderr: "\u{3000}\t bad\u{a0}output\u{2028}\r\n".into(),
    };
    match run_result("hyprctl", exited) {
        Err(BackendError::Failed(m)) => assert_eq!(m, "hyprctl exited exit status: 2: bad\u{a0}output"),
        _ => panic!(),
    }
}
