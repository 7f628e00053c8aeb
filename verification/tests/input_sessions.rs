use computer_use::handoff::{after_connect, before_request, keep_session, WorkerAction};
use computer_use::keyboard::{
    candidate_keysyms, capitalize, key_name_candidates, keyboard_outcome, keyboard_reply,
    resolve_key_names, resolve_key_ops, KeyOp, KeyRequest, KeymapTable, ResolvedKeyOp,
    Session as KeyboardSession,
};
use computer_use::pointer::{
    pointer_outcome, pointer_reply, Delivery, PointerOp, PointerRequest, Session as PointerSession, BTN_LEFT, BTN_RIGHT,
};

#[test]
fn pointer_click_then_sync_completes() {
    let mut s = PointerSession::new();
    s.begin_batch();
    assert!(s.check_guard(true).is_none());
    let r = s.dispatch(&PointerOp::Move { x: 10, y: 20, x_extent: 100, y_extent: 200 });
    assert_eq!(r, vec![PointerRequest::MotionAbsolute { time: 1, x: 10, y: 20, x_extent: 100, y_extent: 200 }]);
    let r = s.dispatch(&PointerOp::Button { code: BTN_LEFT, pressed: true });
    assert_eq!(r, vec![PointerRequest::Button { time: 2, code: BTN_LEFT, pressed: true }]);
    assert!(s.holds_input());
    s.dispatch(&PointerOp::Button { code: BTN_LEFT, pressed: false });
    assert!(!s.holds_input());
    assert!(s.after_flush(true).is_none());
    let (reqs, d) = s.after_roundtrip(true);
    assert!(reqs.is_empty());
    assert_eq!(d, Delivery::Completed);
    assert!(!s.broken());
}

#[test]
fn pointer_guard_mismatch_releases_and_reports_partial() {
    let mut s = PointerSession::new();
    s.begin_batch();
    s.dispatch(&PointerOp::Button { code: BTN_LEFT, pressed: true });
    s.dispatch(&PointerOp::Button { code: BTN_RIGHT, pressed: true });
    let (reqs, d) = s.check_guard(false).unwrap();
    assert_eq!(d, Delivery::Partial);
    assert_eq!(
        reqs,
        vec![
            PointerRequest::Button { time: 3, code: BTN_LEFT, pressed: false },
            PointerRequest::Button { time: 4, code: BTN_RIGHT, pressed: false },
            PointerRequest::Frame,
            PointerRequest::Flush,
        ]
    );
    assert!(!s.holds_input());
}

#[test]
fn pointer_guard_mismatch_before_any_op_is_nothing() {
    let mut s = PointerSession::new();
    s.begin_batch();
    let (reqs, d) = s.check_guard(false).unwrap();
    assert_eq!(d, Delivery::Nothing);
    assert_eq!(reqs, vec![PointerRequest::Frame, PointerRequest::Flush]);
}

#[test]
fn pointer_scroll_and_wait_requests() {
    let mut s = PointerSession::new();
    s.begin_batch();
    let r = s.dispatch(&PointerOp::Scroll { axis: 1, steps: -3 });
    assert_eq!(
        r,
        vec![
            PointerRequest::AxisSourceWheel,
            PointerRequest::AxisDiscrete { time: 1, horizontal: true, value: -360, discrete: -3 },
            PointerRequest::Axis { time: 1, horizontal: true, value: -360 },
        ]
    );
    let r = s.dispatch(&PointerOp::Wait { ms: 5000 });
    assert_eq!(r, vec![PointerRequest::Flush, PointerRequest::Sleep { ms: 2000 }]);
    let r = s.dispatch(&PointerOp::Frame);
    assert_eq!(r, vec![PointerRequest::Frame]);
    let r = s.dispatch(&PointerOp::Scroll { axis: 0, steps: 2 });
    assert_eq!(r[1], PointerRequest::AxisDiscrete { time: 2004, horizontal: false, value: 240, discrete: 2 });
}

#[test]
fn pointer_flush_and_roundtrip_failures_break_the_session() {
    let mut s = PointerSession::new();
    s.begin_batch();
    s.dispatch(&PointerOp::Button { code: BTN_LEFT, pressed: true });
    let (reqs, d) = s.after_flush(false).unwrap();
    assert_eq!(d, Delivery::Partial);
    assert_eq!(reqs.len(), 3);
    assert!(s.broken());

    let mut s = PointerSession::new();
    s.begin_batch();
    s.dispatch(&PointerOp::Frame);
    assert!(s.after_flush(true).is_none());
    let (_, d) = s.after_roundtrip(false);
    assert_eq!(d, Delivery::Unknown);
    assert!(s.broken());
}

#[test]
fn replies_default_to_unknown_on_timeout() {
    assert_eq!(pointer_reply(None), Delivery::Unknown);
    assert_eq!(pointer_reply(Some(Delivery::Partial)), Delivery::Partial);
    assert_eq!(keyboard_reply(None), Ok(Delivery::Unknown));
    assert_eq!(keyboard_reply(Some(Err("x".into()))), Err("x".to_string()));
}

fn table() -> KeymapTable {
    // keycodes 8.. : 8 -> [0xff0d Return], 9 -> [0x61 a, 0x41 A], 10 -> [0x62 b]
    KeymapTable {
        min_keycode: 8,
        level0: vec![vec![0xff0d], vec![0x61], vec![0x62]],
        modifiers: vec!["Shift".into(), "Lock".into(), "Control".into(), "Mod1".into()],
    }
}

#[test]
fn resolves_keys_and_modifiers() {
    let ops = vec![
        KeyOp::Mods { names: vec!["Control".into(), "Shift".into()] },
        KeyOp::Key { name: "a".into(), pressed: true },
        KeyOp::Key { name: "Return".into(), pressed: false },
    ];
    let syms = vec![vec![], vec![0, 0x61, 0x41], vec![0xff0d, 0, 0]];
    let r = resolve_key_ops(&ops, &syms, &table()).unwrap();
    assert_eq!(
        r,
        vec![
            ResolvedKeyOp::Mods { mask: 0b101 },
            ResolvedKeyOp::Key { code: 1, pressed: true },
            ResolvedKeyOp::Key { code: 0, pressed: false },
        ]
    );
}

#[test]
fn unknown_names_reject_the_whole_batch() {
    let ops = vec![
        KeyOp::Key { name: "a".into(), pressed: true },
        KeyOp::Mods { names: vec!["banana".into()] },
    ];
    let syms = vec![vec![0x61, 0x61, 0x41], vec![]];
    assert_eq!(resolve_key_ops(&ops, &syms, &table()), Err("unknown modifier \"banana\"".to_string()));
    let ops = vec![KeyOp::Key { name: "NoSuchKeysym42".into(), pressed: true }];
    let syms = vec![vec![0, 0, 0]];
    assert_eq!(
        resolve_key_ops(&ops, &syms, &table()),
        Err("NoSuchKeysym42".to_string())
    );
    // A symbol that no key of the keymap produces.
    let ops = vec![KeyOp::Key { name: "z".into(), pressed: true }];
    let syms = vec![vec![0x7a, 0x7a, 0x5a]];
    assert!(resolve_key_ops(&ops, &syms, &table()).is_err());
}

#[test]
fn key_below_evdev_offset_has_no_code() {
    let t = KeymapTable { min_keycode: 7, level0: vec![vec![0x61]], modifiers: vec![] };
    let ops = vec![KeyOp::Key { name: "a".into(), pressed: true }];
    assert!(resolve_key_ops(&ops, &vec![vec![0x61]], &t).is_err());
}

#[test]
fn key_name_spellings() {
    assert_eq!(key_name_candidates("RETURN"), vec!["RETURN", "return", "RETURN"]);
    assert_eq!(key_name_candidates("return"), vec!["return", "return", "Return"]);
    assert_eq!(capitalize(""), "");
    assert_eq!(capitalize("ßa"), "SSa");
}

#[test]
fn keyboard_session_tracks_keys_and_modifiers() {
    let mut s = KeyboardSession::new();
    s.begin_batch();
    assert_eq!(s.dispatch(&ResolvedKeyOp::Mods { mask: 4 }), vec![KeyRequest::Modifiers { depressed: 4 }]);
    assert_eq!(
        s.dispatch(&ResolvedKeyOp::Key { code: 30, pressed: true }),
        vec![KeyRequest::Key { time: 1, code: 30, pressed: true }]
    );
    assert!(s.holds_input());
    let (reqs, d) = s.check_guard(false).unwrap();
    assert_eq!(d, Delivery::Partial);
    assert_eq!(
        reqs,
        vec![
            KeyRequest::Key { time: 2, code: 30, pressed: false },
            KeyRequest::Modifiers { depressed: 0 },
            KeyRequest::Flush,
        ]
    );
    assert!(!s.holds_input());
    let (_, d) = s.after_roundtrip(true);
    assert_eq!(d, Delivery::Completed);
}

#[test]
fn keyboard_flush_failure_breaks_session() {
    let mut s = KeyboardSession::new();
    s.begin_batch();
    let (reqs, d) = s.after_flush(false).unwrap();
    assert_eq!(d, Delivery::Nothing);
    assert_eq!(reqs, vec![KeyRequest::Modifiers { depressed: 0 }, KeyRequest::Flush]);
    assert!(s.broken());
}

#[test]
fn click_leaves_other_held_buttons_alone() {
    let mut s = PointerSession::new();
    s.begin_batch();
    s.dispatch(&PointerOp::Button { code: BTN_RIGHT, pressed: true });
    s.dispatch(&PointerOp::Button { code: BTN_LEFT, pressed: true });
    s.dispatch(&PointerOp::Button { code: BTN_LEFT, pressed: false });
    assert!(s.holds_input());
    // Only the button held before the click is still down.
    assert_eq!(
        s.release_all(),
        vec![
            PointerRequest::Button { time: 4, code: BTN_RIGHT, pressed: false },
            PointerRequest::Frame,
            PointerRequest::Flush,
        ]
    );
    assert!(!s.holds_input());
}

/// A stand-in for the keymap library's name lookup, case sensitive.
fn lookup(name: &str) -> u32 {
    match name {
        "Return" => 0xff0d,
        "a" => 0x61,
        "A" => 0x41,
        _ => 0,
    }
}

#[test]
fn key_names_resolve_through_their_spellings() {
    let ops = vec![
        KeyOp::Key { name: "RETURN".into(), pressed: true },
        KeyOp::Mods { names: vec!["Shift".into()] },
        KeyOp::Key { name: "A".into(), pressed: false },
    ];
    // "RETURN" is no keysym, its lowercase neither; "Return" is.
    assert_eq!(candidate_keysyms(&ops, &lookup), vec![vec![0, 0, 0], vec![], vec![0x41, 0x61, 0x41]]);
    assert_eq!(
        resolve_key_names(&ops, &table(), lookup),
        Err("RETURN".to_string())
    );
    let ops = vec![
        KeyOp::Key { name: "return".into(), pressed: true },
        KeyOp::Key { name: "A".into(), pressed: false },
    ];
    // "return" resolves through "Return"; "A" is on no key of the table, so
    // its own keysym decides and the batch is rejected with the name.
    assert_eq!(resolve_key_names(&ops, &table(), lookup), Err("A".to_string()));
    let ops = vec![KeyOp::Key { name: "return".into(), pressed: true }];
    assert_eq!(resolve_key_names(&ops, &table(), lookup), Ok(vec![ResolvedKeyOp::Key { code: 0, pressed: true }]));
}

#[test]
fn gone_input_thread_means_nothing_was_sent() {
    assert_eq!(pointer_outcome(false, Some(Delivery::Completed)), Delivery::Nothing);
    assert_eq!(pointer_outcome(true, None), Delivery::Unknown);
    assert_eq!(pointer_outcome(true, Some(Delivery::Partial)), Delivery::Partial);
    assert_eq!(keyboard_outcome(false, None), Ok(Delivery::Nothing));
    assert_eq!(keyboard_outcome(true, None), Ok(Delivery::Unknown));
    assert_eq!(keyboard_outcome(true, Some(Err("z".into()))), Err("z".to_string()));
}

#[test]
fn input_thread_connects_lazily_and_reconnects_after_failure() {
    // First request: no connection yet.
    assert_eq!(before_request(false), WorkerAction::Connect);
    // The connection failed: nothing was sent, and the next request retries.
    assert_eq!(after_connect(false), WorkerAction::AnswerNothing);
    assert_eq!(after_connect(true), WorkerAction::Serve);
    // A sound session is kept and serves the next request; a broken one is
    // dropped, so the next request connects anew.
    assert!(keep_session(false));
    assert!(!keep_session(true));
    assert_eq!(before_request(keep_session(false)), WorkerAction::Serve);
    assert_eq!(before_request(keep_session(true)), WorkerAction::Connect);
}
