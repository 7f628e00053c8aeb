use computer_use::events::{watch_effect, WatchEvent};
use computer_use::observe::{actionable, capture_consistent, Observation, ServerState};

fn test_state() -> ServerState {
    ServerState::new()
}

fn insert_observation(state: &mut ServerState, id: &str, generation: u64) {
    state.insert_observation(
        id.to_string(),
        Observation {
            monitor: "eDP-1".into(),
            image_width: 100,
            image_height: 100,
            generation,
            fingerprint: 0,
        },
    );
}

#[test]
fn observation_survives_matching_generation() {
    let mut state = test_state();
    insert_observation(&mut state, "obs-1", 0);
    assert!(state.observation_current("obs-1", 0).is_ok());
}

#[test]
fn generation_bump_invalidates_observation() {
    // Any display event, change-and-restore, or socket loss bumps the
    // generation; fingerprint equality cannot rescue an old observation.
    let mut state = test_state();
    insert_observation(&mut state, "obs-1", 0);
    let generation = 0u64 + 1;
    assert!(state.observation_current("obs-1", generation).is_err());
}

#[test]
fn newer_observation_supersedes_same_monitor() {
    let mut state = test_state();
    insert_observation(&mut state, "obs-old", 0);
    // The observe path: keep only latest per monitor.
    state.record_observation_as(
        "obs-new".to_string(),
        Observation {
            monitor: "eDP-1".into(),
            image_width: 100,
            image_height: 100,
            generation: 0,
            fingerprint: 0,
        },
    );
    assert!(state.observation_current("obs-old", 0).is_err());
    assert!(state.observation_current("obs-new", 0).is_ok());
}

#[test]
fn unknown_observation_rejected() {
    // Covers server restart: a new process has an empty store.
    let state = test_state();
    assert!(state.observation_current("never-issued", 0).is_err());
}

#[test]
fn observation_errors_name_the_reason() {
    let mut state = test_state();
    insert_observation(&mut state, "obs-1", 4);
    assert_eq!(state.observation_current("obs-1", 5), Err("stale observation: display configuration changed"));
    assert_eq!(state.observation_current("obs-2", 4), Err("unknown or expired observation"));
}

#[test]
fn other_monitor_observations_survive_a_capture() {
    let mut state = test_state();
    insert_observation(&mut state, "obs-edp", 2);
    let id = state.record_observation(Observation {
        monitor: "DP-1".into(),
        image_width: 1920,
        image_height: 1080,
        generation: 2,
        fingerprint: 9,
    });
    assert!(state.observation_current("obs-edp", 2).is_ok());
    assert!(state.observation_current(&id, 2).is_ok());
    assert_eq!(id.len(), 36);
}

#[test]
fn revision_joins_epoch_generation_and_hex_fingerprint() {
    let state = test_state();
    let r = state.revision(42, 0xab);
    let parts: Vec<&str> = r.rsplitn(3, '-').collect();
    assert_eq!(parts[0], "00000000000000ab");
    assert_eq!(parts[1], "42");
    assert_eq!(parts[2].len(), 36);
    let other = ServerState::new();
    assert_ne!(state.revision(1, 1), other.revision(1, 1));
}

#[test]
fn actionable_needs_both_channels() {
    assert!(actionable(true, true));
    assert!(!actionable(true, false));
    assert!(!actionable(false, true));
}

#[test]
fn capture_needs_stable_generation_and_fingerprint() {
    assert!(capture_consistent(3, 7, 3, 7));
    assert!(!capture_consistent(3, 7, 4, 7));
    assert!(!capture_consistent(3, 7, 3, 8));
}

fn is_v4_uuid(s: &str) -> bool {
    let b = s.as_bytes();
    b.len() == 36
        && b.iter().enumerate().all(|(i, c)| {
            if [8, 13, 18, 23].contains(&i) { *c == b'-' } else { c.is_ascii_digit() || (b'a'..=b'f').contains(c) }
        })
        && b[14] == b'4'
        && b"89ab".contains(&b[19])
}

#[test]
fn observation_ids_and_epoch_are_v4_uuids() {
    let mut state = ServerState::new();
    let id = state.record_observation(Observation {
        monitor: "eDP-1".into(),
        image_width: 1,
        image_height: 1,
        generation: 0,
        fingerprint: 0,
    });
    assert!(is_v4_uuid(&id), "{id}");
    assert!(state.observation_current(&id, 0).is_ok());
    let revision = state.revision(7, 0xff);
    assert!(is_v4_uuid(&revision[..36]), "{revision}");
    assert_eq!(&revision[36..], "-7-00000000000000ff");
}

#[test]
fn display_event_or_lost_channel_makes_observation_stale() {
    let mut state = test_state();
    let g = u64::MAX;
    insert_observation(&mut state, "obs-1", g);
    let quiet = watch_effect(&WatchEvent::IpcLine("activewindow>>kitty,~".into()));
    assert!(!quiet.bump_generation);
    assert!(state.observation_current("obs-1", g).is_ok());
    for ev in [WatchEvent::IpcLine("monitoradded>>DP-2".into()), WatchEvent::Ended, WatchEvent::OutputEvent] {
        let effect = watch_effect(&ev);
        assert!(effect.bump_generation);
        // The shared counter wraps; the bumped value still differs.
        let next = g.wrapping_add(1);
        assert_eq!(state.observation_current("obs-1", next), Err("stale observation: display configuration changed"));
    }
}
