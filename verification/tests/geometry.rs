use computer_use::fingerprint::fingerprint;
use computer_use::monitor::{layout_box, monitor_name_for_id, monitor_named, selectable, LayoutBox, Monitor};
use computer_use::png::png_size;

/// A monitor as the server builds it from `hyprctl` output: the extents
/// divided by the scale and rounded, and the scale's decimal text.
fn mon(name: &str, x: i32, y: i32, w: u32, h: u32, scale: f64, t: u8) -> Monitor {
    Monitor {
        name: name.into(),
        description: String::new(),
        x,
        y,
        width: w,
        height: h,
        scale: scale.to_string(),
        scaled_width: (w as f64 / scale).round() as u32,
        scaled_height: (h as f64 / scale).round() as u32,
        transform: t,
        disabled: false,
        id: 0,
    }
}

fn copy(m: &Monitor) -> Monitor {
    Monitor {
        name: m.name.clone(),
        description: m.description.clone(),
        x: m.x,
        y: m.y,
        width: m.width,
        height: m.height,
        scale: m.scale.clone(),
        scaled_width: m.scaled_width,
        scaled_height: m.scaled_height,
        transform: m.transform,
        disabled: m.disabled,
        id: m.id,
    }
}

#[test]
fn logical_size_normal_and_fractional() {
    assert_eq!(
        mon("a", 0, 0, 2560, 1440, 1.25, 0).logical_size(),
        (2048, 1152)
    );
    assert_eq!(
        mon("a", 0, 0, 3840, 2160, 2.0, 0).logical_size(),
        (1920, 1080)
    );
}

#[test]
fn logical_size_swaps_axes_for_90_270_transforms() {
    for t in [1u8, 3, 5, 7] {
        assert_eq!(
            mon("a", 0, 0, 2560, 1440, 1.0, t).logical_size(),
            (1440, 2560)
        );
    }
    for t in [0u8, 2, 4, 6] {
        assert_eq!(
            mon("a", 0, 0, 2560, 1440, 1.0, t).logical_size(),
            (2560, 1440)
        );
    }
}

#[test]
fn fingerprint_tracks_mapping_relevant_facts() {
    let base = vec![mon("eDP-1", 0, 0, 2560, 1440, 1.25, 0)];
    let same = vec![mon("eDP-1", 0, 0, 2560, 1440, 1.25, 0)];
    assert_eq!(fingerprint(&base), fingerprint(&same));
    for altered in [
        vec![mon("eDP-1", 0, 0, 2560, 1440, 1.5, 0)], // scale
        vec![mon("eDP-1", -2048, 0, 2560, 1440, 1.25, 0)], // position
        vec![mon("eDP-1", 0, 0, 2560, 1440, 1.25, 1)], // transform
        vec![mon("DP-1", 0, 0, 2560, 1440, 1.25, 0)], // identity
    ] {
        assert_ne!(fingerprint(&base), fingerprint(&altered));
    }
    let mut disabled_changed = vec![copy(&base[0])];
    disabled_changed[0].disabled = true;
    assert_ne!(fingerprint(&base), fingerprint(&disabled_changed));
}

#[test]
fn layout_box_empty_without_monitors() {
    assert!(layout_box(&[]).is_none());
    let mut disabled = mon("a", 0, 0, 100, 100, 1.0, 0);
    disabled.disabled = true;
    assert!(layout_box(&[disabled]).is_none());
}

#[test]
fn png_size_reads_ihdr() {
    let mut png = vec![137, 80, 78, 71, 13, 10, 26, 10, 0, 0, 0, 13];
    png.extend_from_slice(b"IHDR");
    png.extend_from_slice(&640u32.to_be_bytes());
    png.extend_from_slice(&480u32.to_be_bytes());
    assert_eq!(png_size(&png), Some((640, 480)));
    assert_eq!(png_size(b"not a png"), None);
}

#[test]
fn png_size_rejects_wrong_chunk_and_short_input() {
    let mut png = vec![137, 80, 78, 71, 13, 10, 26, 10, 0, 0, 0, 13];
    png.extend_from_slice(b"IHDX");
    png.extend_from_slice(&[0, 0, 1, 0, 0, 0, 0, 2]);
    assert_eq!(png_size(&png), None);
    png[15] = b'R';
    assert_eq!(png_size(&png), Some((256, 2)));
    assert_eq!(png_size(&png[..23]), None);
}

#[test]
fn layout_box_spans_negative_origin() {
    let left = mon("DP-1", -1920, 0, 1920, 1080, 1.0, 0);
    let right = mon("eDP-1", 0, 0, 3840, 2160, 2.0, 0);
    let b = layout_box(&[left, right]).unwrap();
    assert_eq!(
        (b.min_x, b.min_y, b.x_extent, b.y_extent),
        (-1920, 0, 3840, 1080)
    );
}

#[test]
fn layout_box_of_rotated_monitor() {
    let m = mon("DP-1", 0, 0, 2560, 1440, 1.0, 1);
    assert_eq!(
        layout_box(&[m]),
        Some(LayoutBox { min_x: 0, min_y: 0, x_extent: 1440, y_extent: 2560 })
    );
}

#[test]
fn fingerprint_ignores_order_and_disabled_monitors() {
    let a = mon("DP-1", -1920, 0, 1920, 1080, 1.0, 0);
    let b = mon("eDP-1", 0, 0, 3840, 2160, 2.0, 0);
    let mut off = mon("HDMI-A-1", 0, 1080, 1920, 1080, 1.0, 0);
    off.disabled = true;
    let one = vec![copy(&a), copy(&b)];
    let other = vec![copy(&b), off, copy(&a)];
    assert_eq!(fingerprint(&one), fingerprint(&other));
}

#[test]
fn selectable_keeps_enabled_in_order() {
    let mut off = mon("HDMI-A-1", 0, 0, 10, 10, 1.0, 0);
    off.disabled = true;
    let kept = selectable(vec![mon("a", 0, 0, 1, 1, 1.0, 0), off, mon("b", 0, 0, 1, 1, 1.0, 0)]);
    let names: Vec<&str> = kept.iter().map(|m| m.name.as_str()).collect();
    assert_eq!(names, vec!["a", "b"]);
}

#[test]
fn monitor_lookup_by_id_and_name() {
    let mut a = mon("DP-1", 0, 0, 1, 1, 1.0, 0);
    a.id = 3;
    let mut b = mon("eDP-1", 0, 0, 1, 1, 1.0, 0);
    b.id = 7;
    let ms = vec![a, b];
    assert_eq!(monitor_name_for_id(&ms, 7), Some("eDP-1".to_string()));
    assert_eq!(monitor_name_for_id(&ms, 9), None);
    assert_eq!(monitor_named(&ms, "eDP-1"), Some(1));
    assert_eq!(monitor_named(&ms, "NOPE-9"), None);
}

#[test]
fn layout_box_contains_every_enabled_monitor() {
    let a = mon("DP-1", -1920, -200, 1920, 1080, 1.0, 0);
    let b = mon("DP-2", 0, 0, 2560, 1440, 1.0, 1); // portrait: 1440x2560
    let mut far = mon("HDMI-A-1", 90000, 90000, 1920, 1080, 1.0, 0);
    far.disabled = true;
    let ms = [copy(&a), copy(&b), far];
    let bx = layout_box(&ms).unwrap();
    assert_eq!((bx.min_x, bx.min_y, bx.x_extent, bx.y_extent), (-1920, -200, 3360, 2760));
    for m in [&a, &b] {
        let (w, h) = m.logical_size();
        assert!(bx.min_x <= m.x && m.x + w as i32 <= bx.min_x + bx.x_extent as i32);
        assert!(bx.min_y <= m.y && m.y + h as i32 <= bx.min_y + bx.y_extent as i32);
    }
}

#[test]
fn fingerprint_ignores_what_targeting_ignores() {
    let a1 = mon("eDP-1", 0, 0, 3840, 2160, 2.0, 0);
    let b1 = mon("DP-1", 1920, 0, 1920, 1080, 1.0, 0);
    // Same targeting facts: 3839 physical pixels at scale 2 round to the same
    // 1920 logical pixels; other description and id; another order; and a
    // disabled monitor that does not count.
    let mut a2 = mon("eDP-1", 0, 0, 3839, 2160, 2.0, 0);
    a2.description = "Built-in".into();
    a2.id = 7;
    assert_eq!(a2.logical_size(), a1.logical_size());
    let mut off = mon("HDMI-A-1", 5000, 0, 1920, 1080, 1.0, 0);
    off.disabled = true;
    let first = [copy(&a1), copy(&b1)];
    let second = [copy(&b1), off, a2];
    assert_eq!(fingerprint(&first), fingerprint(&second));
}
