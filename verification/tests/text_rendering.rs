use computer_use::fingerprint::text_le_exec;
use computer_use::text::{push_decimal, push_hex, push_signed, starts_with, str_eq};

#[test]
fn decimal_and_hex_rendering() {
    let mut s = String::new();
    push_decimal(&mut s, 0);
    push_decimal(&mut s, 1234567890);
    assert_eq!(s, "01234567890");
    let mut s = String::new();
    push_signed(&mut s, -2048);
    push_signed(&mut s, i64::MIN);
    assert_eq!(s, format!("-2048{}", i64::MIN));
    let mut s = String::new();
    push_hex(&mut s, 0xdead_beef, 16);
    assert_eq!(s, "00000000deadbeef");
}

#[test]
fn text_comparisons() {
    assert!(text_le_exec("DP-1", "eDP-1"));
    assert!(!text_le_exec("eDP-1", "DP-1"));
    assert!(text_le_exec("a", "ab"));
    assert!(text_le_exec("", ""));
    assert!(str_eq("abc", "abc"));
    assert!(!str_eq("abc", "abd"));
    assert!(starts_with("wayland-0", "wayland-"));
    assert!(!starts_with("way", "wayland-"));
}
