use hardware_monitor::views::fmt::{bytes, uptime};
use hardware_monitor::views::hero::thermometer_svg;
use hardware_monitor::views::storage::format_bytes;

/// Byte counts written the way the popup has always written them, with
/// floating point, to hold the integer formatting against.
fn with_floats(count: u64) -> String {
    let mb = count as f64 / (1024.0 * 1024.0);
    if mb >= 1024.0 {
        format!("{:.2} GB", mb / 1024.0)
    } else {
        format!("{mb:.0} MB")
    }
}

#[test]
fn scales_bytes_at_the_gibibyte() {
    assert_eq!(bytes(512 * 1024 * 1024), "512 MB");
    assert_eq!(bytes(2 * 1024 * 1024 * 1024), "2.00 GB");
}

#[test]
fn uptime_uses_the_coarsest_useful_unit() {
    assert_eq!(uptime(90), "1 minutes");
    assert_eq!(uptime(3 * 3600 + 120), "3 hours, 2 minutes");
    assert_eq!(uptime(2 * 86400 + 3600), "2d, 1h, 0m");
}

#[test]
fn uptime_edges() {
    assert_eq!(uptime(0), "0 minutes");
    assert_eq!(uptime(59), "0 minutes");
    assert_eq!(uptime(3600), "1 hours, 0 minutes");
    assert_eq!(uptime(86399), "23 hours, 59 minutes");
    assert_eq!(uptime(86400), "1d, 0h, 0m");
    assert_eq!(uptime(u64::MAX), "213503982334601d, 7h, 0m");
}

#[test]
fn bytes_rounds_as_the_float_formatting_does() {
    let mib: u64 = 1 << 20;
    let gib: u64 = 1 << 30;
    let mut samples = vec![
        0,
        1,
        mib / 2,
        mib / 2 - 1,
        mib / 2 + 1,
        3 * mib / 2,
        5 * mib / 2,
        mib,
        gib - 1,
        gib - mib / 2,
        gib,
        gib + 1,
        gib + gib / 200,
        gib + gib / 400,
        3 * gib + 5 * gib / 1000,
        16 * gib - 1,
        1 << 53,
        (1 << 53) + 1,
        (1 << 60) + 12345,
        u64::MAX,
        u64::MAX - 1,
    ];
    let mut x: u64 = 0x9E37_79B9_7F4A_7C15;
    for _ in 0..2000 {
        x ^= x << 13;
        x ^= x >> 7;
        x ^= x << 17;
        samples.push(x);
        samples.push(x >> 20);
        samples.push(x >> 30);
        samples.push(x >> 40);
    }
    for count in samples {
        assert_eq!(bytes(count), with_floats(count), "for {count}");
    }
}

#[test]
fn ties_round_to_even() {
    assert_eq!(bytes(1 << 19), "0 MB");
    assert_eq!(bytes(3 << 19), "2 MB");
    assert_eq!(bytes(5 << 19), "2 MB");
}

#[test]
fn storage_tab_writes_bytes_the_same_way() {
    assert_eq!(format_bytes(512 * 1024 * 1024), "512 MB");
    assert_eq!(format_bytes(3 * 1024 * 1024 * 1024 / 2), "1.50 GB");
}

#[test]
fn thermometer_is_filled_with_the_colour() {
    let color_hex = "#00bfff";
    let expected = format!(
        r#"<svg xmlns="http://www.w3.org/2000/svg" width="34" height="34" viewBox="0 0 16 16" fill="{color_hex}">
  <path d="M10 5a2 2 0 1 0-4 0v4.2a3 3 0 1 0 4 0V5zm-2-1a1 1 0 0 1 1 1v4.5a.5.5 0 0 0 .2.4 2 2 0 1 1-2.4 0 .5.5 0 0 0 .2-.4V5a1 1 0 0 1 1-1zm0 7a1 1 0 1 0 0 2 1 1 0 0 0 0-2z"/>
</svg>"#
    );
    let svg = thermometer_svg(color_hex);
    assert_eq!(svg, expected);
    assert_eq!(svg.matches("#00bfff").count(), 1);
    assert_ne!(thermometer_svg("#ff4d4d"), svg);
}
