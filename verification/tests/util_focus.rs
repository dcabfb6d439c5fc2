use tiny_cli::cli::FocusOpts;
use tiny_cli::focus::{disk_line, focus_seconds, start_message, timer_frame, uptime_line};
use tiny_cli::util::{format_bytes, format_duration, pad_badge, plural, truncate};

/// The float formatting the byte sizes follow.
fn float_bytes(bytes: u64) -> String {
    const UNITS: [&str; 5] = ["B", "KB", "MB", "GB", "TB"];
    let mut value = bytes as f64;
    let mut unit = 0;
    while value >= 1024.0 && unit < UNITS.len() - 1 {
        value /= 1024.0;
        unit += 1;
    }
    if unit == 0 {
        format!("{} {}", bytes, UNITS[unit])
    } else {
        format!("{:.2} {}", value, UNITS[unit])
    }
}

#[test]
fn format_bytes_handles_each_unit_threshold() {
    assert_eq!(format_bytes(0), "0 B");
    assert_eq!(format_bytes(512), "512 B");
    assert_eq!(format_bytes(1024), "1.00 KB");
    assert_eq!(format_bytes(1536), "1.50 KB");
    assert_eq!(format_bytes(1024 * 1024), "1.00 MB");
    assert_eq!(format_bytes(1024u64.pow(3)), "1.00 GB");
    assert_eq!(format_bytes(1024u64.pow(4)), "1.00 TB");
}

#[test]
fn format_bytes_caps_at_terabytes() {
    let pb = 1024u64.pow(5);
    assert!(format_bytes(pb).ends_with("TB"));
    assert_eq!(format_bytes(pb), "1024.00 TB");
    assert_eq!(format_bytes(u64::MAX), float_bytes(u64::MAX));
}

#[test]
fn format_bytes_agrees_with_float_formatting() {
    let mut samples: Vec<u64> = vec![1023, 1025, 1535, 1537, 10_239, 10_240, 1_048_575, 1_048_576];
    let mut x: u64 = 1;
    for _ in 0..400 {
        x = x.wrapping_mul(6364136223846793005).wrapping_add(1442695040888963407);
        samples.push(x >> (x % 60));
    }
    for k in 1..5u32 {
        let base = 1024u64.pow(k);
        for d in [1u64, 5, 10, 15, 25, 333, 995, 1005] {
            samples.push(base + base / 1000 * d);
            samples.push(base * 5 + base / 200 - 1);
            samples.push(base * 5 + base / 200 + 1);
        }
    }
    for s in samples {
        assert_eq!(format_bytes(s), float_bytes(s), "bytes = {}", s);
    }
}

#[test]
fn format_duration_uses_largest_unit() {
    assert_eq!(format_duration(0), "0s");
    assert_eq!(format_duration(45), "45s");
    assert_eq!(format_duration(60), "1m 0s");
    assert_eq!(format_duration(3_600), "1h 0m");
    assert_eq!(format_duration(86_400), "1d 0h 0m");
    assert_eq!(format_duration(90_061), "1d 1h 1m");
}

#[test]
fn text_helpers() {
    assert_eq!(truncate("abcdef", 4), "abc…");
    assert_eq!(truncate("", 0), "");
    assert_eq!(pad_badge("safe"), "safe       ");
    assert_eq!(plural(1, "item"), "1 item");
    assert_eq!(plural(0, "item"), "0 items");
}

#[test]
fn focus_session_length_and_messages() {
    let opts = FocusOpts { minutes: 25, label: None };
    assert_eq!(focus_seconds(&opts), Ok(1500));
    assert_eq!(start_message(&opts), "Starting focus session: 25 minute(s)");
    let zero = FocusOpts { minutes: 0, label: Some("deep".into()) };
    assert_eq!(focus_seconds(&zero), Err("minutes must be > 0".to_string()));
    assert_eq!(start_message(&zero), "Starting deep session: 0 minute(s)");
}

#[test]
fn timer_frames() {
    assert_eq!(timer_frame(0, 60), format!("\r[{}] 01:00 remaining", "-".repeat(30)));
    assert_eq!(
        timer_frame(30, 60),
        format!("\r[{}{}] 00:30 remaining", "#".repeat(15), "-".repeat(15))
    );
    assert_eq!(timer_frame(60, 60), format!("\r[{}] 00:00 remaining", "#".repeat(30)));
}

#[test]
fn sys_lines() {
    assert_eq!(uptime_line(90_061), "Uptime:    1d 1h 1m");
    assert_eq!(uptime_line(u64::MAX), "Uptime:    unavailable");
    assert_eq!(
        disk_line("/", 2048, 1024, "Macintosh HD"),
        format!("{:<20} 1.00 KB used / 2.00 KB total (Macintosh HD)", "/")
    );
    assert!(disk_line("/x", 10, 20, "d").contains(" 0 B used"));
}
