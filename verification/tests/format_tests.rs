use swaybar_info::proc::{get_loadavg, get_meminfo, ProcError};
use swaybar_info::text::{chars_to_string, parse_u64, parse_u8};
use swaybar_info::units::push_rate_chars;

fn rate_text(v: u64) -> String {
    let mut out: Vec<char> = Vec::new();
    push_rate_chars(&mut out, v);
    chars_to_string(&out)
}

#[test]
fn rates_scale_at_the_unit_boundaries() {
    assert_eq!(rate_text(0), "0 B");
    assert_eq!(rate_text(1024), "1024 B");
    assert_eq!(rate_text(1025), "1.00 KiB");
    assert_eq!(rate_text(1536), "1.50 KiB");
    assert_eq!(rate_text(1048576), "1024.00 KiB");
    assert_eq!(rate_text(1048577), "1.00 MiB");
    assert_eq!(rate_text(2621440), "2.50 MiB");
    assert_eq!(rate_text(3407872), "3.25 MiB");
}

#[test]
fn meminfo_shows_used_and_total_in_mib() {
    let contents = "MemTotal:       1048576 kB\nMemFree:         100000 kB\nMemAvailable:    524288 kB\n";
    assert_eq!(get_meminfo(contents).unwrap(), "512.00 MiB / 1024.00 MiB");
}

#[test]
fn meminfo_small_totals_stay_in_kib() {
    let contents = "MemTotal: 1000 kB\nMemAvailable: 400 kB\n";
    assert_eq!(get_meminfo(contents).unwrap(), "600 KiB / 1000 KiB");
}

#[test]
fn meminfo_zero_total_prints_zero() {
    assert_eq!(get_meminfo("SwapTotal: 0 kB\n").unwrap(), "0");
}

#[test]
fn meminfo_rejects_unparsable_value() {
    let err = get_meminfo("MemTotal: lots kB\n").unwrap_err();
    assert_eq!(err, ProcError::MalformedData);
}

#[test]
fn meminfo_rejects_available_above_total() {
    let contents = "MemTotal: 100 kB\nMemAvailable: 200 kB\n";
    assert_eq!(get_meminfo(contents).unwrap_err(), ProcError::MalformedData);
}

#[test]
fn loadavg_takes_the_first_three_fields() {
    assert_eq!(get_loadavg("0.52 0.48 0.45 1/1234 56789\n").unwrap(), "0.52 0.48 0.45");
}

#[test]
fn loadavg_rejects_short_input() {
    assert_eq!(get_loadavg("0.52 0.48\n").unwrap_err(), ProcError::MalformedData);
}

#[test]
fn parse_u64_accepts_digits_only() {
    let digits: Vec<char> = "18446744073709551615".chars().collect();
    assert_eq!(parse_u64(&digits), Some(u64::MAX));
    let over: Vec<char> = "18446744073709551616".chars().collect();
    assert_eq!(parse_u64(&over), None);
    let signed: Vec<char> = "+12".chars().collect();
    assert_eq!(parse_u64(&signed), None);
    let empty: Vec<char> = Vec::new();
    assert_eq!(parse_u64(&empty), None);
    let zero: Vec<char> = "000".chars().collect();
    assert_eq!(parse_u64(&zero), Some(0));
}

#[test]
fn parse_u8_bounds() {
    let ok: Vec<char> = "255".chars().collect();
    assert_eq!(parse_u8(&ok), Some(255));
    let over: Vec<char> = "256".chars().collect();
    assert_eq!(parse_u8(&over), None);
}
