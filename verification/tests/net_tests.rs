use swaybar_info::proc::{GraphItemType, NetInfo, ProcError};

fn netdev_contents(dev: &str, rx: u64, tx: u64) -> String {
    let mut s = String::new();
    s.push_str("Inter-|   Receive                                                |  Transmit\n");
    s.push_str(" face |bytes    packets errs drop fifo frame compressed multicast|bytes    packets errs drop fifo colls carrier compressed\n");
    s.push_str(&format!(
        "    lo: 100 1    0    0    0     0          0         0 100 1    0    0    0     0       0          0\n"
    ));
    s.push_str(&format!(
        "  {}: {} 10    0    0    0     0          0         0 {} 20    0    0    0     0       0          0\n",
        dev, rx, tx
    ));
    s
}

#[test]
fn first_sample_reports_zero_rate() {
    let mut net = NetInfo::new("eth0".to_owned(), None);
    net.update(&netdev_contents("eth0", 5000, 7000)).unwrap();
    let (text, _, _) = net.get_netstring(None);
    assert_eq!(text, "0 B 0 B");
}

#[test]
fn rates_are_differences_of_cumulative_counters() {
    let mut net = NetInfo::new("eth0".to_owned(), None);
    net.update(&netdev_contents("eth0", 1000, 2000)).unwrap();
    let (t0, _, _) = net.get_netstring(None);
    assert_eq!(t0, "0 B 0 B");
    net.update(&netdev_contents("eth0", 2000, 2500)).unwrap();
    let (t1, _, _) = net.get_netstring(None);
    assert_eq!(t1, "1000 B 500 B");
    net.update(&netdev_contents("eth0", 2000, 2500)).unwrap();
    let (t2, _, _) = net.get_netstring(None);
    assert_eq!(t2, "0 B 0 B");
    net.update(&netdev_contents("eth0", 4048, 4548)).unwrap();
    let (t3, _, _) = net.get_netstring(None);
    assert_eq!(t3, "2.00 KiB 2.00 KiB");
}

#[test]
fn counter_reset_reports_zero_not_negative() {
    let mut net = NetInfo::new("eth0".to_owned(), None);
    net.update(&netdev_contents("eth0", 9000, 9000)).unwrap();
    let _ = net.get_netstring(None);
    net.update(&netdev_contents("eth0", 10000, 11000)).unwrap();
    let _ = net.get_netstring(None);
    net.update(&netdev_contents("eth0", 100, 50)).unwrap();
    let (text, _, _) = net.get_netstring(None);
    assert_eq!(text, "0 B 0 B");
}

#[test]
fn dynamic_graph_keeps_length_and_marks_maximum() {
    let mut net = NetInfo::new("eth0".to_owned(), Some(4));
    assert_eq!(net.get_graph().len(), 4);
    let mut total: u64 = 0;
    let samples: [u64; 6] = [0, 100, 900, 300, 50, 200];
    net.update(&netdev_contents("eth0", 0, 0)).unwrap();
    let _ = net.get_netstring(None);
    for (i, rate) in samples.iter().enumerate() {
        total += rate;
        net.update(&netdev_contents("eth0", total, 0)).unwrap();
        let (_, max_idx, max_text) = net.get_netstring(None);
        let graph = net.get_graph();
        assert_eq!(graph.len(), 4);
        if i >= 1 {
            assert_eq!(graph[max_idx].get_value(), '\u{2588}');
            assert!(!max_text.is_empty());
        }
    }
}

#[test]
fn dynamic_graph_reports_window_maximum() {
    let mut net = NetInfo::new("eth0".to_owned(), Some(3));
    net.update(&netdev_contents("eth0", 0, 0)).unwrap();
    let _ = net.get_netstring(None);
    net.update(&netdev_contents("eth0", 2048, 0)).unwrap();
    let (_, max_idx, max_text) = net.get_netstring(None);
    assert_eq!(max_text, "2.00 KiB");
    assert_eq!(max_idx, 2);
    assert_eq!(net.get_graph()[2].get_value_type(), GraphItemType::Download);
}

#[test]
fn static_graph_levels_at_zero_max_and_above() {
    let mut net = NetInfo::new("eth0".to_owned(), Some(4));
    let max = Some(1000u64);
    net.update(&netdev_contents("eth0", 0, 0)).unwrap();
    let _ = net.get_netstring(max);
    // rate 0 is blank
    assert_eq!(net.get_graph()[3].get_value(), ' ');
    // rate 500 of 1000 rounds to level 4
    net.update(&netdev_contents("eth0", 500, 0)).unwrap();
    let _ = net.get_netstring(max);
    assert_eq!(net.get_graph()[3].get_value(), '\u{2584}');
    // rate equal to the maximum is the full block
    net.update(&netdev_contents("eth0", 1500, 0)).unwrap();
    let _ = net.get_netstring(max);
    assert_eq!(net.get_graph()[3].get_value(), '\u{2588}');
    // rate above the maximum saturates
    net.update(&netdev_contents("eth0", 9500, 0)).unwrap();
    let _ = net.get_netstring(max);
    assert_eq!(net.get_graph()[3].get_value(), '\u{2588}');
    // the window slid: the level-4 glyph is now at position 1
    assert_eq!(net.get_graph()[1].get_value(), '\u{2584}');
}

#[test]
fn static_graph_levels_monotonic_in_rate() {
    let max = Some(800u64);
    let rates: [u64; 6] = [0, 100, 200, 400, 700, 800];
    let mut glyph_levels: Vec<usize> = Vec::new();
    let glyphs = [' ', '\u{2581}', '\u{2582}', '\u{2583}', '\u{2584}', '\u{2585}', '\u{2586}', '\u{2587}', '\u{2588}'];
    for rate in rates.iter() {
        let mut net = NetInfo::new("eth0".to_owned(), Some(2));
        net.update(&netdev_contents("eth0", 0, 0)).unwrap();
        let _ = net.get_netstring(max);
        net.update(&netdev_contents("eth0", *rate, 0)).unwrap();
        let _ = net.get_netstring(max);
        let c = net.get_graph()[1].get_value();
        glyph_levels.push(glyphs.iter().position(|g| *g == c).unwrap());
    }
    for w in glyph_levels.windows(2) {
        assert!(w[0] <= w[1]);
    }
    assert_eq!(glyph_levels[0], 0);
    assert_eq!(glyph_levels[5], 8);
}

#[test]
fn upload_heavier_tick_is_tinted_upload() {
    let mut net = NetInfo::new("eth0".to_owned(), Some(2));
    net.update(&netdev_contents("eth0", 0, 0)).unwrap();
    let _ = net.get_netstring(None);
    net.update(&netdev_contents("eth0", 10, 500)).unwrap();
    let _ = net.get_netstring(None);
    assert_eq!(net.get_graph()[1].get_value_type(), GraphItemType::Upload);
}

#[test]
fn missing_device_is_device_not_found() {
    let mut net = NetInfo::new("wlan0".to_owned(), None);
    let err = net.update(&netdev_contents("eth0", 1, 1)).unwrap_err();
    assert_eq!(err, ProcError::DeviceNotFound);
}

#[test]
fn short_device_line_is_malformed_counters() {
    let mut net = NetInfo::new("eth0".to_owned(), None);
    let err = net.update("  eth0: 1 2 3\n").unwrap_err();
    assert_eq!(err, ProcError::MalformedCounters);
}

#[test]
fn non_numeric_counter_is_malformed_counters() {
    let mut net = NetInfo::new("eth0".to_owned(), None);
    let err = net
        .update("  eth0: abc 0 0 0 0 0 0 0 999 0 0 0 0 0 0 0\n")
        .unwrap_err();
    assert_eq!(err, ProcError::MalformedCounters);
}

#[test]
fn graph_size_zero_falls_back_to_ten() {
    let net = NetInfo::new("eth0".to_owned(), Some(0));
    assert_eq!(net.get_graph().len(), 10);
    let net2 = NetInfo::new("eth0".to_owned(), None);
    assert_eq!(net2.get_graph().len(), 10);
    let net3 = NetInfo::new("eth0".to_owned(), Some(7));
    assert_eq!(net3.get_graph().len(), 7);
}

#[test]
fn set_dev_name_switches_device() {
    let mut net = NetInfo::new("eth0".to_owned(), None);
    net.set_dev_name("wlan0");
    assert!(net.update(&netdev_contents("wlan0", 1, 1)).is_ok());
    let mut other = NetInfo::new("wlan0".to_owned(), None);
    other.set_dev_name("eth0");
    assert_eq!(
        other.update(&netdev_contents("wlan0", 1, 1)).unwrap_err(),
        ProcError::DeviceNotFound
    );
}

#[test]
fn failed_meter_is_retired_for_good() {
    let mut net = NetInfo::new("eth0".to_owned(), None);
    assert!(!net.errored);
    assert_eq!(
        net.update(&netdev_contents("wlan0", 1, 1)).unwrap_err(),
        ProcError::DeviceNotFound
    );
    assert!(net.errored);
    // even a now-good table is not consulted again
    assert_eq!(
        net.update(&netdev_contents("eth0", 1, 1)).unwrap_err(),
        ProcError::PermanentSourceFailure
    );
}
