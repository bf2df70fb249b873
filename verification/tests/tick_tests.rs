use swaybar_info::builtin::BattInfo;
use swaybar_info::proc::{NetInfo, ProcError};
use swaybar_info::swaybar_object::SwaybarArray;
use swaybar_info::tick::{
    apply_error_block, apply_generic_block, handle_battery, handle_net, set_net_error, NetConfig,
};

fn netdev_contents(dev: &str, rx: u64, tx: u64) -> String {
    format!(
        "Inter-|   Receive |  Transmit\n face |bytes packets|bytes packets\n  {}: {} 1 0 0 0 0 0 0 {} 2 0 0 0 0 0 0\n",
        dev, rx, tx
    )
}

fn dynamic_cfg() -> NetConfig {
    NetConfig {
        graph_max: None,
        graph_is_dynamic: true,
        show_dynamic_max: true,
        width: Some(11),
        graph_size: 4,
    }
}

#[test]
fn first_tick_inserts_the_network_blocks_in_order() {
    let mut net = NetInfo::new("eth0".to_owned(), Some(4));
    let mut array = SwaybarArray::new();
    let cfg = dynamic_cfg();
    handle_net(true, &mut net, &mut array, cfg, &netdev_contents("eth0", 100, 200)).unwrap();
    assert_eq!(array.len(), 4);
    assert_eq!(array.get(0).get_name(), Some("net_graph_dyn_max"));
    assert_eq!(array.get(1).get_name(), Some("net_graph"));
    assert_eq!(array.get(2).get_name(), Some("net_down"));
    assert_eq!(array.get(3).get_name(), Some("net_up"));
    assert_eq!(array.get(1).full_text, "    ");
    assert_eq!(array.get(1).markup.as_deref(), Some("pango"));
    assert_eq!(array.get(2).full_text, "0 B");
    assert_eq!(array.get(2).color.as_deref(), Some("#ff8888ff"));
    assert_eq!(array.get(2).min_width.as_deref(), Some("00000000000"));
    assert_eq!(array.get(2).align.as_deref(), Some("right"));
    assert_eq!(array.get(3).full_text, "0 B");
    assert_eq!(array.get(3).color.as_deref(), Some("#88ff88ff"));
}

#[test]
fn steady_tick_rewrites_the_network_blocks_in_place() {
    let mut net = NetInfo::new("eth0".to_owned(), Some(4));
    let mut array = SwaybarArray::new();
    let cfg = dynamic_cfg();
    handle_net(true, &mut net, &mut array, cfg, &netdev_contents("eth0", 0, 0)).unwrap();
    handle_net(false, &mut net, &mut array, cfg, &netdev_contents("eth0", 4096, 2048)).unwrap();
    assert_eq!(array.len(), 4);
    assert_eq!(array.get(2).full_text, "4.00 KiB");
    assert_eq!(array.get(3).full_text, "2.00 KiB");
    assert_eq!(array.get(0).full_text, "4.00 KiB");
    // the window maximum came from the download side
    assert_eq!(array.get(0).color.as_deref(), Some("#ff8888ff"));
    // the sparkline is rendered as one span per position
    let graph_text = &array.get(1).full_text;
    assert_eq!(graph_text.matches("<span").count(), 4);
    assert!(graph_text.contains("\u{2588}"));
}

#[test]
fn failed_network_tick_leaves_registry_for_the_caller() {
    let mut net = NetInfo::new("eth0".to_owned(), Some(4));
    let mut array = SwaybarArray::new();
    let cfg = dynamic_cfg();
    let err = handle_net(true, &mut net, &mut array, cfg, "nothing here\n").unwrap_err();
    assert_eq!(err, ProcError::DeviceNotFound);
    assert!(array.is_empty());
    set_net_error(&mut array, true, cfg);
    assert_eq!(array.len(), 4);
    assert_eq!(array.get(0).full_text, "net ERROR");
    assert_eq!(array.get(2).full_text, "Net ERROR");
    assert_eq!(array.get(2).color.as_deref(), Some("#ff2222ff"));
}

#[test]
fn steady_net_error_rewrites_existing_blocks() {
    let mut net = NetInfo::new("eth0".to_owned(), Some(4));
    let mut array = SwaybarArray::new();
    let cfg = dynamic_cfg();
    handle_net(true, &mut net, &mut array, cfg, &netdev_contents("eth0", 0, 0)).unwrap();
    apply_generic_block(&mut array, true, "meminfo", "1 / 2".to_owned(), None);
    set_net_error(&mut array, false, cfg);
    assert_eq!(array.len(), 5);
    for i in 0..4 {
        assert_eq!(array.get(i).full_text, "Net ERROR");
        assert_eq!(array.get(i).color.as_deref(), Some("#ff2222ff"));
    }
    assert_eq!(array.get(4).full_text, "1 / 2");
}

#[test]
fn generic_blocks_insert_then_mutate() {
    let mut array = SwaybarArray::new();
    apply_generic_block(&mut array, true, "meminfo", "a".to_owned(), None);
    apply_generic_block(&mut array, true, "loadavg", "b".to_owned(), None);
    apply_generic_block(&mut array, false, "meminfo", "c".to_owned(), Some("#00ff00ff".to_owned()));
    assert_eq!(array.len(), 2);
    assert_eq!(array.get(0).full_text, "c");
    assert_eq!(array.get(0).color.as_deref(), Some("#00ff00ff"));
    assert_eq!(array.get(1).full_text, "b");
    // a miss changes nothing
    apply_generic_block(&mut array, false, "battinfo", "d".to_owned(), None);
    assert_eq!(array.len(), 2);
}

#[test]
fn error_blocks_insert_then_mutate() {
    let mut array = SwaybarArray::new();
    apply_error_block(&mut array, true, "regex_cmd_0", "REGEX_CMD ERROR".to_owned());
    assert_eq!(array.get(0).full_text, "REGEX_CMD ERROR");
    assert_eq!(array.get(0).color.as_deref(), Some("#ff2222ff"));
    apply_generic_block(&mut array, false, "regex_cmd_0", "42".to_owned(), None);
    assert_eq!(array.get(0).full_text, "42");
    apply_error_block(&mut array, false, "regex_cmd_0", "REGEX_CMD ERROR".to_owned());
    assert_eq!(array.get(0).full_text, "REGEX_CMD ERROR");
}

#[test]
fn battery_tick_inserts_then_updates_and_retires() {
    let mut batt = BattInfo::default();
    let mut array = SwaybarArray::new();
    assert!(handle_battery(&mut batt, &mut array, true, "Battery 0: Full, 100%\n").is_none());
    assert_eq!(array.len(), 1);
    assert_eq!(array.get(0).get_name(), Some("battinfo"));
    assert_eq!(array.get(0).full_text, "100%");
    assert_eq!(array.get(0).color.as_deref(), Some("#0ff00ff"));
    assert!(handle_battery(&mut batt, &mut array, false, "Battery 0: Discharging, 50%\n").is_none());
    assert_eq!(array.get(0).full_text, "50%");
    assert_eq!(array.get(0).color.as_deref(), Some("#ffff00ff"));
    // a failure shows the error text and retires the source
    assert!(handle_battery(&mut batt, &mut array, false, "garbage").is_some());
    assert_eq!(array.get(0).full_text, "BATTINFO ERROR");
    assert!(batt.is_error_state());
    // once retired, later ticks do not touch the block
    assert!(handle_battery(&mut batt, &mut array, false, "Battery 0: Full, 100%\n").is_none());
    assert_eq!(array.get(0).full_text, "BATTINFO ERROR");
}

#[test]
fn full_tick_stream_shape() {
    // one bootstrap tick followed by one steady tick, rendered as the host
    // would read them
    let mut net = NetInfo::new("eth0".to_owned(), Some(3));
    let mut array = SwaybarArray::new();
    let cfg = NetConfig {
        graph_max: Some(1000),
        graph_is_dynamic: false,
        show_dynamic_max: false,
        width: None,
        graph_size: 3,
    };
    let header = swaybar_info::swaybar_object::SwaybarHeader::new().to_json();
    assert_eq!(header, "{\"version\":1}");
    for (i, counters) in [(0u64, 0u64), (500, 250)].iter().enumerate() {
        let is_empty = array.is_empty();
        assert_eq!(is_empty, i == 0);
        handle_net(
            is_empty,
            &mut net,
            &mut array,
            cfg,
            &netdev_contents("eth0", counters.0, counters.1),
        )
        .unwrap();
        apply_generic_block(&mut array, is_empty, "meminfo", "1.00 MiB / 2.00 MiB".to_owned(), None);
        apply_generic_block(&mut array, is_empty, "loadavg", "0.1 0.2 0.3".to_owned(), None);
        apply_generic_block(&mut array, is_empty, "current_time", "2024-01-01".to_owned(), None);
        let line = array.to_json_line();
        assert!(line.ends_with(','));
        let parsed: serde_json::Value = serde_json::from_str(&line[..line.len() - 1]).unwrap();
        assert_eq!(parsed.as_array().unwrap().len(), 6);
    }
    assert_eq!(array.get_by_name("net_down").unwrap().full_text, "500 B");
    assert_eq!(array.get_by_name("net_up").unwrap().full_text, "250 B");
}
