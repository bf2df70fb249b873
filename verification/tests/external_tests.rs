use swaybar_info::builtin::{batt_color_components, batt_color_string, BattError, BattInfo};
use swaybar_info::external::{compile_regex, get_cmd_output, ExternalError};
use swaybar_info::swaybar_object::SwaybarObject;

#[test]
fn whole_pattern_match_is_the_text() {
    let re = compile_regex("[a-z]+").unwrap();
    let res = get_cmd_output(&re, "  hello42  \n").unwrap();
    assert_eq!(res.matched, "hello");
    assert!(res.color.is_none());
}

#[test]
fn one_group_takes_the_first_capture() {
    let re = compile_regex("vol ([0-9]+)%").unwrap();
    let res = get_cmd_output(&re, "vol 85% (muted)\n").unwrap();
    assert_eq!(res.matched, "85");
    assert!(res.color.is_none());
}

#[test]
fn two_groups_take_text_and_color() {
    let re = compile_regex("([0-9]+) (#[0-9a-f]{8})").unwrap();
    let res = get_cmd_output(&re, "77 #ff0000ff").unwrap();
    assert_eq!(res.matched, "77");
    assert_eq!(res.color.as_deref(), Some("#ff0000ff"));
}

#[test]
fn optional_second_group_may_be_absent() {
    let re = compile_regex("([0-9]+)(?: (#[0-9a-f]{8}))?").unwrap();
    let res = get_cmd_output(&re, "77").unwrap();
    assert_eq!(res.matched, "77");
    assert!(res.color.is_none());
}

#[test]
fn three_or_more_groups_are_rejected() {
    let re = compile_regex("(a)(b)(c)").unwrap();
    let err = get_cmd_output(&re, "abc").unwrap_err();
    assert_eq!(err, ExternalError::TooManyCaptures);
}

#[test]
fn no_match_is_reported() {
    let re = compile_regex("[0-9]+").unwrap();
    let err = get_cmd_output(&re, "no digits here").unwrap_err();
    assert_eq!(err, ExternalError::NoMatch);
}

#[test]
fn unmatched_text_group_is_reported() {
    let re = compile_regex("x(a)?y").unwrap();
    let err = get_cmd_output(&re, "xy").unwrap_err();
    assert_eq!(err, ExternalError::NoGroupCapture);
}

#[test]
fn battery_endpoint_colors() {
    assert_eq!(batt_color_components(100), (0, 255));
    assert_eq!(batt_color_components(0), (255, 0));
    // at exactly half the red side is still full (the boundary uses the
    // at-most-half branch) and the green side has just reached full
    assert_eq!(batt_color_components(50), (255, 255));
    assert_eq!(batt_color_components(75), (127, 255));
    assert_eq!(batt_color_components(25), (255, 127));
    assert_eq!(batt_color_string(100), "#0ff00ff");
    assert_eq!(batt_color_string(0), "#ff000ff");
    assert_eq!(batt_color_string(75), "#7fff00ff");
}

#[test]
fn battery_update_extracts_percentage_and_color() {
    let mut batt = BattInfo::default();
    let mut obj = SwaybarObject::new("battinfo".to_owned());
    batt.update("Battery 0: Discharging, 54%, 01:33:44 remaining\n", &mut obj).unwrap();
    assert_eq!(obj.full_text, "54%, 01:33:44 remaining");
    // red = 255 * (100 - 54) / 50 = 234 = 0xea, green full
    assert_eq!(obj.color.as_deref(), Some("#eaff00ff"));
    assert!(!batt.is_error_state());
}

#[test]
fn battery_failure_retires_the_source() {
    let mut batt = BattInfo::default();
    let mut obj = SwaybarObject::new("battinfo".to_owned());
    let err = batt.update("no percentage in sight", &mut obj).unwrap_err();
    assert_eq!(err, BattError::NoMatch);
    assert!(batt.is_error_state());
    let err2 = batt.update("99% now", &mut obj).unwrap_err();
    assert_eq!(err2, BattError::ErrorState);
}

#[test]
fn battery_percentage_above_byte_range_is_rejected() {
    let mut batt = BattInfo::default();
    let mut obj = SwaybarObject::new("battinfo".to_owned());
    let err = batt.update("charge 300%", &mut obj).unwrap_err();
    assert_eq!(err, BattError::BadPercent);
    assert!(batt.is_error_state());
}
