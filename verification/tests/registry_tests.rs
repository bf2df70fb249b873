use swaybar_info::swaybar_object::{protocol_open_line, SwaybarArray, SwaybarHeader, SwaybarObject};

#[test]
fn inserted_blocks_are_found_by_name() {
    let mut array = SwaybarArray::new();
    assert!(array.is_empty());
    let names = ["meminfo", "loadavg", "current_time", "net_down", "net_up"];
    for (i, name) in names.iter().enumerate() {
        array.push_object(SwaybarObject::from_string(
            (*name).to_owned(),
            format!("text-{}", i),
        ));
    }
    assert!(!array.is_empty());
    assert_eq!(array.len(), names.len());
    for (i, name) in names.iter().enumerate() {
        let obj = array.get_by_name(name).unwrap();
        assert_eq!(obj.full_text, format!("text-{}", i));
    }
}

#[test]
fn lookup_of_never_inserted_name_returns_nothing() {
    let mut array = SwaybarArray::new();
    assert!(array.get_by_name("battinfo").is_none());
    array.push_object(SwaybarObject::from_string("meminfo".to_owned(), "x".to_owned()));
    assert!(array.get_by_name("battinfo").is_none());
    assert!(array.get_by_name_mut("battinfo").is_none());
}

#[test]
fn mutation_through_lookup_lands_in_place() {
    let mut array = SwaybarArray::new();
    array.push_object(SwaybarObject::from_string("a".to_owned(), "one".to_owned()));
    array.push_object(SwaybarObject::from_string("b".to_owned(), "two".to_owned()));
    {
        let obj = array.get_by_name_mut("b").unwrap();
        obj.update_as_generic("TWO".to_owned(), Some("#112233ff".to_owned()));
    }
    assert_eq!(array.get(1).full_text, "TWO");
    assert_eq!(array.get(1).color.as_deref(), Some("#112233ff"));
    assert_eq!(array.get(0).full_text, "one");
}

#[test]
fn header_line_is_version_one() {
    let header = SwaybarHeader::new();
    assert_eq!(header.to_json(), "{\"version\":1}");
    assert_eq!(protocol_open_line(), "[");
}

#[test]
fn empty_array_line_is_bare_brackets_and_comma() {
    let array = SwaybarArray::new();
    assert_eq!(array.to_json_line(), "[],");
}

#[test]
fn array_line_matches_field_order_and_trailing_comma() {
    let mut array = SwaybarArray::new();
    array.push_object(SwaybarObject::from_string("meminfo".to_owned(), "hi".to_owned()));
    let line = array.to_json_line();
    assert_eq!(
        line,
        "[{\"full_text\":\"hi\",\"border\":\"#ffffffff\",\"name\":\"meminfo\"}],"
    );
}

#[test]
fn every_line_is_valid_json_once_the_comma_is_stripped() {
    let mut array = SwaybarArray::new();
    let mut tricky = SwaybarObject::from_error_string("err".to_owned(), "a \"b\"\\c\nd\te".to_owned());
    tricky.min_width = Some("00000".to_owned());
    tricky.align = Some("right".to_owned());
    tricky.urgent = Some(true);
    tricky.separator_block_width = Some(12);
    array.push_object(tricky);
    array.push_object(SwaybarObject::new("plain".to_owned()));
    let line = array.to_json_line();
    assert!(line.ends_with(','));
    let stripped = &line[..line.len() - 1];
    let value: serde_json::Value = serde_json::from_str(stripped).unwrap();
    let items = value.as_array().unwrap();
    assert_eq!(items.len(), 2);
    assert_eq!(items[0]["full_text"], "a \"b\"\\c\nd\te");
    assert_eq!(items[0]["color"], "#ff2222ff");
    assert_eq!(items[0]["min_width"], "00000");
    assert_eq!(items[0]["urgent"], true);
    assert_eq!(items[0]["separator_block_width"], 12);
    assert_eq!(items[1]["full_text"], "");
    assert!(items[1].get("color").is_none());
    let header: serde_json::Value =
        serde_json::from_str(&SwaybarHeader::new().to_json()).unwrap();
    assert_eq!(header["version"], 1);
}

#[test]
fn newline_laden_text_stays_on_one_line() {
    let mut array = SwaybarArray::new();
    array.push_object(SwaybarObject::from_string(
        "multi\nline\nname".to_owned(),
        "first\nsecond\r\nthird".to_owned(),
    ));
    let line = array.to_json_line();
    assert!(!line.contains('\n'));
    let stripped = &line[..line.len() - 1];
    let value: serde_json::Value = serde_json::from_str(stripped).unwrap();
    assert_eq!(value[0]["full_text"], "first\nsecond\r\nthird");
    assert_eq!(value[0]["name"], "multi\nline\nname");
}

#[test]
fn control_characters_are_escaped_as_unicode() {
    let mut array = SwaybarArray::new();
    array.push_object(SwaybarObject::from_string("x".to_owned(), "a\u{1}b".to_owned()));
    let line = array.to_json_line();
    assert!(line.contains("\\u0001"));
    let stripped = &line[..line.len() - 1];
    let value: serde_json::Value = serde_json::from_str(stripped).unwrap();
    assert_eq!(value[0]["full_text"], "a\u{1}b");
}

#[test]
fn update_helpers_set_text_and_color() {
    let mut obj = SwaybarObject::new("n".to_owned());
    obj.update_as_net_down("1.00 KiB".to_owned());
    assert_eq!(obj.full_text, "1.00 KiB");
    assert_eq!(obj.color.as_deref(), Some("#ff8888ff"));
    obj.update_as_net_up("2.00 KiB".to_owned());
    assert_eq!(obj.color.as_deref(), Some("#88ff88ff"));
    obj.update_as_date("2024-01-01 10:00:00".to_owned());
    assert_eq!(obj.full_text, "2024-01-01 10:00:00");
    assert!(obj.color.is_none());
    obj.update_as_error("oops".to_owned());
    assert_eq!(obj.color.as_deref(), Some("#ff2222ff"));
    obj.set_name(Some("m".to_owned()));
    assert_eq!(obj.get_name(), Some("m"));
}
