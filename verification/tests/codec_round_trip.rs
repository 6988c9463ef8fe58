use icon_layout::codec::encode_records_string;
use icon_layout::hexnum::hex_string;
use icon_layout::parse::{load_layout, parse_layout_str};
use icon_layout::record::IconRecord;

fn rec(name: &str, x: f32, y: f32) -> IconRecord {
    IconRecord { name: String::from(name), x_bits: x.to_bits(), y_bits: y.to_bits() }
}

#[test]
fn hex_rendering_exact() {
    assert_eq!(hex_string(0x2a, 8), "0000002a");
    assert_eq!(hex_string(0, 8), "00000000");
    assert_eq!(hex_string(0xdeadbeef, 8), "deadbeef");
    assert_eq!(hex_string(7, 16), "0000000000000007");
}

#[test]
fn round_trip_three_records() {
    let records = vec![
        rec("My folder3", 100.0, 100.0),
        rec("notes.txt", -12.5, 0.25),
        rec("pictures", 0.0, -3.75),
    ];
    let text = encode_records_string(&records);
    let reloaded = parse_layout_str(&text);
    assert_eq!(reloaded, records);
    assert_eq!(f32::from_bits(reloaded[1].x_bits), -12.5);
    assert_eq!(f32::from_bits(reloaded[1].y_bits), 0.25);
}

#[test]
fn round_trip_empty_set() {
    let records: Vec<IconRecord> = Vec::new();
    let text = encode_records_string(&records);
    assert_eq!(text, "");
    assert_eq!(parse_layout_str(&text), records);
}

#[test]
fn round_trip_hostile_names() {
    let records = vec![
        rec("", 1.0, 2.0),
        rec("name with\nnewline", 3.0, 4.0),
        rec("0000002a deadbeef", 5.0, 6.0),
        rec("snömän 絵文字", -7.0, 8.5),
    ];
    let text = encode_records_string(&records);
    assert_eq!(parse_layout_str(&text), records);
}

#[test]
fn missing_file_yields_empty_mapping() {
    let loaded = load_layout(None);
    assert!(loaded.is_empty());
}

#[test]
fn present_file_loads_through_same_path() {
    let records = vec![rec("a", 9.0, 10.0)];
    let text = encode_records_string(&records);
    let loaded = load_layout(Some(&text));
    assert_eq!(loaded, records);
}

#[test]
fn invalid_content_yields_empty_mapping() {
    assert!(parse_layout_str("this is not a layout").is_empty());
    assert!(parse_layout_str("[{\"name\":\"a\",\"x\":1.0,\"y\":2.0}]").is_empty());
    assert!(parse_layout_str("zz000000000000000000000000000000\n").is_empty());
    assert!(parse_layout_str("00000000").is_empty());
}

#[test]
fn corrupt_tail_keeps_leading_records() {
    let records = vec![rec("kept", 1.5, 2.5)];
    let mut text = encode_records_string(&records);
    text.push_str("garbage after the well-formed prefix");
    let reloaded = parse_layout_str(&text);
    assert_eq!(reloaded, records);
}

#[test]
fn truncated_record_is_dropped() {
    let records = vec![rec("kept", 1.0, 1.0), rec("cut off", 2.0, 2.0)];
    let text = encode_records_string(&records);
    let truncated = &text[..text.len() - 3];
    let reloaded = parse_layout_str(truncated);
    assert_eq!(reloaded, vec![rec("kept", 1.0, 1.0)]);
}
