//! The wire protocol: record layout, field omission, escaping, and the
//! shape of the whole stream.

use i3monkit::{Block, ColorRGB, Header, I3Protocol};

fn encode_one_block(b: Block) -> String {
    let mut proto = I3Protocol::new(Header::new(1));
    let status = vec![b];
    proto.refresh(&status);
    let out = proto.take_pending();
    out.lines().nth(3).unwrap().to_string()
}

#[test]
fn header_line_minimal() {
    let mut proto = I3Protocol::new(Header::new(1));
    let out = proto.take_pending();
    assert_eq!(out.lines().next().unwrap(), "{\"version\":1}");
}

#[test]
fn header_click_events_set() {
    let mut proto = I3Protocol::new(Header::new(1).click_events(true));
    let out = proto.take_pending();
    assert_eq!(out.lines().next().unwrap(), "{\"version\":1,\"click_events\":true}");
}

#[test]
fn header_click_events_unset_is_absent() {
    let mut proto = I3Protocol::new(Header::new(1));
    let out = proto.take_pending();
    let header_line = out.lines().next().unwrap().to_string();
    assert!(!header_line.contains("click_events"));
    assert!(!header_line.contains("null"));
    assert!(!header_line.contains("false"));
}

#[test]
fn opening_record_seeds_empty_element() {
    let mut proto = I3Protocol::new(Header::new(1));
    let out = proto.take_pending();
    assert_eq!(out.lines().nth(1).unwrap(), "[ []");
}

#[test]
fn block_minimal_fields() {
    let line = encode_one_block(Block::new());
    assert_eq!(
        line,
        "[{\"name\":\"\",\"instance\":\"\",\"full_text\":\"\",\"markup\":\"none\"}]"
    );
}

#[test]
fn block_all_fields() {
    let mut b = Block::new();
    b.name("battery");
    b.instance("BAT0");
    b.full_text("85%");
    b.short_text("85");
    b.color(ColorRGB(255, 0, 0));
    b.use_pango();
    let line = encode_one_block(b);
    assert_eq!(
        line,
        "[{\"name\":\"battery\",\"instance\":\"BAT0\",\"full_text\":\"85%\",\
         \"short_text\":\"85\",\"color\":\"#ff0000\",\"markup\":\"pango\"}]"
    );
}

#[test]
fn block_empty_short_text_is_absent() {
    let mut b = Block::new();
    b.full_text("x");
    b.short_text("");
    let line = encode_one_block(b);
    assert!(!line.contains("short_text"));
}

#[test]
fn block_text_is_escaped() {
    let mut b = Block::new();
    b.full_text("a\"b\\c\nd\te\u{1}");
    let line = encode_one_block(b);
    assert!(line.contains("a\\\"b\\\\c\\nd\\te\\u0001"));
    let parsed: serde_json::Value = serde_json::from_str(&line).unwrap();
    assert_eq!(parsed[0]["full_text"].as_str().unwrap(), "a\"b\\c\nd\te\u{1}");
}

#[test]
fn block_unicode_text_survives() {
    let mut b = Block::new();
    b.full_text("30%🔊");
    let line = encode_one_block(b);
    let parsed: serde_json::Value = serde_json::from_str(&line).unwrap();
    assert_eq!(parsed[0]["full_text"].as_str().unwrap(), "30%🔊");
}

#[test]
fn color_constructors() {
    let mut b = Block::new();
    b.color(ColorRGB::yellow());
    let line = encode_one_block(b);
    assert!(line.contains("\"color\":\"#ffff00\""));
    let ColorRGB(r, g, bl) = ColorRGB::green();
    assert_eq!((r, g, bl), (0, 255, 0));
    let ColorRGB(r, g, bl) = ColorRGB::blue();
    assert_eq!((r, g, bl), (0, 0, 255));
    let ColorRGB(r, g, bl) = ColorRGB::red();
    assert_eq!((r, g, bl), (255, 0, 0));
}

#[test]
fn color_single_digit_channels_are_padded() {
    let mut b = Block::new();
    b.color(ColorRGB(5, 10, 0));
    let line = encode_one_block(b);
    assert!(line.contains("\"color\":\"#050a00\""));
}

#[test]
fn close_writes_marker_once() {
    let mut proto = I3Protocol::new(Header::new(1));
    proto.close();
    proto.close();
    proto.close();
    let out = proto.take_pending();
    let markers = out.lines().filter(|l| *l == "]").count();
    assert_eq!(markers, 1);
}

#[test]
fn refresh_after_close_is_ignored() {
    let mut proto = I3Protocol::new(Header::new(1));
    proto.close();
    let before = proto.take_pending();
    proto.refresh(&vec![Block::new()]);
    let after = proto.take_pending();
    assert!(before.ends_with("]\n"));
    assert_eq!(after, "");
}

#[test]
fn whole_stream_parses_as_documents() {
    let mut proto = I3Protocol::new(Header::new(1).click_events(false));
    let mut all = String::new();
    let mut b1 = Block::new();
    b1.full_text("one");
    let mut b2 = Block::new();
    b2.full_text("two");
    proto.refresh(&vec![b1.clone()]);
    all.push_str(&proto.take_pending());
    proto.refresh(&vec![b1, b2]);
    proto.close();
    all.push_str(&proto.take_pending());

    let mut docs = serde_json::Deserializer::from_str(&all).into_iter::<serde_json::Value>();
    let header = docs.next().unwrap().unwrap();
    assert_eq!(header["version"].as_u64().unwrap(), 1);
    assert_eq!(header["click_events"].as_bool().unwrap(), false);
    let body = docs.next().unwrap().unwrap();
    let arr = body.as_array().unwrap();
    assert_eq!(arr.len(), 3);
    assert_eq!(arr[0].as_array().unwrap().len(), 0);
    assert_eq!(arr[1].as_array().unwrap().len(), 1);
    assert_eq!(arr[1][0]["full_text"].as_str().unwrap(), "one");
    assert_eq!(arr[2].as_array().unwrap().len(), 2);
    assert_eq!(arr[2][1]["full_text"].as_str().unwrap(), "two");
    assert!(docs.next().is_none());
}

#[test]
fn emitting_same_snapshot_gives_identical_records() {
    let mut proto = I3Protocol::new(Header::new(1));
    let mut b = Block::new();
    b.full_text("same");
    let status = vec![b];
    proto.refresh(&status);
    proto.refresh(&status);
    let out = proto.take_pending();
    let lines: Vec<&str> = out.lines().collect();
    assert_eq!(lines[2], ",");
    assert_eq!(lines[4], ",");
    assert_eq!(lines[3], lines[5]);
}
