use power_rename_gui::fonts::{accept_font, font_order, system_font, unpack_font};
use std::io::Write;

fn pack(data: &[u8]) -> Vec<u8> {
    let mut e = flate2::write::GzEncoder::new(Vec::new(), flate2::Compression::default());
    e.write_all(data).unwrap();
    e.finish().unwrap()
}

#[test]
fn a_packed_font_is_unpacked() {
    let data: Vec<u8> = (0..5000u32).map(|i| (i % 251) as u8).collect();
    assert_eq!(unpack_font(&pack(&data)), Some(data));
}

#[test]
fn a_broken_or_empty_font_is_turned_down() {
    assert_eq!(unpack_font(&[]), None);
    assert_eq!(unpack_font(b"not gzip"), None);
    assert_eq!(unpack_font(&pack(&[])), None);
    let mut packed = pack(b"some font");
    packed.truncate(packed.len() - 4);
    assert_eq!(unpack_font(&packed), None);
    assert_eq!(accept_font(Some(vec![1])), Some(vec![1]));
    assert_eq!(accept_font(Some(Vec::new())), None);
    assert_eq!(accept_font(None), None);
}

#[test]
fn the_packed_font_is_asked_first() {
    let family = || vec!["x".to_string()];
    assert_eq!(font_order(family(), true, true), vec!["main", "sys_cjk", "x"]);
    assert_eq!(font_order(family(), true, false), vec!["main", "x"]);
    assert_eq!(font_order(family(), false, true), vec!["sys_cjk", "x"]);
    assert_eq!(font_order(family(), false, false), vec!["x"]);
}

#[test]
fn system_fonts_are_tried_in_order() {
    assert_eq!(system_font(0), Some("C:\\Windows\\Fonts\\msyh.ttc"));
    assert_eq!(system_font(14), Some("/usr/share/fonts/truetype/dejavu/DejaVuSans.ttf"));
    assert_eq!(system_font(15), None);
}
