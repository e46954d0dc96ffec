use power_rename_gui::bitmap::{can_encode, encode_bitmap, Pixel};

fn px(r: u8, g: u8, b: u8) -> Pixel {
    Pixel { r, g, b }
}

#[test]
fn a_small_image_is_encoded_byte_for_byte() {
    // Two columns, two rows: each row has six bytes and two bytes of filling.
    let pixels = vec![px(1, 2, 3), px(4, 5, 6), px(7, 8, 9), px(10, 11, 12)];
    let file = encode_bitmap(2, 2, &pixels);
    let mut want: Vec<u8> = vec![b'B', b'M', 70, 0, 0, 0, 0, 0, 0, 0, 54, 0, 0, 0, 40, 0, 0, 0];
    want.extend_from_slice(&[2, 0, 0, 0, 2, 0, 0, 0, 1, 0, 24, 0]);
    want.extend_from_slice(&[0; 24]);
    want.extend_from_slice(&[9, 8, 7, 12, 11, 10, 0, 0]);
    want.extend_from_slice(&[3, 2, 1, 6, 5, 4, 0, 0]);
    assert_eq!(file, want);
}

#[test]
fn pixels_stand_at_their_places() {
    for w in 1..6usize {
        for h in 1..4usize {
            let pixels: Vec<Pixel> = (0..w * h).map(|i| px(i as u8, 100 + i as u8, 200 + i as u8)).collect();
            let file = encode_bitmap(w as u32, h as u32, &pixels);
            let row = (3 * w + 3) & !3;
            assert_eq!(file.len(), 54 + row * h);
            for y in 0..h {
                for x in 0..w {
                    let at = 54 + row * (h - 1 - y) + 3 * x;
                    let p = pixels[y * w + x];
                    assert_eq!(&file[at..at + 3], &[p.b, p.g, p.r]);
                }
            }
        }
    }
}

#[test]
fn an_empty_image_is_a_header() {
    let file = encode_bitmap(0, 0, &Vec::new());
    assert_eq!(file.len(), 54);
    assert_eq!(file[2], 54);
}

#[test]
fn what_cannot_be_encoded_is_recognised() {
    assert!(can_encode(2, 2, 4));
    assert!(!can_encode(2, 2, 3));
    assert!(!can_encode(u32::MAX, 0, 0));
    assert!(!can_encode(100_000, 100_000, usize::MAX));
}
