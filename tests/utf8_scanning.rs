use editor_core::utf8_utils::{BitFlag, UTF8Flag, UTF8IntoIter, UTF8Iter, Utf8ToBytes};

fn collect_glyphs(mut it: UTF8Iter) -> Vec<Vec<u8>> {
    let mut out = Vec::new();
    while let Some(g) = it.next() {
        out.push(g.to_vec());
    }
    out
}

#[test]
fn lead_byte_length_for_every_byte() {
    for b in 0u16..=255 {
        let b = b as u8;
        let expected = match b {
            0x00..=0x7f => Some(1),
            0xc0..=0xdf => Some(2),
            0xe0..=0xef => Some(3),
            0xf0..=0xf7 => Some(4),
            _ => None,
        };
        assert_eq!(b.utf8_glyth_size(), expected, "byte {:#04x}", b);
    }
}

#[test]
fn continuation_byte_for_every_byte() {
    for b in 0u16..=255 {
        let b = b as u8;
        assert_eq!(b.utf8_is_next_glyth(), (0x80..=0xbf).contains(&b), "byte {:#04x}", b);
    }
}

#[test]
fn bit_flags() {
    assert!(0b1110_0110u8.has_flag(0b0100_0000));
    assert!(!0b1010_0110u8.has_flag(0b0100_0000));
    assert!(0b1110_0110u8.has_flag_with_mask(0b1110_0000, 0b1110_0000));
    assert!(!0b1110_0110u8.has_flag_with_mask(0b1100_0000, 0b0100_0000));
}

#[test]
fn encode_pi() {
    assert_eq!('π'.utf8_to_bytes(), Some((2, [0xCF, 0x80, 0, 0])));
}

#[test]
fn encode_euro() {
    assert_eq!('€'.utf8_to_bytes(), Some((3, [0xE2, 0x82, 0xAC, 0])));
}

#[test]
fn encode_ascii() {
    assert_eq!('a'.utf8_to_bytes(), Some((1, [0x61, 0, 0, 0])));
}

#[test]
fn encode_four_bytes() {
    assert_eq!('🦀'.utf8_to_bytes(), Some((4, [0xF0, 0x9F, 0xA6, 0x80])));
}

#[test]
fn glyphs_of_mixed_string() {
    let s: &str = "aπb";
    let glyphs = collect_glyphs(s.utf8_iter());
    assert_eq!(glyphs.len(), 3);
    let lens: Vec<usize> = glyphs.iter().map(|g| g.len()).collect();
    assert_eq!(lens, vec![1, 2, 1]);
    assert_eq!(glyphs.concat(), s.as_bytes().to_vec());
}

#[test]
fn glyphs_of_vec_and_slice() {
    let v: Vec<u8> = "a\n称🦀".as_bytes().to_vec();
    let from_vec = collect_glyphs(v.utf8_iter());
    let slice: &[u8] = &v;
    let from_slice = collect_glyphs(slice.utf8_iter());
    assert_eq!(from_vec, from_slice);
    let lens: Vec<usize> = from_vec.iter().map(|g| g.len()).collect();
    assert_eq!(lens, vec![1, 1, 3, 4]);
    assert_eq!(from_vec.concat(), v);
}

#[test]
fn glyphs_of_empty_input() {
    let v: Vec<u8> = Vec::new();
    assert!(collect_glyphs(v.utf8_iter()).is_empty());
}

#[test]
fn glyphs_stop_at_continuation_byte() {
    let v: Vec<u8> = vec![0x61, 0x80, 0x62];
    assert_eq!(collect_glyphs(v.utf8_iter()), vec![vec![0x61]]);
}

#[test]
fn glyphs_stop_at_invalid_lead_byte() {
    let v: Vec<u8> = vec![0x61, 0xF8, 0x62];
    assert_eq!(collect_glyphs(v.utf8_iter()), vec![vec![0x61]]);
}

#[test]
fn glyphs_stop_at_truncated_glyph() {
    let v: Vec<u8> = vec![0x61, 0xE2, 0x82];
    let mut it = v.utf8_iter();
    assert_eq!(it.next(), Some(&[0x61u8][..]));
    assert_eq!(it.next(), None);
    assert_eq!(it.i, 1);
    assert_eq!(it.next(), None);
}

#[test]
fn glyphs_restart_from_offset() {
    let v: Vec<u8> = "xπy".as_bytes().to_vec();
    let it = UTF8Iter { i: 1, data: &v };
    assert_eq!(collect_glyphs(it), vec![vec![0xCF, 0x80], vec![0x79]]);
    let past_end = UTF8Iter { i: 10, data: &v };
    assert!(collect_glyphs(past_end).is_empty());
}
