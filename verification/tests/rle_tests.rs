use epd_fontgen::rle::{decode_runs, encode_row};

fn bits_of(row: &[u8], width: usize) -> Vec<bool> {
    let mut out = Vec::new();
    for i in 0..width {
        out.push((row[i / 8] >> (7 - (i % 8))) & 1 == 1);
    }
    out
}

#[test]
fn round_trip_short_row() {
    let row = [0b1011_0000u8];
    let runs = encode_row(&row, 4);
    assert_eq!(runs, vec![0x8001, 0x0001, 0x8002]);
    assert_eq!(decode_runs(&runs), bits_of(&row, 4));
}

#[test]
fn round_trip_multi_byte_row() {
    let row = [0xF0u8, 0x0F];
    let runs = encode_row(&row, 16);
    assert_eq!(runs, vec![0x8004, 0x0008, 0x8004]);
    assert_eq!(decode_runs(&runs), bits_of(&row, 16));
}

#[test]
fn uniform_row_gives_one_run() {
    let ones = [0xFFu8];
    assert_eq!(encode_row(&ones, 8), vec![0x8008]);
    let zeros = [0x00u8];
    assert_eq!(encode_row(&zeros, 8), vec![0x0008]);
}

#[test]
fn round_trip_many_widths() {
    let row = [0b1010_1100u8, 0b0011_1110, 0b1000_0001];
    for width in 1..=24 {
        let runs = encode_row(&row, width);
        assert_eq!(decode_runs(&runs), bits_of(&row, width), "width {}", width);
    }
}

#[test]
fn runs_are_maximal() {
    let row = [0b1100_0110u8, 0b0000_1111];
    let runs = encode_row(&row, 16);
    let mut total = 0u32;
    for (k, w) in runs.iter().enumerate() {
        let color = w & 0x8000 != 0;
        let length = w & 0x7FFF;
        assert!(length >= 1);
        total += length as u32;
        if k + 1 < runs.len() {
            let next_color = runs[k + 1] & 0x8000 != 0;
            assert_ne!(color, next_color);
        }
    }
    assert_eq!(total, 16);
}

#[test]
fn decode_nothing() {
    let runs: Vec<u16> = Vec::new();
    assert_eq!(decode_runs(&runs), Vec::<bool>::new());
}

#[test]
fn longest_row_is_one_run_at_the_cap() {
    // 32767 pixels, the largest run length a word can hold
    let row = vec![0u8; 4096];
    let runs = encode_row(&row, 32767);
    assert_eq!(runs, vec![0x7FFF]);
    let ones = vec![0xFFu8; 4096];
    let runs = encode_row(&ones, 32767);
    assert_eq!(runs, vec![0xFFFF]);
    assert_eq!(decode_runs(&runs).len(), 32767);
}
