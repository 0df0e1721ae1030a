use base64_encode::{
    add_padding, checked_encode_size, checked_encode_slice, encode, encode_size, encode_slice,
    encode_to_slice,
};

#[test]
fn empty_input_gives_empty_text() {
    assert_eq!(encode(&[]), "");
    assert_eq!(encode_size(0), 0);
}

#[test]
fn single_zero_byte() {
    assert_eq!(encode(&[0x00]), "AA==");
}

#[test]
fn three_bytes_need_no_padding() {
    assert_eq!(encode(&[0x4d, 0x61, 0x6e]), "TWFu");
}

#[test]
fn two_bytes_take_one_pad() {
    assert_eq!(encode(&[0x4d, 0x61]), "TWE=");
}

#[test]
fn one_byte_takes_two_pads() {
    assert_eq!(encode(&[0x4d]), "TQ==");
}

#[test]
fn four_bytes_end_in_two_pads() {
    let text = encode(&[0x00, 0x01, 0x02, 0x03]);
    assert_eq!(text.len(), 8);
    assert_eq!(encode_size(4), 8);
    assert!(text.ends_with("=="));
    assert_eq!(text, "AAECAw==");
}

#[test]
fn every_symbol_of_the_alphabet() {
    // the 6-bit values 0, 1, 2, ..., 63 in order, packed into 48 bytes
    let mut input = vec![0u8; 48];
    for group in 0..16u32 {
        let v = ((4 * group) << 18) | ((4 * group + 1) << 12) | ((4 * group + 2) << 6)
            | (4 * group + 3);
        input[3 * group as usize] = (v >> 16) as u8;
        input[3 * group as usize + 1] = (v >> 8) as u8;
        input[3 * group as usize + 2] = v as u8;
    }
    assert_eq!(
        encode(&input),
        "ABCDEFGHIJKLMNOPQRSTUVWXYZabcdefghijklmnopqrstuvwxyz0123456789+/"
    );
}

#[test]
fn high_bits_reach_the_last_symbols() {
    assert_eq!(encode(&[0xff, 0xff, 0xff]), "////");
    assert_eq!(encode(&[0xfb, 0xef, 0xbe]), "++++");
    assert_eq!(encode(&[0xff]), "/w==");
    assert_eq!(encode(&[0xff, 0xff]), "//8=");
}

#[test]
fn sizes_by_formula() {
    assert_eq!(encode_size(1), 4);
    assert_eq!(encode_size(2), 4);
    assert_eq!(encode_size(3), 4);
    assert_eq!(encode_size(5), 8);
    assert_eq!(encode_size(6), 8);
    assert_eq!(encode_size(7), 12);
    assert_eq!(encode_size(300), 400);
}

#[test]
fn checked_size_agrees_and_stops_at_the_limit() {
    assert_eq!(checked_encode_size(0), Some(0));
    assert_eq!(checked_encode_size(4), Some(8));
    assert_eq!(checked_encode_size(300), Some(400));
    assert_eq!(checked_encode_size(usize::MAX), None);
    let most = usize::MAX / 4 * 3;
    assert_eq!(checked_encode_size(most), Some(usize::MAX / 4 * 4));
    assert_eq!(checked_encode_size(most + 1), None);
}

#[test]
fn symbols_without_padding() {
    let mut out = [b'#'; 8];
    assert_eq!(encode_to_slice(b"Ma", &mut out), 3);
    assert_eq!(&out, b"TWE#####");

    let mut out = [b'#'; 8];
    assert_eq!(encode_to_slice(b"M", &mut out), 2);
    assert_eq!(&out, b"TQ######");

    let mut out = [b'#'; 8];
    assert_eq!(encode_to_slice(b"Man", &mut out), 4);
    assert_eq!(&out, b"TWFu####");

    let mut out = [b'#'; 8];
    assert_eq!(encode_to_slice(b"", &mut out), 0);
    assert_eq!(&out, b"########");

    let mut exact = [0u8; 6];
    assert_eq!(encode_to_slice(b"Many", &mut exact), 6);
    assert_eq!(&exact, b"TWFueQ");
}

#[test]
fn padding_by_remainder() {
    let mut out = [b'#'; 4];
    assert_eq!(add_padding(3, &mut out), 0);
    assert_eq!(&out, b"####");

    let mut out = [b'#'; 4];
    assert_eq!(add_padding(4, &mut out), 2);
    assert_eq!(&out, b"==##");

    let mut out = [b'#'; 4];
    assert_eq!(add_padding(5, &mut out), 1);
    assert_eq!(&out, b"=###");

    let mut none: [u8; 0] = [];
    assert_eq!(add_padding(0, &mut none), 0);
}

#[test]
fn slice_keeps_what_lies_behind_the_encoding() {
    let mut out = [b'#'; 11];
    assert_eq!(encode_slice(b"Many", &mut out), 8);
    assert_eq!(&out, b"TWFueQ==###");
}

#[test]
fn exact_buffer_matches_text() {
    let input = b"any carnal pleas";
    let mut out = vec![0u8; encode_size(input.len())];
    let written = encode_slice(input, &mut out);
    assert_eq!(written, out.len());
    assert_eq!(out, encode(input).into_bytes());
    assert_eq!(out, b"YW55IGNhcm5hbCBwbGVhcw==");
}

#[test]
fn checked_slice_refuses_a_short_buffer() {
    let mut out = [b'#'; 7];
    assert_eq!(checked_encode_slice(b"Many", &mut out), None);
    assert_eq!(&out, b"#######");

    let mut none: [u8; 0] = [];
    assert_eq!(checked_encode_slice(b"M", &mut none), None);
}

#[test]
fn checked_slice_writes_where_there_is_room() {
    let mut out = [b'#'; 8];
    assert_eq!(checked_encode_slice(b"Many", &mut out), Some(8));
    assert_eq!(&out, b"TWFueQ==");

    let mut out = [b'#'; 10];
    assert_eq!(checked_encode_slice(b"Man", &mut out), Some(4));
    assert_eq!(&out, b"TWFu######");

    let mut none: [u8; 0] = [];
    assert_eq!(checked_encode_slice(b"", &mut none), Some(0));
}
