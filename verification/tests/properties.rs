use base64_encode::{encode, encode_size};

/// Bytes that differ from one position to the next and cover all 256 values.
fn sample(len: usize) -> Vec<u8> {
    let mut bytes = Vec::with_capacity(len);
    for i in 0..len {
        bytes.push((i * 131 + 7) as u8);
    }
    bytes
}

fn value_of(symbol: u8) -> Option<u32> {
    match symbol {
        b'A'..=b'Z' => Some((symbol - b'A') as u32),
        b'a'..=b'z' => Some((symbol - b'a') as u32 + 26),
        b'0'..=b'9' => Some((symbol - b'0') as u32 + 52),
        b'+' => Some(62),
        b'/' => Some(63),
        _ => None,
    }
}

/// A plain decoder of padded Base64, written for these tests only.
fn decode(text: &str) -> Option<Vec<u8>> {
    let bytes = text.as_bytes();
    if bytes.len() % 4 != 0 {
        return None;
    }
    let mut out = Vec::new();
    for (index, group) in bytes.chunks(4).enumerate() {
        let last = index + 1 == bytes.len() / 4;
        let pads = if !last {
            0
        } else if group[2] == b'=' && group[3] == b'=' {
            2
        } else if group[3] == b'=' {
            1
        } else {
            0
        };
        let mut v: u32 = 0;
        for (i, &c) in group.iter().enumerate() {
            let digit = if i >= 4 - pads { 0 } else { value_of(c)? };
            v = (v << 6) | digit;
        }
        out.push((v >> 16) as u8);
        if pads < 2 {
            out.push((v >> 8) as u8);
        }
        if pads < 1 {
            out.push(v as u8);
        }
    }
    Some(out)
}

#[test]
fn size_is_a_multiple_of_four() {
    for n in 0..1000usize {
        assert_eq!(encode_size(n) % 4, 0);
    }
}

#[test]
fn size_is_four_times_the_groups() {
    for n in 0..1000usize {
        let groups = n / 3 + if n % 3 == 0 { 0 } else { 1 };
        assert_eq!(encode_size(n), 4 * groups);
    }
}

#[test]
fn size_is_the_same_each_time() {
    for n in [0usize, 1, 2, 3, 100, 4097] {
        assert_eq!(encode_size(n), encode_size(n));
    }
}

#[test]
fn text_has_the_computed_length() {
    for n in 0..200usize {
        assert_eq!(encode(&sample(n)).len(), encode_size(n));
    }
}

#[test]
fn text_decodes_to_the_input() {
    for n in 0..300usize {
        let input = sample(n);
        assert_eq!(decode(&encode(&input)), Some(input));
    }
}

#[test]
fn pads_stand_only_at_the_end() {
    for n in 0..100usize {
        let text = encode(&sample(n));
        let bytes = text.as_bytes();
        let pads = (3 - n % 3) % 3;
        for (i, &c) in bytes.iter().enumerate() {
            if i < bytes.len() - pads {
                assert!(value_of(c).is_some());
            } else {
                assert_eq!(c, b'=');
            }
        }
    }
}
