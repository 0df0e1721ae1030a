use base64_encode::{encode_size, encode_with_padding};

const PLAIN: &[u8] = b"\
    Base64 turns every three bytes into four letters.\n\
    A last group of one or two bytes is padded with '='.\n\
    Bytes beyond ASCII: \xc3\xa9\xc3\xbc\xe2\x9c\x93 and a tab\t.\n";

const ENCODED: &[u8] = b"\
    QmFzZTY0IHR1cm5zIGV2ZXJ5IHRocmVlIGJ5dGVzIGludG8gZm91ciBsZXR0ZXJz\
    LgpBIGxhc3QgZ3JvdXAgb2Ygb25lIG9yIHR3byBieXRlcyBpcyBwYWRkZWQgd2l0\
    aCAnPScuCkJ5dGVzIGJleW9uZCBBU0NJSTogw6nDvOKckyBhbmQgYSB0YWIJLgo=";

#[test]
fn check_size() {
    let input = PLAIN;
    let output = ENCODED;

    let in_len = input.len();
    let out_len = output.len();

    assert_eq!(out_len, encode_size(in_len));
}

#[test]
fn check_encode_with_padding() {
    let input = PLAIN;
    let output = ENCODED;

    let in_len = input.len();
    let out_len = output.len();

    let mut buf = vec![0u8; encode_size(in_len)];
    encode_with_padding(input, &mut buf, out_len);

    assert_eq!(output, buf);
}
