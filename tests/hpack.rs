use h2::hpack::{decode_header_block, decode_integer, encode_integer};
use h2::Reason;

#[test]
fn integer_examples() {
    assert_eq!(encode_integer(10, 5), vec![0x0a]);
    assert_eq!(encode_integer(1337, 5), vec![31, 154, 10]);
    assert_eq!(encode_integer(42, 8), vec![42]);
    assert_eq!(encode_integer(31, 5), vec![31, 0]);
    assert_eq!(decode_integer(&[31, 154, 10], 5), Ok((1337, 3)));
    assert_eq!(decode_integer(&[0xea], 5), Ok((10, 1)));
    assert_eq!(decode_integer(&[42, 99], 8), Ok((42, 1)));
}

#[test]
fn integer_round_trip() {
    for n in 1..=8u8 {
        for v in [0u32, 1, 30, 127, 128, 255, 256, 16_383, 1 << 21, u32::MAX - 1, u32::MAX] {
            let b = encode_integer(v, n);
            assert_eq!(decode_integer(&b, n), Ok((v, b.len())));
        }
    }
}

#[test]
fn integer_errors() {
    assert_eq!(decode_integer(&[], 5), Err(Reason::CompressionError));
    assert_eq!(decode_integer(&[31, 154], 5), Err(Reason::CompressionError));
    assert_eq!(
        decode_integer(&[31, 0x80, 0x80, 0x80, 0x80, 0x80, 1], 5),
        Err(Reason::CompressionError)
    );
    assert_eq!(
        decode_integer(&[255, 0xff, 0xff, 0xff, 0xff, 0x0f], 8),
        Err(Reason::CompressionError)
    );
}

fn field(name: &str, value: &str, sensitive: bool) -> h2::hpack::HeaderField {
    h2::hpack::HeaderField {
        name: name.as_bytes().to_vec(),
        value: value.as_bytes().to_vec(),
        sensitive,
    }
}

#[test]
fn block_exact_bytes() {
    let b = h2::hpack::encode_block(&vec![field("a", "b", false), field("c", "", true)]);
    assert_eq!(b, vec![0x00, 0x01, b'a', 0x01, b'b', 0x10, 0x01, b'c', 0x00]);
}

#[test]
fn block_round_trip() {
    let long = "v".repeat(300);
    let fields = vec![
        field(":method", "GET", false),
        field(":path", "/", false),
        field("authorization", "token", true),
        field("x-long", &long, false),
        field("", "", false),
    ];
    let b = h2::hpack::encode_block(&fields);
    assert_eq!(h2::hpack::decode_block(&b), Ok(fields));
    assert_eq!(h2::hpack::decode_block(&[]), Ok(vec![]));
}

#[test]
fn block_errors() {
    // cut short inside the value
    assert_eq!(
        h2::hpack::decode_block(&[0x00, 0x01, b'a', 0x02, b'b']),
        Err(Reason::CompressionError)
    );
    // an indexed field is not a literal one
    assert_eq!(h2::hpack::decode_block(&[0x82]), Err(Reason::CompressionError));
    // a Huffman-coded name
    assert_eq!(
        h2::hpack::decode_block(&[0x00, 0x81, 0x1f, 0x01, b'b']),
        Err(Reason::CompressionError)
    );
}

#[test]
fn header_block_size_updates() {
    // a size update to 4096 leads the block, then one field
    let mut b = vec![0x3f, 0xe1, 0x1f];
    b.extend(h2::hpack::encode_block(&vec![field("a", "b", false)]));
    assert_eq!(decode_header_block(&b, 4096), Ok((vec![4096], vec![field("a", "b", false)])));
    // the same update is above a table size of 4000
    assert_eq!(decode_header_block(&b, 4000), Err(Reason::CompressionError));
    // a size update after the first field
    let mut late = h2::hpack::encode_block(&vec![field("a", "b", false)]);
    late.push(0x20);
    assert_eq!(decode_header_block(&late, 4096), Err(Reason::CompressionError));
    // two leading updates, no fields
    assert_eq!(decode_header_block(&[0x20, 0x30], 4096), Ok((vec![0, 16], vec![])));
    // the encoder's blocks carry no updates
    let fields = vec![field("x", "1", true), field("y", "", false)];
    let enc = h2::hpack::encode_block(&fields);
    assert_eq!(decode_header_block(&enc, 0), Ok((vec![], fields)));
}
