use min_auth::base35::{from_base35, to_base35};
use min_auth::base58::{from_base58, to_base58};

fn base35_body(val: u64, expected: &str) {
    let mut arr: Vec<u8> = (0..8).map(|i| (val >> ((7 - i) * 8)) as u8).collect();
    let mut expected = expected.to_string();
    assert_eq!(to_base35(&arr), expected);

    // each leading zero byte is written as the alphabet's zero digit,
    // so the encoding stays decodable
    for _ in 0..10 {
        arr.insert(0, 0);
        expected.insert(0, '0');
        assert_eq!(to_base35(&arr), expected);
    }
}

#[test]
fn base35_test() {
    base35_body(9761452456310830576, "2w3mq7ovuvmdm");
    base35_body(12786007138795231881, "3sf1s8d6xqxo1");
    base35_body(769922394487803181, "7z3nrbw7okjg");
    base35_body(584312613703605355, "61to7n5ab20v");
    base35_body(10774238967919020214, "36krsp0k3y7xj");
    base35_body(7709672512753955694, "29uu2gb22vq1z");
    base35_body(10567243695299174083, "34fqge57zr84i");
    base35_body(14428516099680356142, "49fgo9a031pm7");
    base35_body(796231214057025354, "88nfttks477z");
    base35_body(2430107206234966077, "q5xt5xwu29yn");
}

fn base58_body(val: u64, expected: &str) {
    let mut arr: Vec<u8> = (0..8).map(|i| (val >> ((7 - i) * 8)) as u8).collect();
    let mut expected = expected.to_string();
    assert_eq!(expected, to_base58(&arr));

    for _ in 0..10 {
        arr.insert(0, 0);
        expected.insert(0, '1');
        assert_eq!(expected, to_base58(&arr));
    }
}

#[test]
fn base58_test() {
    base58_body(9761452456310830576, "PfCnNX9dnzK");
    base58_body(12786007138795231881, "WgQUdHfrEUG");
    base58_body(769922394487803181, "2nf4EkCWY5J");
    base58_body(584312613703605355, "2MfhEYTSk1x");
    base58_body(10774238967919020214, "S1ZHCoByVkh");
    base58_body(7709672512753955694, "Jty9YcHrBfb");
    base58_body(10567243695299174083, "RXgvfzEZzQS");
    base58_body(14428516099680356142, "aVYFtV9a7VP");
    base58_body(2430107206234966077, "6eArvaAoWv8");
    base58_body(796231214057025354, "2rCVYpjXETb");
}

#[test]
fn base58_round_trip() {
    let cases: Vec<Vec<u8>> = vec![
        vec![],
        vec![0],
        vec![0, 0, 0],
        vec![1],
        vec![255],
        vec![0, 0, 7, 91],
        vec![0x80, 0, 0, 0, 0, 0, 0, 0],
        vec![1, 2, 3, 4, 5, 6, 7, 8, 9, 10, 11, 12, 13, 14, 15, 16, 17, 18],
    ];
    for bytes in cases {
        let encoded = to_base58(&bytes);
        let decoded = from_base58(encoded.as_str()).expect("the codec's own output decodes");
        assert_eq!(decoded, bytes);
    }
}

#[test]
fn base58_decode_known_value() {
    // "PfCnNX9dnzK" is the encoding of 9761452456310830576 as 8 bytes
    let decoded = from_base58("PfCnNX9dnzK").unwrap();
    let expected: Vec<u8> = (0..8)
        .map(|i| (9761452456310830576u64 >> ((7 - i) * 8)) as u8)
        .collect();
    assert_eq!(decoded, expected);
}

#[test]
fn base58_decode_leading_ones_are_zero_bytes() {
    assert_eq!(from_base58("111").unwrap(), vec![0u8, 0, 0]);
    assert_eq!(from_base58("").unwrap(), Vec::<u8>::new());
}

#[test]
fn base35_round_trip() {
    let cases: Vec<Vec<u8>> = vec![
        vec![],
        vec![0],
        vec![0, 0, 0],
        vec![1],
        vec![255],
        vec![0, 0, 7, 91],
        vec![0xe0, 0, 0, 0, 0, 0, 0, 0],
        vec![1, 2, 3, 4, 5, 6, 7, 8, 9, 10, 11, 12, 13, 14, 15, 16, 17, 18],
    ];
    for bytes in cases {
        let encoded = to_base35(&bytes);
        let decoded = from_base35(encoded.as_str()).expect("the codec's own output decodes");
        assert_eq!(decoded, bytes);
    }
}

#[test]
fn base35_decode_known_value() {
    // "2w3mq7ovuvmdm" is the encoding of 9761452456310830576 as 8 bytes
    let decoded = from_base35("2w3mq7ovuvmdm").unwrap();
    let expected: Vec<u8> = (0..8)
        .map(|i| (9761452456310830576u64 >> ((7 - i) * 8)) as u8)
        .collect();
    assert_eq!(decoded, expected);
}

#[test]
fn base35_decode_leading_zero_digits_are_zero_bytes() {
    assert_eq!(from_base35("000").unwrap(), vec![0u8, 0, 0]);
    assert_eq!(from_base35("").unwrap(), Vec::<u8>::new());
}

#[test]
fn base35_decode_rejects_foreign_characters() {
    assert!(from_base35("l").is_none());
    assert!(from_base35("A").is_none());
    assert!(from_base35("2w 3m").is_none());
    assert!(from_base35("caf\u{e9}").is_none());
}

#[test]
fn base58_decode_rejects_foreign_characters() {
    assert!(from_base58("0").is_none());
    assert!(from_base58("I").is_none());
    assert!(from_base58("O").is_none());
    assert!(from_base58("l").is_none());
    assert!(from_base58("Pf nNX").is_none());
    assert!(from_base58("caf\u{e9}").is_none());
}
