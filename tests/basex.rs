use sithra::basex::{BaseXMap, Error};

fn hex() -> BaseXMap {
    BaseXMap::Base16([
        '0', '1', '2', '3', '4', '5', '6', '7', '8', '9', 'a', 'b', 'c', 'd', 'e', 'f',
    ])
}

fn b64() -> BaseXMap {
    let chars: Vec<char> =
        "ABCDEFGHIJKLMNOPQRSTUVWXYZabcdefghijklmnopqrstuvwxyz0123456789+/".chars().collect();
    BaseXMap::Base64(chars)
}

#[test]
fn encode_hex_number() {
    assert_eq!(hex().encode(&[0x01, 0xff]), "1ff");
    assert_eq!(hex().encode(&[0x12, 0x34]), "1234");
}

#[test]
fn encode_empty_and_zero() {
    assert_eq!(hex().encode(&[]), "");
    assert_eq!(hex().encode(&[0, 0, 0]), "0");
}

#[test]
fn encode_binary() {
    let m = BaseXMap::Base2(['o', 'i']);
    assert_eq!(m.encode(&[5]), "ioi");
}

#[test]
fn encode_base64_alphabet() {
    assert_eq!(b64().encode(&[64]), "BA");
    assert_eq!(b64().encode(&[63]), "/");
}

#[test]
fn decode_hex_number() {
    assert_eq!(hex().decode("1ff").unwrap(), vec![0x01, 0xff]);
    assert_eq!(hex().decode("0").unwrap(), vec![0]);
    assert_eq!(hex().decode("").unwrap(), Vec::<u8>::new());
    assert_eq!(hex().decode("000ff").unwrap(), vec![0xff]);
}

#[test]
fn decode_invalid_character() {
    match hex().decode("12x4z") {
        Err(Error::InvalidCharacter(c)) => assert_eq!(c, 'x'),
        other => panic!("unexpected {other:?}"),
    }
}

#[test]
fn decode_string_text() {
    assert_eq!(hex().decode_string("68656c6c6f").unwrap(), "hello");
}

#[test]
fn decode_string_not_utf8() {
    match hex().decode_string("ff") {
        Err(Error::Utf8Decode(b)) => assert_eq!(b, vec![0xff]),
        other => panic!("unexpected {other:?}"),
    }
}

#[test]
fn error_messages() {
    assert_eq!(Error::InvalidCharacter('x').message(), "字符 'x' 无效喵");
    assert_eq!(Error::InvalidLength(3).message(), "长度无效喵");
}

#[test]
fn round_trip_without_leading_zeros() {
    let inputs: Vec<Vec<u8>> = vec![vec![], vec![0], vec![1, 2, 3], vec![0xff; 9], b"hello".to_vec()];
    for m in [hex(), b64(), BaseXMap::Base2(['0', '1']), BaseXMap::Base8(['a', 'b', 'c', 'd', 'e', 'f', 'g', 'h'])] {
        for b in &inputs {
            assert_eq!(&m.decode(&m.encode(b)).unwrap(), b);
        }
    }
}

#[test]
fn round_trip_drops_leading_zero_bytes() {
    assert_eq!(hex().decode(&hex().encode(&[0, 1])).unwrap(), vec![1]);
}
