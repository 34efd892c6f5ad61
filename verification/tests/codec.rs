use nfsv2::xdr::{pad_len, Decode, DecodeError, Encode};

fn encoded<T: Encode>(v: &T) -> Vec<u8> {
    let mut b = Vec::new();
    v.encode(&mut b);
    b
}

#[test]
fn pad_len_rounds_to_four() {
    assert_eq!(pad_len(0), 0);
    assert_eq!(pad_len(1), 3);
    assert_eq!(pad_len(2), 2);
    assert_eq!(pad_len(3), 1);
    assert_eq!(pad_len(4), 0);
}

#[test]
fn integers_roundtrip() {
    assert_eq!(encoded(&0xdead_beefu32), vec![0xde, 0xad, 0xbe, 0xef]);
    assert_eq!(u32::decode(&encoded(&0xdead_beefu32)), Ok(0xdead_beef));
    assert_eq!(i32::decode(&encoded(&-5i32)), Ok(-5));
    assert_eq!(u64::decode(&encoded(&0x0123_4567_89ab_cdefu64)), Ok(0x0123_4567_89ab_cdef));
    assert_eq!(i64::decode(&encoded(&i64::MIN)), Ok(i64::MIN));
}

#[test]
fn short_buffers_are_refused() {
    assert_eq!(u32::decode(&[1, 2, 3]), Err(DecodeError::NotEnoughBytes));
    assert_eq!(u64::decode(&[1, 2, 3, 4, 5, 6, 7]), Err(DecodeError::NotEnoughBytes));
    assert_eq!(<[u8; 32]>::decode(&[0; 31]), Err(DecodeError::NotEnoughBytes));
    assert_eq!(Vec::<u8>::decode(&[0, 0, 0, 3, 1, 2, 3]), Err(DecodeError::NotEnoughBytes));
}

#[test]
fn bool_accepts_only_zero_and_one() {
    assert_eq!(encoded(&true), vec![0, 0, 0, 1]);
    assert_eq!(bool::decode(&[0, 0, 0, 0]), Ok(false));
    assert_eq!(bool::decode(&[0, 0, 0, 1]), Ok(true));
    assert_eq!(bool::decode(&[0, 0, 0, 2]), Err(DecodeError::InvalidBool(2)));
}

#[test]
fn unit_is_empty() {
    assert_eq!(encoded(&()), Vec::<u8>::new());
    assert_eq!(<()>::decode(&[]), Ok(()));
}

#[test]
fn bytes_and_strings_roundtrip() {
    let v = vec![1u8, 2, 3, 4, 5];
    let b = encoded(&v);
    assert_eq!(b, vec![0, 0, 0, 5, 1, 2, 3, 4, 5, 0, 0, 0]);
    assert_eq!(Vec::<u8>::decode(&b), Ok(v));
    let s = String::from("ünïcode");
    assert_eq!(String::decode(&encoded(&s)), Ok(s));
    assert_eq!(String::decode(&[0, 0, 0, 1, 0xc3, 0, 0, 0]), Err(DecodeError::InvalidUtf8));
}

#[test]
fn fixed_array_roundtrip() {
    let mut a = [0u8; 32];
    for (i, x) in a.iter_mut().enumerate() {
        *x = i as u8;
    }
    let b = encoded(&a);
    assert_eq!(b.len(), 32);
    assert_eq!(<[u8; 32]>::decode(&b), Ok(a));
}
