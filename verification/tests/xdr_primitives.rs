use nfsv2::rpc::xdr::{XdrDecoder, XdrEncoder, XdrError, RPC_VERSION};

#[test]
fn put_u32_is_big_endian() {
    let mut e = XdrEncoder::new();
    e.put_u32(0x0102_0304);
    assert_eq!(e.into_bytes(), vec![1, 2, 3, 4]);
}

#[test]
fn put_i32_is_twos_complement() {
    let mut e = XdrEncoder::new();
    e.put_i32(-2);
    assert_eq!(e.into_bytes(), vec![0xff, 0xff, 0xff, 0xfe]);
}

#[test]
fn put_u64_is_big_endian() {
    let mut e = XdrEncoder::new();
    e.put_u64(0x0102_0304_0506_0708);
    assert_eq!(e.into_bytes(), vec![1, 2, 3, 4, 5, 6, 7, 8]);
}

#[test]
fn put_bool_writes_one_or_zero() {
    let mut e = XdrEncoder::default();
    e.put_bool(true);
    e.put_bool(false);
    assert_eq!(e.into_bytes(), vec![0, 0, 0, 1, 0, 0, 0, 0]);
}

#[test]
fn put_opaque_fixed_pads_to_four() {
    let mut e = XdrEncoder::new();
    e.put_opaque_fixed(&[9, 8, 7, 6, 5]);
    assert_eq!(e.into_bytes(), vec![9, 8, 7, 6, 5, 0, 0, 0]);
    let mut e = XdrEncoder::new();
    e.put_opaque_fixed(&[1, 2, 3, 4]);
    assert_eq!(e.into_bytes(), vec![1, 2, 3, 4]);
}

#[test]
fn put_opaque_var_writes_length_bytes_padding() {
    let mut e = XdrEncoder::new();
    e.put_opaque_var(&[1, 2, 3]);
    assert_eq!(e.into_bytes(), vec![0, 0, 0, 3, 1, 2, 3, 0]);
}

#[test]
fn put_string_writes_utf8() {
    let mut e = XdrEncoder::new();
    e.put_string("héllo");
    let b = e.into_bytes();
    assert_eq!(&b[..4], &[0, 0, 0, 6]);
    assert_eq!(&b[4..10], "héllo".as_bytes());
    assert_eq!(&b[10..], &[0, 0]);
}

#[test]
fn put_u32_array_writes_count_then_items() {
    let mut e = XdrEncoder::new();
    e.put_u32_array(&[7, 0x100]);
    assert_eq!(e.into_bytes(), vec![0, 0, 0, 2, 0, 0, 0, 7, 0, 0, 1, 0]);
}

#[test]
fn put_raw_appends_as_is() {
    let mut e = XdrEncoder::new();
    e.put_raw(&[1, 2, 3]);
    e.put_u32(4);
    assert_eq!(e.into_bytes(), vec![1, 2, 3, 0, 0, 0, 4]);
}

#[test]
fn read_u32_and_eof() {
    let buf = [0, 0, 1, 0, 9];
    let mut d = XdrDecoder::new(&buf);
    assert_eq!(d.read_u32(), Ok(256));
    assert_eq!(d.pos(), 4);
    assert_eq!(d.read_u32(), Err(XdrError::Eof));
    assert_eq!(d.pos(), 4);
    assert_eq!(d.remaining(), &[9]);
}

#[test]
fn read_i32_u64_bool() {
    let buf = [0xff, 0xff, 0xff, 0xff, 0, 0, 0, 1, 0, 0, 0, 2, 0, 0, 0, 2];
    let mut d = XdrDecoder::new(&buf);
    assert_eq!(d.read_i32(), Ok(-1));
    assert_eq!(d.read_u64(), Ok(0x1_0000_0002));
    assert_eq!(d.read_bool(), Ok(true));
    assert_eq!(d.read_bool(), Err(XdrError::Eof));
}

#[test]
fn read_bool_zero_is_false() {
    let buf = [0, 0, 0, 0];
    let mut d = XdrDecoder::new(&buf);
    assert_eq!(d.read_bool(), Ok(false));
}

#[test]
fn read_opaque_fixed_skips_padding() {
    let buf = [1, 2, 3, 0, 0, 0, 0, 5];
    let mut d = XdrDecoder::new(&buf);
    assert_eq!(d.read_opaque_fixed(3), Ok(&[1u8, 2, 3][..]));
    assert_eq!(d.pos(), 4);
    assert_eq!(d.read_u32(), Ok(5));
}

#[test]
fn read_opaque_fixed_needs_its_padding() {
    let buf = [1, 2, 3, 4, 5];
    let mut d = XdrDecoder::new(&buf);
    assert_eq!(d.read_opaque_fixed(5), Err(XdrError::Eof));
    assert_eq!(d.pos(), 0);
    assert_eq!(d.remaining(), &buf[..]);
    let short = [1, 2, 3];
    let mut d = XdrDecoder::new(&short);
    assert_eq!(d.read_opaque_fixed(1), Err(XdrError::Eof));
    assert_eq!(d.pos(), 0);
    assert_eq!(d.read_opaque_fixed(usize::MAX), Err(XdrError::Eof));
    let padded = [1, 2, 3, 4, 5, 0, 0, 0];
    let mut d = XdrDecoder::new(&padded);
    assert_eq!(d.read_opaque_fixed(5), Ok(&padded[..5]));
    assert_eq!(d.pos(), 8);
    assert!(d.remaining().is_empty());
}

#[test]
fn read_opaque_fixed_too_long_is_eof() {
    let buf = [1, 2];
    let mut d = XdrDecoder::new(&buf);
    assert_eq!(d.read_opaque_fixed(3), Err(XdrError::Eof));
    assert_eq!(d.pos(), 0);
}

#[test]
fn read_opaque_var_reads_counted_bytes() {
    let buf = [0, 0, 0, 2, 0xaa, 0xbb, 0, 0, 0, 0, 0, 9];
    let mut d = XdrDecoder::new(&buf);
    assert_eq!(d.read_opaque_var(), Ok(&[0xaau8, 0xbb][..]));
    assert_eq!(d.read_u32(), Ok(9));
}

#[test]
fn read_opaque_var_short_body_leaves_cursor_after_count() {
    let buf = [0, 0, 0, 9, 1];
    let mut d = XdrDecoder::new(&buf);
    assert_eq!(d.read_opaque_var(), Err(XdrError::Eof));
    assert_eq!(d.pos(), 4);
}

#[test]
fn read_string_ok_and_invalid_utf8() {
    let buf = [0, 0, 0, 2, b'h', b'i', 0, 0];
    let mut d = XdrDecoder::new(&buf);
    assert_eq!(d.read_string(), Ok("hi"));
    let bad = [0, 0, 0, 1, 0xff, 0, 0, 0];
    let mut d = XdrDecoder::new(&bad);
    assert_eq!(d.read_string(), Err(XdrError::Malformed));
    assert_eq!(d.pos(), 8);
}

#[test]
fn read_u32_array_ok_and_partial() {
    let buf = [0, 0, 0, 2, 0, 0, 0, 1, 0, 0, 0, 3];
    let mut d = XdrDecoder::new(&buf);
    assert_eq!(d.read_u32_array(), Ok(vec![1, 3]));
    let short = [0, 0, 0, 3, 0, 0, 0, 1, 0, 0];
    let mut d = XdrDecoder::new(&short);
    assert_eq!(d.read_u32_array(), Err(XdrError::Eof));
    assert_eq!(d.pos(), 8);
}

#[test]
fn encoded_items_read_back() {
    let mut e = XdrEncoder::new();
    e.put_u32(42);
    e.put_opaque_var(&[1, 2, 3, 4, 5]);
    e.put_string("name");
    e.put_u32_array(&[9, 8, 7]);
    e.put_u64(u64::MAX - 1);
    let b = e.into_bytes();
    assert_eq!(b.len() % 4, 0);
    let mut d = XdrDecoder::new(&b);
    assert_eq!(d.read_u32(), Ok(42));
    assert_eq!(d.read_opaque_var(), Ok(&[1u8, 2, 3, 4, 5][..]));
    assert_eq!(d.read_string(), Ok("name"));
    assert_eq!(d.read_u32_array(), Ok(vec![9, 8, 7]));
    assert_eq!(d.read_u64(), Ok(u64::MAX - 1));
    assert_eq!(d.pos(), b.len());
    assert_eq!(RPC_VERSION, 2);
}
