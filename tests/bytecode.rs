use classpath::bytecode::{BytecodeReader, U1, U2, U4, U8};

#[test]
fn basic() {
    let bytes = vec![0xCA, 0xFE, 0xBA, 0xBE, 0x00, 0x00, 0x00, 0x37];
    let bytes = &mut bytes.as_slice();
    assert_eq!(202, U1::read(bytes));
    assert_eq!(254, U1::read(bytes));
}

#[test]
fn basic_u2() {
    let bytes = vec![0xCA, 0xFE, 0xBA, 0xBE, 0x00, 0x00, 0x00, 0x37];
    let bytes = &mut bytes.as_slice();
    assert_eq!(51966, U2::read(bytes));
    assert_eq!(47806, U2::read(bytes));
}

#[test]
fn basic_u4() {
    let bytes = vec![0xCA, 0xFE, 0xBA, 0xBE, 0x00, 0x00, 0x00, 0x37];
    let bytes = &mut bytes.as_slice();
    assert_eq!(3405691582, U4::read(bytes));
    assert_eq!(55, U4::read(bytes));
}

#[test]
fn basic_u8() {
    let bytes = vec![0xCA, 0xFE, 0xBA, 0xBE, 0x00, 0x00, 0x00, 0x37];
    let bytes = &mut bytes.as_slice();
    assert_eq!([0xCA, 0xFE, 0xBA, 0xBE, 0x00, 0x00, 0x00, 0x37], U8::read(bytes).to_be_bytes());
}

#[test]
fn each_width_consumes_its_bytes() {
    let data = vec![1u8, 2, 3, 4, 5, 6, 7, 8, 9, 10, 11, 12, 13, 14, 15, 16];
    let mut cur = &data[3..];
    assert_eq!(4, U1::read(&mut cur));
    assert_eq!(12, cur.len());
    assert_eq!(0x0506, U2::read(&mut cur));
    assert_eq!(10, cur.len());
    assert_eq!(0x0708090A, U4::read(&mut cur));
    assert_eq!(6, cur.len());
    let mut cur = &data[..];
    assert_eq!(0x0102030405060708, U8::read(&mut cur));
    assert_eq!(8, cur.len());
    assert_eq!(9, cur[0]);
}

#[test]
fn two_single_bytes_match_one_pair() {
    let data = [0xCAu8, 0xFE];
    let mut a = &data[..];
    let hi = U1::read(&mut a) as u16;
    let lo = U1::read(&mut a) as u16;
    let mut b = &data[..];
    assert_eq!(hi * 256 + lo, U2::read(&mut b));
    assert!(a.is_empty() && b.is_empty());
}

#[test]
fn eight_bytes_round_trip() {
    let data = [0xFFu8, 0x00, 0x80, 0x01, 0x7F, 0xFE, 0x10, 0x00];
    let mut cur = &data[..];
    assert_eq!(data, U8::read(&mut cur).to_be_bytes());
    let max = [0xFFu8; 8];
    let mut cur = &max[..];
    assert_eq!(u64::MAX, U8::read(&mut cur));
}
