use pod::{Error, Pod};

#[test]
fn native_word_bytes_and_back() {
    let v: u32 = 0x11223344;
    let bytes = v.as_bytes();
    assert_eq!(bytes, vec![0x44, 0x33, 0x22, 0x11]);
    assert_eq!(bytes, v.to_le_bytes().to_vec());
    let back = u32::from_bytes(&bytes);
    assert_eq!(back, Ok(0x11223344u32));
}

#[test]
fn image_sizes_match_types() {
    assert_eq!(7u8.as_bytes().len(), 1);
    assert_eq!((-7i8).as_bytes().len(), 1);
    assert_eq!(7u16.as_bytes().len(), 2);
    assert_eq!((-7i16).as_bytes().len(), 2);
    assert_eq!(7u32.as_bytes().len(), 4);
    assert_eq!((-7i32).as_bytes().len(), 4);
    assert_eq!(7u64.as_bytes().len(), 8);
    assert_eq!((-7i64).as_bytes().len(), 8);
    assert_eq!(7u128.as_bytes().len(), 16);
    assert_eq!((-7i128).as_bytes().len(), 16);
    assert_eq!([1u16, 2, 3].as_bytes().len(), 6);
    assert_eq!([[1u32; 2]; 3].as_bytes().len(), 24);
}

#[test]
fn byte_len_checked_gives_sizes() {
    assert_eq!(u8::byte_len_checked(), Some(1));
    assert_eq!(i64::byte_len_checked(), Some(8));
    assert_eq!(<[u32; 5]>::byte_len_checked(), Some(20));
    assert_eq!(<[u64; 0]>::byte_len_checked(), Some(0));
}

#[test]
fn signed_values_use_twos_complement() {
    assert_eq!((-1i16).as_bytes(), vec![0xff, 0xff]);
    assert_eq!((-2i32).as_bytes(), vec![0xfe, 0xff, 0xff, 0xff]);
    assert_eq!(i64::from_bytes(&[0, 0, 0, 0, 0, 0, 0, 0x80]), Ok(i64::MIN));
    assert_eq!(i8::from_bytes(&[0x80]), Ok(-128i8));
}

#[test]
fn round_trip_of_every_width() {
    assert_eq!(u8::from_bytes(&200u8.as_bytes()), Ok(200u8));
    assert_eq!(i8::from_bytes(&(-100i8).as_bytes()), Ok(-100i8));
    assert_eq!(u16::from_bytes(&0xbeefu16.as_bytes()), Ok(0xbeefu16));
    assert_eq!(i16::from_bytes(&(-12345i16).as_bytes()), Ok(-12345i16));
    assert_eq!(i32::from_bytes(&i32::MIN.as_bytes()), Ok(i32::MIN));
    assert_eq!(u64::from_bytes(&u64::MAX.as_bytes()), Ok(u64::MAX));
    assert_eq!(i64::from_bytes(&(-5i64).as_bytes()), Ok(-5i64));
    let big: u128 = 0x0102_0304_0506_0708_090a_0b0c_0d0e_0f10;
    assert_eq!(u128::from_bytes(&big.as_bytes()), Ok(big));
    assert_eq!(i128::from_bytes(&i128::MIN.as_bytes()), Ok(i128::MIN));
    let arr: [i16; 4] = [1, -1, 300, -300];
    assert_eq!(<[i16; 4]>::from_bytes(&arr.as_bytes()), Ok(arr));
}

#[test]
fn wrong_lengths_are_size_errors() {
    assert_eq!(u32::from_bytes(&[1, 2, 3]), Err(Error::Size));
    assert_eq!(u32::from_bytes(&[1, 2, 3, 4, 5]), Err(Error::Size));
    assert_eq!(u32::from_bytes(&[1, 2, 3, 4]), Ok(0x04030201u32));
    assert_eq!(u8::from_bytes(&[]), Err(Error::Size));
    assert_eq!(u8::from_bytes(&[1, 2]), Err(Error::Size));
    assert_eq!(<[u16; 2]>::from_bytes(&[1, 2, 3]), Err(Error::Size));
    assert_eq!(<[u16; 2]>::from_bytes(&[1, 2, 3, 4, 5]), Err(Error::Size));
    assert_eq!(<[u16; 2]>::from_bytes(&[1, 0, 2, 0]), Ok([1u16, 2]));
}

#[test]
fn empty_array_has_empty_image() {
    let a: [u64; 0] = [];
    assert_eq!(a.as_bytes(), Vec::<u8>::new());
    assert_eq!(<[u64; 0]>::from_bytes(&[]), Ok(a));
    assert_eq!(<[u64; 0]>::from_bytes(&[0]), Err(Error::Size));
}

#[test]
fn set_byte_changes_only_that_byte() {
    let mut v: u32 = 0x11223344;
    v.set_byte(2, 0xab);
    assert_eq!(v, 0x11ab3344);
    assert_eq!(v.as_bytes(), vec![0x44, 0x33, 0xab, 0x11]);

    let mut x: i16 = 0;
    x.set_byte(1, 0x80);
    assert_eq!(x, i16::MIN);

    let mut a: [u16; 3] = [0x0102, 0x0304, 0x0506];
    a.set_byte(3, 0xff);
    assert_eq!(a, [0x0102, 0xff04, 0x0506]);
    assert_eq!(a.as_bytes(), vec![0x02, 0x01, 0x04, 0xff, 0x06, 0x05]);
}

#[test]
fn array_image_is_concatenation() {
    let a: [u32; 3] = [0x01020304, 0x05060708, 0x090a0b0c];
    let mut expected = Vec::new();
    for e in a.iter() {
        expected.extend(e.as_bytes());
    }
    assert_eq!(a.as_bytes(), expected);
    assert_eq!(
        a.as_bytes(),
        vec![4, 3, 2, 1, 8, 7, 6, 5, 0x0c, 0x0b, 0x0a, 9]
    );
    let nested: [[u16; 2]; 2] = [[1, 2], [3, 4]];
    assert_eq!(nested.as_bytes(), vec![1, 0, 2, 0, 3, 0, 4, 0]);
    assert_eq!(<[[u16; 2]; 2]>::from_bytes(&nested.as_bytes()), Ok(nested));
}

#[test]
fn bytes_are_their_own_image() {
    assert_eq!(0x5au8.as_bytes(), vec![0x5a]);
    let a: [u8; 5] = [9, 8, 7, 6, 5];
    assert_eq!(a.as_bytes(), a.to_vec());
    assert_eq!(<[u8; 5]>::from_bytes(&[9, 8, 7, 6, 5]), Ok(a));
}

#[test]
fn zeroed_is_all_zero_bytes() {
    assert_eq!(u64::zeroed(), 0);
    assert_eq!(i128::zeroed(), 0);
    assert_eq!(<[i32; 3]>::zeroed(), [0, 0, 0]);
    assert_eq!(<[[u8; 2]; 2]>::zeroed().as_bytes(), vec![0, 0, 0, 0]);
}

#[test]
fn copy_from_bytes_checks_length() {
    let mut v: u16 = 7;
    assert_eq!(v.copy_from_bytes(&[1, 2, 3]), Err(Error::Size));
    assert_eq!(v, 7);
    assert_eq!(v.copy_from_bytes(&[0x34, 0x12]), Ok(()));
    assert_eq!(v, 0x1234);
}

#[test]
fn write_bytes_checks_length() {
    let v: u32 = 0xa1b2c3d4;
    let mut short = [0u8; 3];
    assert_eq!(v.write_bytes(&mut short), Err(Error::Size));
    assert_eq!(short, [0, 0, 0]);
    let mut long = [0u8; 5];
    assert_eq!(v.write_bytes(&mut long), Err(Error::Size));
    assert_eq!(long, [0, 0, 0, 0, 0]);
    let mut exact = [0u8; 4];
    assert_eq!(v.write_bytes(&mut exact), Ok(()));
    assert_eq!(exact, [0xd4, 0xc3, 0xb2, 0xa1]);
    let mut buf = [9u8; 4];
    [0x0102u16, 0x0304].write_bytes_unchecked(&mut buf);
    assert_eq!(buf, [2, 1, 4, 3]);
}

#[test]
fn length_matches_compares_sizes() {
    assert!(u64::length_matches(&[0; 8]));
    assert!(!u64::length_matches(&[0; 7]));
    assert!(<[u16; 3]>::length_matches(&[0; 6]));
}

#[test]
fn error_message_is_empty() {
    assert_eq!(Error::Size.message(), "");
}

#[test]
fn result_alias_defaults_to_library_error() {
    let r: pod::Result<u16> = u16::from_bytes(&[1]);
    assert_eq!(r, Err(Error::Size));
    let s: pod::Result<u8, ()> = Ok(3);
    assert_eq!(s, Ok(3));
}

#[test]
fn machine_words_use_word_size() {
    let n = core::mem::size_of::<usize>();
    assert_eq!(usize::byte_len_checked(), Some(n));
    assert_eq!(isize::byte_len_checked(), Some(n));
    let v: usize = 0x0102_0304;
    let bytes = v.as_bytes();
    assert_eq!(bytes.len(), n);
    assert_eq!(bytes[..4].to_vec(), vec![4, 3, 2, 1]);
    assert_eq!(usize::from_bytes(&bytes), Ok(v));
    assert_eq!((-1isize).as_bytes(), vec![0xff; n]);
    assert_eq!(isize::from_bytes(&vec![0xff; n]), Ok(-1isize));
    assert_eq!(isize::from_bytes(&isize::MIN.as_bytes()), Ok(isize::MIN));
    assert_eq!(usize::from_bytes(&vec![0; n + 1]), Err(Error::Size));
    assert_eq!(usize::zeroed(), 0);
    assert_eq!(isize::zeroed(), 0);
    let mut w: usize = 0;
    w.set_byte(1, 0x12);
    assert_eq!(w, 0x1200);
}
