use vhl_stdlib::{NibbleBuf, Uri, Vlu4U32Array};

#[test]
fn one_part_uri_iter() {
    let uri = Uri::OnePart(1);
    let mut uri_iter = uri.iter();
    assert_eq!(uri_iter.next(), Some(1));
    assert_eq!(uri_iter.next(), None);
}

#[test]
fn two_part_uri_iter() {
    let uri = Uri::TwoPart(1, 2);
    let mut uri_iter = uri.iter();
    assert_eq!(uri_iter.next(), Some(1));
    assert_eq!(uri_iter.next(), Some(2));
    assert_eq!(uri_iter.next(), None);
}

#[test]
fn three_part_uri_iter() {
    let uri = Uri::ThreePart(1, 2, 3);
    let mut uri_iter = uri.iter();
    assert_eq!(uri_iter.size_hint(), (3, Some(3)));
    assert_eq!(uri_iter.next(), Some(1));
    assert_eq!(uri_iter.next(), Some(2));
    assert_eq!(uri_iter.next(), Some(3));
    assert_eq!(uri_iter.next(), None);
}

#[test]
fn multi_part_uri_iter() {
    let buf = [0x51, 0x23, 0x45];
    let mut buf = NibbleBuf::new_all(&buf);
    let arr: Vlu4U32Array = buf.des_vlu4().unwrap();
    let uri = Uri::MultiPart(arr);
    let mut uri_iter = uri.iter();
    assert_eq!(uri_iter.size_hint(), (5, Some(5)));
    assert_eq!(uri_iter.next(), Some(1));
    assert_eq!(uri_iter.next(), Some(2));
    assert_eq!(uri_iter.next(), Some(3));
    assert_eq!(uri_iter.next(), Some(4));
    assert_eq!(uri_iter.next(), Some(5));
    assert_eq!(uri_iter.next(), None);
}

#[test]
fn uri_display() {
    let buf = [0x51, 0x23, 0x45];
    let mut buf = NibbleBuf::new_all(&buf);
    let arr: Vlu4U32Array = buf.des_vlu4().unwrap();
    let uri = Uri::MultiPart(arr);
    assert_eq!(uri.to_string_alternate(), "Uri(/1/2/3/4/5)");
    assert_eq!(uri.to_string(), "/1/2/3/4/5");
}

#[test]
fn multi_part_uri_truncated() {
    let buf = [0x51, 0x23];
    let mut buf = NibbleBuf::new_all(&buf);
    assert!(buf.des_vlu4::<Vlu4U32Array>().is_err());
}

#[test]
fn multi_part_uri_large_parts() {
    // count 2, then 1000 = 0o1750 and 9 = 0o11
    let buf = [0x29, 0xfd, 0x09, 0x10];
    let mut buf = NibbleBuf::new_all(&buf);
    let arr: Vlu4U32Array = buf.des_vlu4().unwrap();
    assert_eq!(arr.len(), 2);
    let uri = Uri::MultiPart(arr);
    assert_eq!(uri.to_string(), "/1000/9");
    assert_eq!(buf.nibbles_pos(), 7);
}
