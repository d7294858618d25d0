use vhl_stdlib::{BufWriter, Error};

#[test]
fn finish_zeroes_reserved_bits() {
    let mut buf = [0xFF; 64];
    let mut wr = BufWriter::new(&mut buf);
    wr.write_bool(true).unwrap();
    wr.write_bool(false).unwrap();
    assert_eq!(wr.finish().unwrap(), &[0b1000_0000]);
}

#[test]
fn write_u8_zeroes_reserved_bits() {
    let mut buf = [0xFF; 64];
    let mut wr = BufWriter::new(&mut buf);
    wr.write_bool(true).unwrap();
    wr.write_bool(false).unwrap();
    wr.write_u8(0xAA).unwrap();
    assert_eq!(wr.finish().unwrap(), &[0b1000_0000, 0xAA]);
}

#[test]
fn align_nibble_zeroes_reserved_bits() {
    let mut buf = [0xFF; 64];
    let mut wr = BufWriter::new(&mut buf);
    wr.write_bool(true).unwrap();
    wr.write_bool(false).unwrap();
    wr.write_u4(0b1010).unwrap();
    assert_eq!(wr.finish().unwrap(), &[0b1000_1010]);
}

#[test]
fn booleans() {
    let mut buf = [0xFF; 64];
    let mut wr = BufWriter::new(&mut buf);
    for b in [true, false, true, false, true, true, false, false] {
        wr.write_bool(b).unwrap();
    }
    assert_eq!(wr.bytes_left(), 63);
    assert_eq!(wr.finish().unwrap(), &[0b10101100]);
}

#[test]
fn rev_u16_aligned() {
    let mut buf = [0; 8];
    let mut wr = BufWriter::new(&mut buf);
    wr.write_u8(0xAA).unwrap();
    wr.write_u8(0xCC).unwrap();
    wr.write_u16_rev(3).unwrap();
    wr.write_u16_rev(5).unwrap();
    assert_eq!(wr.bytes_left(), 2);
    assert_eq!(wr.as_bytes(), &[0xAA, 0xCC, 0, 0, 0, 5, 0, 3]);
    assert_eq!(wr.finish().unwrap(), &[0xAA, 0xCC, 0b0101_0011]);
}

#[test]
fn rev_u16_unaligned() {
    let mut buf = [0; 10];
    let mut wr = BufWriter::new(&mut buf);
    wr.write_u8(0xAA).unwrap();
    wr.write_u8(0xCC).unwrap();
    wr.write_u16_rev(3).unwrap();
    wr.write_u16_rev(5).unwrap();
    wr.write_u16_rev(7).unwrap();
    assert_eq!(wr.bytes_left(), 2);
    assert_eq!(wr.as_bytes(), &[0xAA, 0xCC, 0, 0, 0, 7, 0, 5, 0, 3]);
    assert_eq!(
        wr.finish().unwrap(),
        &[0xAA, 0xCC, 0b0000_0111, 0b0101_0011]
    );
}

#[test]
fn write_past_end_is_out_of_bounds() {
    let mut buf = [0u8; 1];
    let mut wr = BufWriter::new(&mut buf);
    wr.write_u8(0x12).unwrap();
    assert_eq!(wr.write_bool(true), Err(Error::OutOfBounds));
    assert_eq!(wr.write_u4(1), Err(Error::OutOfBounds));
    assert_eq!(wr.write_u8(1), Err(Error::OutOfBounds));
    assert_eq!(wr.finish().unwrap(), &[0x12]);
}

#[test]
fn rev_u16_without_room() {
    let mut buf = [0u8; 3];
    let mut wr = BufWriter::new(&mut buf);
    wr.write_u8(0x12).unwrap();
    wr.write_bool(true).unwrap();
    assert_eq!(wr.write_u16_rev(1), Err(Error::OutOfBoundsReverse));
}

#[test]
fn rev_u16_tail_does_not_fit() {
    let mut buf = [0u8; 4];
    let mut wr = BufWriter::new(&mut buf);
    wr.write_u8(0x12).unwrap();
    wr.write_u8(0x34).unwrap();
    wr.write_u16_rev(1).unwrap();
    assert_eq!(wr.finish(), Err(Error::OutOfBoundsReverseCompact));
}

#[test]
fn rev_u16_multi_nibble_values() {
    // 100 = 0o144: reversed nibbles 4, 8|4, 8|1; 9 = 0o11: reversed 1, 8|1.
    let mut buf = [0u8; 8];
    let mut wr = BufWriter::new(&mut buf);
    wr.write_u4(0xA).unwrap();
    wr.write_u16_rev(100).unwrap();
    wr.write_u16_rev(9).unwrap();
    assert_eq!(wr.finish().unwrap(), &[0xA1, 0x94, 0xC9]);
}

#[test]
fn vlu16n_forward_and_bits() {
    let mut buf = [0u8; 4];
    let mut wr = BufWriter::new(&mut buf);
    wr.write_up_to_8(3, 0b101).unwrap();
    wr.write_vlu16n(100).unwrap();
    wr.write_up_to_16(12, 0xABC).unwrap();
    assert_eq!(wr.finish().unwrap(), &[0b1010_1001, 0xC4, 0xAB, 0xC0]);
}
