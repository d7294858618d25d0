use vhl_stdlib::{Error, NibbleBuf, NibbleBufMut};

#[test]
fn read_nibbles() {
    let buf = [0xab, 0xcd, 0xef];
    let mut rdr = NibbleBuf::new_all(&buf);
    assert_eq!(rdr.get_nibble(), Ok(0xa));
    assert_eq!(rdr.get_nibble(), Ok(0xb));
    assert_eq!(rdr.get_nibble(), Ok(0xc));
    assert_eq!(rdr.get_nibble(), Ok(0xd));
    assert_eq!(rdr.get_nibble(), Ok(0xe));
    assert_eq!(rdr.get_nibble(), Ok(0xf));
    assert!(rdr.is_at_end());
}

#[test]
fn out_of_bounds() {
    let buf = [0xa0];
    let mut rdr = NibbleBuf::new(&buf, 1).unwrap();
    assert_eq!(rdr.get_nibble(), Ok(0xa));
    assert_eq!(rdr.get_nibble(), Err(Error::OutOfBounds));
}

#[test]
fn read_u8() {
    let buf = [0x12, 0x34, 0x56];
    let mut rdr = NibbleBuf::new_all(&buf);
    assert_eq!(rdr.get_nibble(), Ok(0x1));
    assert_eq!(rdr.get_u8(), Ok(0x23));
    assert_eq!(rdr.get_nibble(), Ok(0x4));
    assert_eq!(rdr.get_u8(), Ok(0x56));
    assert!(rdr.is_at_end());
}

#[test]
fn read_past_end() {
    let buf = [0xaa, 0xbb, 0xcc];
    let mut rdr = NibbleBuf::new_all(&buf[0..=1]);
    rdr.get_u8().unwrap();
    rdr.get_u8().unwrap();
    assert!(rdr.is_at_end());
    assert_eq!(rdr.get_u8(), Err(Error::OutOfBounds));
}

#[test]
fn write_nibbles() {
    let mut buf = [0u8; 2];
    let mut wgr = NibbleBufMut::new_all(&mut buf);
    wgr.put_nibble(1).unwrap();
    wgr.put_nibble(2).unwrap();
    wgr.put_nibble(3).unwrap();
    wgr.put_nibble(4).unwrap();
    assert!(wgr.is_at_end());
    assert_eq!(wgr.put_nibble(0), Err(Error::OutOfBounds));
    let (buf, byte_pos, is_at_byte_boundary) = wgr.finish();
    assert_eq!(buf[0], 0x12);
    assert_eq!(buf[1], 0x34);
    assert_eq!(byte_pos, 2);
    assert!(is_at_byte_boundary);
}

#[test]
fn buf_display() {
    let buf = [0x12, 0x34, 0x56];
    let buf = NibbleBuf::new_all(&buf);
    assert_eq!(buf.to_string(), "NibbleBuf(1 2 3 4 5 6)")
}

#[test]
fn buf_display_partly_consumed() {
    let buf = [0x12, 0x43, 0x21];
    let mut buf = NibbleBuf::new_all(&buf);
    let _ = buf.get_nibble();
    let _ = buf.get_nibble();
    assert_eq!(buf.to_string(), "NibbleBuf(<2< 4 3 2 1)")
}

#[test]
fn get_bit_buf() {
    let buf = [0x12, 0x34, 0x56];
    let mut rgr = NibbleBuf::new_all(&buf);

    let mut bits_7_0_rgr = rgr.get_bit_buf(2).unwrap();
    assert_eq!(bits_7_0_rgr.get_up_to_8(4), Ok(0x1));
    assert_eq!(bits_7_0_rgr.get_up_to_8(4), Ok(0x2));
    assert!(bits_7_0_rgr.get_bit().is_err());

    assert_eq!(rgr.get_nibble(), Ok(0x3));

    let mut bits_11_0_rgr = rgr.get_bit_buf(3).unwrap();
    assert!(rgr.is_at_end());
    assert_eq!(bits_11_0_rgr.get_up_to_8(4), Ok(0x4));
    assert_eq!(bits_11_0_rgr.get_up_to_16(8), Ok(0x56));
    assert!(bits_11_0_rgr.get_bit().is_err());
}

#[test]
fn get_bit_buf_in_the_middle() {
    let buf = [0x12, 0x34, 0x56, 0x78];
    let mut rgr = NibbleBuf::new_all(&buf);
    let _ = rgr.get_nibble().unwrap();
    let mut bits_3_0_rgr = rgr.get_bit_buf(1).unwrap();
    assert_eq!(bits_3_0_rgr.get_up_to_8(4), Ok(0x2));
    assert!(bits_3_0_rgr.get_bit().is_err());

    let mut bits_3_0_rgr = rgr.get_bit_buf(1).unwrap();
    assert_eq!(bits_3_0_rgr.get_up_to_8(4), Ok(0x3));
    assert!(bits_3_0_rgr.get_bit().is_err());

    let mut bits_11_0_rgr = rgr.get_bit_buf(3).unwrap();
    assert_eq!(bits_11_0_rgr.get_up_to_16(12), Ok(0x456));
    assert!(bits_11_0_rgr.get_bit().is_err());

    assert_eq!(rgr.get_u8(), Ok(0x78));
    assert!(rgr.is_at_end());
}

#[test]
fn to_bit_buf() {
    let mut buf = [0u8; 2];
    let mut wgr = NibbleBufMut::new_all(&mut buf);
    wgr.put_nibble(0b1010).unwrap();

    let mut wgr = wgr.to_bit_buf();
    wgr.put_up_to_8(8, 0b1111_1010).unwrap();
    wgr.put_up_to_8(4, 0b0011).unwrap();

    let (buf, byte_pos, bit_pos) = wgr.finish();
    assert_eq!(buf[0], 0b1010_1111);
    assert_eq!(buf[1], 0b1010_0011);
    assert_eq!(byte_pos, 2);
    assert_eq!(bit_pos, 0);
}

#[test]
fn put_nibble_buf_both_byte_aligned() {
    let rgr_buf = [1, 2, 3];
    let rgr = NibbleBuf::new_all(&rgr_buf);

    let mut wgr_buf = [0u8; 5];
    let mut wgr = NibbleBufMut::new_all(&mut wgr_buf);
    wgr.put_u8(9).unwrap();
    wgr.put_u8(8).unwrap();

    wgr.put_nibble_buf(&rgr).unwrap();
    assert_eq!(wgr.nibbles_pos(), 10);
    let (wgr_buf, len, _) = wgr.finish();
    assert_eq!(len, 5);
    assert_eq!(wgr_buf, &[9, 8, 1, 2, 3]);
}

#[test]
fn put_nibble_buf_both_nibble_aligned() {
    let rgr_buf = [0xab, 0xcd, 0xef];
    let mut rgr = NibbleBuf::new_all(&rgr_buf);
    let _ = rgr.get_nibble().unwrap();

    let mut wgr_buf = [0u8; 4];
    let mut wgr = NibbleBufMut::new_all(&mut wgr_buf);
    wgr.put_u8(0xff).unwrap();
    wgr.put_nibble(1).unwrap();

    wgr.put_nibble_buf(&rgr).unwrap();
    assert_eq!(wgr.nibbles_pos(), 8);
    let (wgr_buf, len, _) = wgr.finish();
    assert_eq!(len, 4);
    assert_eq!(wgr_buf, &[0xff, 0x1b, 0xcd, 0xef]);
}

#[test]
fn put_nibble_buf_wgr_unaligned() {
    let rgr_buf = [0xab, 0xcd, 0xef];
    let rgr = NibbleBuf::new_all(&rgr_buf);

    let mut wgr_buf = [0u8; 4];
    let mut wgr = NibbleBufMut::new_all(&mut wgr_buf);
    wgr.put_nibble(1).unwrap();

    wgr.put_nibble_buf(&rgr).unwrap();
    assert_eq!(wgr.nibbles_pos(), 7);
    let (wgr_buf, pos, is_at_byte_boundary) = wgr.finish();
    assert_eq!(wgr_buf, &[0x1a, 0xbc, 0xde, 0xf0]);
    assert_eq!(pos, 3);
    assert!(!is_at_byte_boundary);
}

#[test]
fn put_nibble_buf_rgr_unaligned() {
    let rgr_buf = [0xab, 0xcd, 0xef];
    let mut rgr = NibbleBuf::new_all(&rgr_buf);
    let _ = rgr.get_nibble().unwrap();

    let mut wgr_buf = [0u8; 4];
    let mut wgr = NibbleBufMut::new_all(&mut wgr_buf);
    wgr.put_u8(0xff).unwrap();

    wgr.put_nibble_buf(&rgr).unwrap();
    let (wgr_buf, pos, is_at_byte_boundary) = wgr.finish();
    assert_eq!(wgr_buf, &[0xff, 0xbc, 0xde, 0xf0]);
    assert_eq!(pos, 3);
    assert!(!is_at_byte_boundary);
}

#[test]
fn replace_nibble() {
    let mut buf = [0u8; 4];
    let mut wgr = NibbleBufMut::new_all(&mut buf);
    wgr.put_u8(0x00).unwrap();
    wgr.put_u8(0xab).unwrap();
    wgr.put_u8(0xcd).unwrap();
    wgr.replace_nibble(0, 0xe).unwrap();
    wgr.replace_nibble(2, 0xf).unwrap();
    wgr.replace_nibble(5, 1).unwrap();

    wgr.replace_nibble(6, 0xf).unwrap();
    wgr.put_u8(0x12).unwrap();
    let (buf, _, _) = wgr.finish();
    assert_eq!(buf, [0xe0, 0xfb, 0xc1, 0x12]);
}

#[test]
fn rewind() {
    let mut buf = [0u8; 2];
    let mut wrr = NibbleBufMut::new_all(&mut buf);
    wrr.skip(2).unwrap();
    wrr.put_u8(0xaa).unwrap();
    wrr.rewind(0, |wrr| {
        wrr.put_nibble(1)?;
        wrr.put_nibble(2)?;
        Ok(())
    })
    .unwrap();
    let (buf, _, _) = wrr.finish();
    assert_eq!(buf[0], 0x12);
    assert_eq!(buf[1], 0xaa);
}

#[test]
fn save_and_restore() {
    let mut buf = [0u8; 4];
    let mut wrr = NibbleBufMut::new_all(&mut buf);
    wrr.put_u8(0xaa).unwrap();
    wrr.put_u8(0xbb).unwrap();
    let state = wrr.save_state();
    wrr.put_u8(0x11).unwrap();
    wrr.put_u8(0x22).unwrap();
    wrr.restore_state(state).unwrap();
    assert_eq!(wrr.nibbles_pos(), 4);
}

#[test]
fn get_buf_slice() {
    let input = [0xaa, 0xbb, 0xcc, 0xdd, 0xee, 0xff, 0x11];
    let mut nrd = NibbleBuf::new_all(&input);

    let mut nrd_aa = nrd.get_buf_slice(2).unwrap();
    assert_eq!(nrd_aa.nibbles_left(), 2);
    assert_eq!(nrd_aa.get_u8(), Ok(0xaa));

    assert_eq!(nrd.get_nibble(), Ok(0xb));

    let mut nrd_bcc = nrd.get_buf_slice(3).unwrap();
    assert_eq!(nrd_bcc.nibbles_left(), 3);
    assert_eq!(nrd_bcc.get_u8(), Ok(0xbc));
    assert_eq!(nrd_bcc.get_nibble(), Ok(0xc));

    assert_eq!(nrd.get_nibble(), Ok(0xd));

    let mut nrd_de = nrd.get_buf_slice(2).unwrap();
    assert_eq!(nrd_de.nibbles_left(), 2);
    assert_eq!(nrd_de.get_u8(), Ok(0xde));

    let mut nrd_e = nrd.get_buf_slice(1).unwrap();
    assert_eq!(nrd_e.nibbles_left(), 1);
    assert_eq!(nrd_e.get_nibble(), Ok(0xe));

    let mut nrd_ff1 = nrd.get_buf_slice(3).unwrap();
    assert_eq!(nrd_ff1.nibbles_left(), 3);
    assert_eq!(nrd_ff1.get_u8(), Ok(0xff));
    assert_eq!(nrd_ff1.get_nibble(), Ok(0x1));

    assert_eq!(nrd.get_nibble(), Ok(0x1));
    assert!(nrd.is_at_end());
}

#[test]
fn non_zero_buf() {
    let mut buf = [0xab, 0xcd, 0xef];
    let mut nwr = NibbleBufMut::new_all(&mut buf);
    nwr.put_nibble(0).unwrap();
    nwr.put_nibble(0).unwrap();
    nwr.put_nibble(0).unwrap();
    nwr.put_nibble(0xa).unwrap();
    nwr.put_nibble(0xb).unwrap();
    let (buf, _, _) = nwr.finish();
    assert_eq!(buf, [0x00, 0x0a, 0xbf]);
}
