use vhl_stdlib::serdes::SerDesSize;
use vhl_stdlib::vec::Vlu4VecBuilder;
use vhl_stdlib::{BufWriter, Error, NibbleBuf, NibbleBufMut, Vlu16N, Vlu32N};

#[test]
fn byte_and_nibble_write_scenario() {
    let mut buf = [0u8; 2];
    let mut wgr = NibbleBufMut::new_all(&mut buf);
    for n in [1, 2, 3, 4] {
        wgr.put_nibble(n).unwrap();
    }
    assert_eq!(wgr.nibbles_pos(), 4);
    assert!(wgr.is_at_byte_boundary());
    assert_eq!(wgr.put_nibble(5), Err(Error::OutOfBounds));
    let (buf, _, _) = wgr.finish();
    assert_eq!(buf, [0x12, 0x34]);
}

#[test]
fn vlu32n_round_trip_values() {
    for v in [0u32, 7, 8, 63, 64, 1023, 0xFFFF, 0xFFFF_FFFF] {
        let mut buf = [0u8; 8];
        let mut wgr = NibbleBufMut::new_all(&mut buf);
        wgr.put_vlu32n(v).unwrap();
        let written = wgr.nibbles_pos();
        assert_eq!(written, Vlu32N(v).len_nibbles());
        let (buf, _, _) = wgr.finish();
        let mut rdr = NibbleBuf::new_all(buf);
        assert_eq!(rdr.get_vlu32n(), Ok(v));
        assert_eq!(rdr.nibbles_pos(), written);
    }
}

#[test]
fn vlu_lengths() {
    assert_eq!(Vlu32N(0).len_nibbles(), 1);
    assert_eq!(Vlu32N(7).len_nibbles(), 1);
    assert_eq!(Vlu32N(8).len_nibbles(), 2);
    assert_eq!(Vlu32N(63).len_nibbles(), 2);
    assert_eq!(Vlu32N(64).len_nibbles(), 3);
    assert_eq!(Vlu32N(0xFFFF_FFFF).len_nibbles(), 11);
    assert_eq!(Vlu16N(0xFFFF).len_nibbles(), 6);
}

#[test]
fn vlu_encoding_bytes() {
    // 1023 = 0o1777: groups 1, 7, 7, 7.
    let mut buf = [0u8; 2];
    let mut wgr = NibbleBufMut::new_all(&mut buf);
    wgr.put_vlu32n(1023).unwrap();
    let (buf, _, _) = wgr.finish();
    assert_eq!(buf, [0x9f, 0xf7]);
}

#[test]
fn vlu16n_rejects_overflow() {
    let buf = [0xff, 0xff, 0xff, 0x70];
    let mut rdr = NibbleBuf::new(&buf, 7).unwrap();
    assert_eq!(rdr.get_vlu16n(), Err(Error::MalformedVlu16N));
    assert_eq!(rdr.nibbles_pos(), 0);
}

#[test]
fn vlu16n_accepts_max_and_padding() {
    // 0xFFFF = 0o177777, padded with a leading zero group.
    let buf = [0x89, 0xff, 0xff, 0x70];
    let mut rdr = NibbleBuf::new_all(&buf);
    assert_eq!(rdr.get_vlu16n(), Ok(0xFFFF));
    assert_eq!(rdr.nibbles_pos(), 7);
}

#[test]
fn vlu32n_rejects_overflow_and_truncation() {
    let buf = [0xff, 0xff, 0xff, 0xff, 0xff, 0xf7];
    let mut rdr = NibbleBuf::new_all(&buf);
    assert_eq!(rdr.get_vlu32n(), Err(Error::MalformedVlu32N));
    let buf = [0x88];
    let mut rdr = NibbleBuf::new_all(&buf);
    assert_eq!(rdr.get_vlu32n(), Err(Error::OutOfBounds));
    assert_eq!(rdr.skip_vlu32n(), Err(Error::OutOfBounds));
}

#[test]
fn skip_vlu32n_and_skip() {
    let buf = [0x9f, 0x70, 0x12];
    let mut rdr = NibbleBuf::new_all(&buf);
    rdr.skip_vlu32n().unwrap();
    assert_eq!(rdr.nibbles_pos(), 3);
    rdr.align_to_byte().unwrap();
    assert_eq!(rdr.nibbles_pos(), 4);
    assert_eq!(rdr.skip(3), Err(Error::OutOfBounds));
    rdr.skip(1).unwrap();
    assert_eq!(rdr.get_nibble(), Ok(2));
}

#[test]
fn u16_u32_round_trip() {
    let mut buf = [0u8; 7];
    let mut wgr = NibbleBufMut::new_all(&mut buf);
    wgr.put_nibble(0xa).unwrap();
    wgr.put_u16_be(0x1234).unwrap();
    wgr.put_u32_be(0xdead_beef).unwrap();
    assert_eq!(wgr.put_u8(1), Err(Error::OutOfBounds));
    let (buf, _, _) = wgr.finish();
    assert_eq!(buf, [0xa1, 0x23, 0x4d, 0xea, 0xdb, 0xee, 0xf0]);
    let mut rdr = NibbleBuf::new_all(buf);
    assert_eq!(rdr.get_nibble(), Ok(0xa));
    assert_eq!(rdr.get_u16_be(), Ok(0x1234));
    assert_eq!(rdr.get_u32_be(), Ok(0xdead_beef));
    assert_eq!(rdr.get_u16_be(), Err(Error::OutOfBounds));
}

#[test]
fn slices_need_alignment() {
    let mut buf = [0u8; 4];
    let mut wgr = NibbleBufMut::new_all(&mut buf);
    wgr.put_nibble(1).unwrap();
    assert_eq!(wgr.put_slice(&[1, 2]), Err(Error::UnalignedAccess));
    assert_eq!(wgr.put_slice(&[1, 2, 3, 4]), Err(Error::OutOfBounds));
    wgr.align_to_byte().unwrap();
    wgr.put_slice(&[0xaa, 0xbb]).unwrap();
    let (buf, _, _) = wgr.finish();
    assert_eq!(buf, [0x10, 0xaa, 0xbb, 0x00]);
    let mut rdr = NibbleBuf::new_all(buf);
    rdr.get_nibble().unwrap();
    assert_eq!(rdr.get_slice(1), Err(Error::UnalignedAccess));
    rdr.align_to_byte().unwrap();
    assert_eq!(rdr.get_slice(2), Ok(&[0xaa, 0xbb][..]));
    assert_eq!(rdr.get_slice(2), Err(Error::OutOfBounds));
}

#[test]
fn vector_builder_scenario() {
    let mut buf = [0u8; 128];
    let wgr = NibbleBufMut::new_all(&mut buf);
    let mut wgr = wgr.put_vec::<&[u8]>();
    wgr.put_aligned(&[1, 2, 3]).unwrap();
    wgr.put_aligned(&[4, 5]).unwrap();
    let wgr: NibbleBufMut = wgr.finish().unwrap();
    let (buf, _, _) = wgr.finish();
    assert_eq!(&buf[0..=6], &[0x23, 0x01, 0x02, 0x03, 0x20, 0x04, 0x05]);
}

#[test]
fn vector_of_many_elements() {
    let mut buf = [0u8; 8];
    let wgr = NibbleBufMut::new_all(&mut buf);
    let mut b: Vlu4VecBuilder<Vlu32N> = wgr.put_vec();
    for v in 0..9u32 {
        b.put(&Vlu32N(v % 8)).unwrap();
    }
    let wgr = b.finish().unwrap();
    assert_eq!(wgr.nibbles_pos(), 11);
    let (buf, _, _) = wgr.finish();
    assert_eq!(&buf[0..6], &[0x91, 0x01, 0x23, 0x45, 0x67, 0x00]);
}

#[test]
fn put_vec_with_and_unfold() {
    let mut buf = [0u8; 4];
    let mut wgr = NibbleBufMut::new_all(&mut buf);
    wgr.put_vec_with(|b: &mut Vlu4VecBuilder<u8>| {
        b.put(&0xab)?;
        b.put(&0xcd)?;
        Ok(())
    })
    .unwrap();
    // two nibbles reserved, the count 2 written as 8 2 so that nothing moves
    assert_eq!(wgr.nibbles_pos(), 6);
    let next = std::cell::Cell::new(1u8);
    wgr.unfold_as_vec(|| {
        let n = next.get();
        if n < 2 {
            next.set(n + 1);
            Some(Vlu32N(n as u32))
        } else {
            None
        }
    })
    .unwrap();
    let (buf, _, _) = wgr.finish();
    assert_eq!(buf, [0x82, 0xab, 0xcd, 0x11]);
}

fn slice_vector_keeps_alignment(buf: &mut [u8]) {
    let wgr = NibbleBufMut::new_all(buf);
    let mut b = wgr.put_vec::<&[u8]>();
    b.put_aligned(&[0xab]).unwrap();
    let wgr = b.finish().unwrap();
    assert_eq!(wgr.nibbles_pos(), 6);
    let (buf, _, _) = wgr.finish();
    assert_eq!(&buf[0..3], &[0x81, 0x10, 0xab]);
    let mut rdr = NibbleBuf::new_all(buf);
    assert_eq!(rdr.get_vlu32n(), Ok(1));
    assert_eq!(rdr.get_vlu32n(), Ok(1));
    rdr.align_to_byte().unwrap();
    assert_eq!(rdr.get_slice(1), Ok(&[0xab][..]));
}

#[test]
fn slice_vector_in_ten_bytes() {
    let mut buf = [0u8; 10];
    slice_vector_keeps_alignment(&mut buf);
}

#[test]
fn slice_vector_in_256_bytes() {
    let mut buf = [0u8; 256];
    slice_vector_keeps_alignment(&mut buf);
}

#[test]
fn as_bit_buf_writes_bits() {
    let mut buf = [0u8; 1];
    let mut wgr = NibbleBufMut::new_all(&mut buf);
    wgr.put_nibble(0b1010).unwrap();
    wgr.as_bit_buf(|bit_wgr| {
        bit_wgr.put_bit(true)?;
        bit_wgr.put_bit(false)?;
        bit_wgr.put_up_to_8(2, 0b11)?;
        Ok(())
    })
    .unwrap();
    let (buf, _, _) = wgr.finish();
    assert_eq!(buf[0], 0b1010_1011);
}

#[test]
fn as_bit_buf_rejects_unaligned_end() {
    let mut buf = [0u8; 1];
    let mut wgr = NibbleBufMut::new_all(&mut buf);
    let r = wgr.as_bit_buf(|bit_wgr| bit_wgr.put_bit(true));
    assert_eq!(r, Err(Error::UnalignedAccess));
    assert_eq!(wgr.nibbles_pos(), 0);
}

#[test]
fn serialize_sub_buffer() {
    let src = [0xab, 0xcd];
    let mut rdr = NibbleBuf::new_all(&src);
    rdr.get_nibble().unwrap();
    assert_eq!(vhl_stdlib::serdes::SerializeVlu4::len_nibbles(&rdr), SerDesSize::Sized(4));
    let mut buf = [0u8; 2];
    let mut wgr = NibbleBufMut::new_all(&mut buf);
    wgr.put(&rdr).unwrap();
    let (buf, _, _) = wgr.finish();
    assert_eq!(buf, [0x3b, 0xcd]);
    let mut back = NibbleBuf::new_all(buf);
    let mut sub: NibbleBuf = back.des_vlu4().unwrap();
    assert_eq!(sub.nibbles_left(), 3);
    assert_eq!(sub.get_nibble(), Ok(0xb));
    assert!(back.is_at_end());
}

#[test]
fn des_vlu4_if_ok_codes() {
    let buf = [0x01, 0x23];
    let mut rdr = NibbleBuf::new_all(&buf);
    let r: Result<Result<u8, u32>, Error> = rdr.des_vlu4_if_ok(|code| code * 10);
    assert_eq!(r, Ok(Ok(0x12)));
    let r: Result<Result<u8, u32>, Error> = rdr.des_vlu4_if_ok(|code| code * 10);
    assert_eq!(r, Ok(Err(30)));
}

#[test]
fn owned_buffers() {
    let src = [0x12, 0x34];
    let mut rdr = NibbleBuf::new_all(&src);
    rdr.get_nibble().unwrap();
    let owned = rdr.to_nibble_buf_owned();
    let mut copy = owned.to_nibble_buf_ref();
    assert_eq!(copy.nibbles_left(), 3);
    assert_eq!(copy.get_nibble(), Ok(2));
    assert_eq!(owned.inner(), vec![0x12, 0x34]);
    let owned = vhl_stdlib::nibble_buf::NibbleBufOwned::from_vec(vec![0xab]);
    assert_eq!(owned.to_nibble_buf_ref().to_string(), "NibbleBuf(a b)");
    let empty = vhl_stdlib::nibble_buf::NibbleBufOwned::new();
    assert!(empty.to_nibble_buf_ref().is_at_end());
}

#[test]
fn writer_to_reader() {
    let mut buf = [0u8; 3];
    let mut wgr = NibbleBufMut::new_all(&mut buf);
    wgr.put_u8(0x12).unwrap();
    wgr.put_nibble(3).unwrap();
    let owned = wgr.to_nibble_buf_owned();
    assert_eq!(owned.to_nibble_buf_ref().to_string(), "NibbleBuf(1 2 3)");
    let rdr = wgr.to_nibble_buf();
    assert_eq!(rdr.nibbles_left(), 3);
}

#[test]
fn shrink_and_restore_checks() {
    let buf = [0x12, 0x34];
    let mut a = NibbleBuf::new_all(&buf);
    let mut b = a;
    b.get_u8().unwrap();
    a.shrink_to_pos_of(&b).unwrap();
    assert_eq!(a.nibbles_left(), 2);
    let other = [0x12, 0x35];
    let c = NibbleBuf::new_all(&other);
    assert_eq!(a.shrink_to_pos_of(&c), Err(Error::OutOfBounds));

    let mut big = [0u8; 4];
    let mut w1 = NibbleBufMut::new_all(&mut big);
    w1.put_u8(1).unwrap();
    let state = w1.save_state();
    let mut small = [0u8; 2];
    let mut w2 = NibbleBufMut::new_all(&mut small);
    assert_eq!(w2.restore_state(state), Err(Error::OutOfBounds));
    assert_eq!(NibbleBuf::new(&buf, 5).err(), Some(Error::OutOfBounds));
}

#[test]
fn rewind_out_of_window() {
    let mut buf = [0u8; 1];
    let mut w = NibbleBufMut::new_all(&mut buf);
    assert_eq!(w.rewind(2, |_| Ok(())), Err(Error::OutOfBounds));
}

#[test]
fn bit_writer_write_trait() {
    let mut buf = [0u8; 3];
    let mut wr = BufWriter::new(&mut buf);
    wr.write(&true).unwrap();
    wr.write(&0x5au8).unwrap();
    wr.write(&Vlu16N(3)).unwrap();
    assert_eq!(wr.finish().unwrap(), &[0x80, 0x5a, 0x30]);
}

#[test]
fn iterate_nibbles() {
    let buf = [0x9c];
    let rdr = NibbleBuf::new_all(&buf);
    let mut it = rdr.iter();
    assert_eq!(it.next(), Some(9));
    assert_eq!(it.next(), Some(0xc));
    assert_eq!(it.next(), None);
}

#[test]
fn sized_estimate_matches_write() {
    let mut buf = [0u8; 7];
    let mut wgr = NibbleBufMut::new_all(&mut buf);
    let v = Vlu32N(64);
    assert_eq!(vhl_stdlib::serdes::SerializeVlu4::len_nibbles(&v), SerDesSize::Sized(3));
    wgr.put_checked(&v).unwrap();
    assert_eq!(wgr.nibbles_pos(), 3);
    wgr.put_checked(&0xbeefu16).unwrap();
    assert_eq!(wgr.nibbles_pos(), 7);
    assert_eq!(wgr.put_checked(&0u32), Err(Error::OutOfBounds));
}

#[test]
fn writer_text() {
    let mut buf = [0u8; 6];
    let mut wgr = NibbleBufMut::new_all(&mut buf);
    wgr.put_u32_be(0x1234_5678).unwrap();
    wgr.put_u8(0x9a).unwrap();
    assert_eq!(wgr.to_string(), "NibbleBufMut(12345678 9a>2>)");
}

#[test]
fn readers_compare_by_nibbles_left() {
    let a = [0x12, 0x34];
    let b = [0x23, 0x40];
    let mut ra = NibbleBuf::new_all(&a);
    ra.get_nibble().unwrap();
    let rb = NibbleBuf::new(&b, 3).unwrap();
    assert!(ra == rb);
    let rc = NibbleBuf::new_all(&b);
    assert!(ra != rc);
}

#[test]
fn unfold_nothing_writes_zero_count() {
    let mut buf = [0xffu8; 1];
    let mut wgr = NibbleBufMut::new_all(&mut buf);
    wgr.unfold_as_vec(|| None::<Vlu32N>).unwrap();
    assert_eq!(wgr.nibbles_pos(), 1);
    let (buf, _, _) = wgr.finish();
    assert_eq!(buf, [0x0f]);
}

#[test]
fn vector_errors_keep_cursor() {
    let mut buf = [0u8; 2];
    let mut wgr = NibbleBufMut::new_all(&mut buf);
    wgr.put_nibble(1).unwrap();
    let r = wgr.put_vec_with(|b: &mut Vlu4VecBuilder<u16>| {
        b.put(&0x1234)?;
        Ok(())
    });
    assert_eq!(r, Err(Error::OutOfBounds));
    assert_eq!(wgr.nibbles_pos(), 1);
    let r = wgr.unfold_as_vec(|| Some(0xabu8));
    assert_eq!(r, Err(Error::OutOfBounds));
    assert_eq!(wgr.nibbles_pos(), 1);
}

#[test]
fn put_aligned_without_room() {
    let mut buf = [0u8; 2];
    let wgr = NibbleBufMut::new_all(&mut buf);
    let mut b = wgr.put_vec::<&[u8]>();
    assert_eq!(b.put_aligned(&[1, 2]), Err(Error::OutOfBounds));
    b.put_aligned(&[7]).unwrap();
    let wgr = b.finish().unwrap();
    assert_eq!(wgr.nibbles_pos(), 4);
    let (buf, _, _) = wgr.finish();
    assert_eq!(buf, [0x11, 0x07]);
}

#[test]
fn closure_errors_pass_through() {
    let mut buf = [0u8; 1];
    let mut wgr = NibbleBufMut::new_all(&mut buf);
    wgr.put_nibble(3).unwrap();
    assert_eq!(wgr.rewind(0, |_| Err(Error::VectorCorruption)), Err(Error::VectorCorruption));
    assert_eq!(wgr.nibbles_pos(), 1);
    let r = wgr.as_bit_buf(|b| {
        b.put_up_to_8(4, 0b1001)?;
        b.put_bit(true)
    });
    assert_eq!(r, Err(Error::OutOfBounds));
    assert_eq!(wgr.nibbles_pos(), 1);
    let (buf, _, _) = wgr.finish();
    assert_eq!(buf, [0x39]);
}

#[test]
fn read_vector_of_values() {
    let buf = [0x31, 0x23];
    let mut rdr = NibbleBuf::new_all(&buf);
    let mut v: vhl_stdlib::Vlu4Vec<Vlu32N> = rdr.des_vlu4().unwrap();
    assert!(rdr.is_at_end());
    assert_eq!(v.len(), 3);
    assert_eq!(v.next(), Some(Ok(Vlu32N(1))));
    assert_eq!(v.next(), Some(Ok(Vlu32N(2))));
    assert_eq!(v.next(), Some(Ok(Vlu32N(3))));
    assert_eq!(v.next(), None);

    let short = [0x31, 0x20];
    let mut rdr = NibbleBuf::new(&short, 3).unwrap();
    assert!(rdr.des_vlu4::<vhl_stdlib::Vlu4Vec<Vlu32N>>().is_err());
    assert_eq!(rdr.nibbles_pos(), 0);
}

#[test]
fn build_then_read_vector() {
    let mut buf = [0u8; 10];
    let wgr = NibbleBufMut::new_all(&mut buf);
    let mut b: Vlu4VecBuilder<u16> = wgr.put_vec();
    b.put(&0x1234).unwrap();
    b.put(&0xabcd).unwrap();
    let wgr = b.finish().unwrap();
    let end = wgr.nibbles_pos();
    let (buf, _, _) = wgr.finish();
    let mut rdr = NibbleBuf::new(buf, end).unwrap();
    let mut v: vhl_stdlib::Vlu4Vec<u16> = rdr.des_vlu4().unwrap();
    assert!(rdr.is_at_end());
    assert_eq!(v.next(), Some(Ok(0x1234)));
    assert_eq!(v.next(), Some(Ok(0xabcd)));
    assert_eq!(v.next(), None);
}
