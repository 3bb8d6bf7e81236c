use rawpreview::{find_largest_embedded_jpeg, has_soi_marker, read_u16, read_u32, LocateError};

fn put_le16(buf: &mut [u8], pos: usize, v: u16) {
    buf[pos] = (v & 0xff) as u8;
    buf[pos + 1] = (v >> 8) as u8;
}

fn put_le32(buf: &mut [u8], pos: usize, v: u32) {
    buf[pos] = (v & 0xff) as u8;
    buf[pos + 1] = ((v >> 8) & 0xff) as u8;
    buf[pos + 2] = ((v >> 16) & 0xff) as u8;
    buf[pos + 3] = ((v >> 24) & 0xff) as u8;
}

fn put_be16(buf: &mut [u8], pos: usize, v: u16) {
    buf[pos] = (v >> 8) as u8;
    buf[pos + 1] = (v & 0xff) as u8;
}

fn put_be32(buf: &mut [u8], pos: usize, v: u32) {
    buf[pos] = ((v >> 24) & 0xff) as u8;
    buf[pos + 1] = ((v >> 16) & 0xff) as u8;
    buf[pos + 2] = ((v >> 8) & 0xff) as u8;
    buf[pos + 3] = (v & 0xff) as u8;
}

fn le_magic(buf: &mut [u8]) {
    buf[0] = 0x49;
    buf[1] = 0x49;
    buf[2] = 0x2a;
    buf[3] = 0x00;
}

fn be_magic(buf: &mut [u8]) {
    buf[0] = 0x4d;
    buf[1] = 0x4d;
    buf[2] = 0x00;
    buf[3] = 0x2a;
}

/// A little-endian buffer with one IFD carrying both JPEG tags.
fn single_ifd_le(total: usize, jpeg_off: u32, jpeg_len: u32) -> Vec<u8> {
    let mut buf = vec![0u8; total];
    le_magic(&mut buf);
    put_le32(&mut buf, 4, 8); // first IFD at 8
    put_le16(&mut buf, 8, 2); // two entries
    put_le16(&mut buf, 10, 0x0201);
    put_le32(&mut buf, 18, jpeg_off);
    put_le16(&mut buf, 22, 0x0202);
    put_le32(&mut buf, 30, jpeg_len);
    put_le32(&mut buf, 34, 0); // no next IFD
    buf
}

#[test]
fn read_words_both_orders() {
    assert_eq!(read_u16(&[0x34, 0x12], true), 0x1234);
    assert_eq!(read_u16(&[0x12, 0x34], false), 0x1234);
    assert_eq!(read_u32(&[0x78, 0x56, 0x34, 0x12], true), 0x12345678);
    assert_eq!(read_u32(&[0x12, 0x34, 0x56, 0x78], false), 0x12345678);
}

#[test]
fn single_ifd_exact_offset_and_length() {
    let mut buf = single_ifd_le(2000, 1000, 200);
    buf[1000] = 0xff;
    buf[1001] = 0xd8;
    let info = find_largest_embedded_jpeg(&buf).unwrap();
    assert_eq!(info.offset, 1000);
    assert_eq!(info.length, 200);
    assert!(has_soi_marker(&buf, &info));
}

#[test]
fn multiple_ifds_largest_wins() {
    // Big-endian chain: first IFD declares length 150, second length 500;
    // the larger one wins although it sits later in the chain.
    let mut buf = vec![0u8; 1200];
    be_magic(&mut buf);
    put_be32(&mut buf, 4, 8);
    put_be16(&mut buf, 8, 2);
    put_be16(&mut buf, 10, 0x0201);
    put_be32(&mut buf, 18, 400);
    put_be16(&mut buf, 22, 0x0202);
    put_be32(&mut buf, 30, 150);
    put_be32(&mut buf, 34, 64); // next IFD at 64
    put_be16(&mut buf, 64, 2);
    put_be16(&mut buf, 66, 0x0201);
    put_be32(&mut buf, 74, 600);
    put_be16(&mut buf, 78, 0x0202);
    put_be32(&mut buf, 86, 500);
    put_be32(&mut buf, 90, 0);
    let info = find_largest_embedded_jpeg(&buf).unwrap();
    assert_eq!(info.offset, 600);
    assert_eq!(info.length, 500);
}

#[test]
fn largest_wins_when_larger_comes_first() {
    // Little-endian chain where the first IFD declares the larger JPEG.
    let mut buf = vec![0u8; 1200];
    le_magic(&mut buf);
    put_le32(&mut buf, 4, 8);
    put_le16(&mut buf, 8, 2);
    put_le16(&mut buf, 10, 0x0201);
    put_le32(&mut buf, 18, 100);
    put_le16(&mut buf, 22, 0x0202);
    put_le32(&mut buf, 30, 900);
    put_le32(&mut buf, 34, 64);
    put_le16(&mut buf, 64, 2);
    put_le16(&mut buf, 66, 0x0201);
    put_le32(&mut buf, 74, 600);
    put_le16(&mut buf, 78, 0x0202);
    put_le32(&mut buf, 86, 300);
    put_le32(&mut buf, 90, 0);
    let info = find_largest_embedded_jpeg(&buf).unwrap();
    assert_eq!(info.offset, 100);
    assert_eq!(info.length, 900);
}

#[test]
fn no_jpeg_tags_in_any_ifd() {
    let mut buf = vec![0u8; 200];
    le_magic(&mut buf);
    put_le32(&mut buf, 4, 8);
    put_le16(&mut buf, 8, 2);
    put_le16(&mut buf, 10, 0x0100); // unrelated tags only
    put_le16(&mut buf, 22, 0x0103);
    put_le32(&mut buf, 34, 0);
    assert_eq!(find_largest_embedded_jpeg(&buf), Err(LocateError::NoJpegFound));
}

#[test]
fn offset_tag_alone_is_not_enough() {
    let mut buf = vec![0u8; 200];
    le_magic(&mut buf);
    put_le32(&mut buf, 4, 8);
    put_le16(&mut buf, 8, 1);
    put_le16(&mut buf, 10, 0x0201);
    put_le32(&mut buf, 18, 50);
    put_le32(&mut buf, 22, 0);
    assert_eq!(find_largest_embedded_jpeg(&buf), Err(LocateError::NoJpegFound));
}

#[test]
fn bad_magic_is_invalid_container() {
    let mut buf = vec![0u8; 64];
    buf[0] = 0x4a;
    buf[1] = 0x46;
    buf[2] = 0x49;
    buf[3] = 0x46;
    assert_eq!(
        find_largest_embedded_jpeg(&buf),
        Err(LocateError::InvalidContainer)
    );
    assert_eq!(
        find_largest_embedded_jpeg(&[]),
        Err(LocateError::InvalidContainer)
    );
}

#[test]
fn declared_region_beyond_buffer_is_out_of_bounds() {
    // Offset 1000 + length 200 exceeds a 1100-byte buffer.
    let buf = single_ifd_le(1100, 1000, 200);
    assert_eq!(find_largest_embedded_jpeg(&buf), Err(LocateError::OutOfBounds));
}

#[test]
fn ifd_offset_beyond_buffer_is_out_of_bounds() {
    let mut buf = vec![0u8; 64];
    le_magic(&mut buf);
    put_le32(&mut buf, 4, 4096); // first IFD outside the buffer
    assert_eq!(find_largest_embedded_jpeg(&buf), Err(LocateError::OutOfBounds));
}

#[test]
fn truncated_header_is_out_of_bounds() {
    let mut buf = vec![0u8; 6];
    le_magic(&mut buf);
    assert_eq!(find_largest_embedded_jpeg(&buf), Err(LocateError::OutOfBounds));
}

#[test]
fn cyclic_chain_is_invalid_container() {
    // An IFD whose next pointer leads back to itself never terminates; the
    // locator rejects the container instead of walking forever.
    let mut buf = vec![0u8; 64];
    le_magic(&mut buf);
    put_le32(&mut buf, 4, 8);
    put_le16(&mut buf, 8, 0); // zero entries
    put_le32(&mut buf, 10, 8); // next IFD: itself
    assert_eq!(
        find_largest_embedded_jpeg(&buf),
        Err(LocateError::InvalidContainer)
    );
}

#[test]
fn zero_offset_candidate_is_no_jpeg() {
    // A candidate whose offset is zero never counts as found.
    let buf = single_ifd_le(2000, 0, 200);
    assert_eq!(find_largest_embedded_jpeg(&buf), Err(LocateError::NoJpegFound));
}

#[test]
fn first_tag_occurrence_wins_within_ifd() {
    // Two length tags in one IFD: scanning stops once both tags are seen,
    // so the first length wins.
    let mut buf = vec![0u8; 2000];
    le_magic(&mut buf);
    put_le32(&mut buf, 4, 8);
    put_le16(&mut buf, 8, 3);
    put_le16(&mut buf, 10, 0x0201);
    put_le32(&mut buf, 18, 1000);
    put_le16(&mut buf, 22, 0x0202);
    put_le32(&mut buf, 30, 200);
    put_le16(&mut buf, 34, 0x0202);
    put_le32(&mut buf, 42, 900);
    put_le32(&mut buf, 46, 0);
    let info = find_largest_embedded_jpeg(&buf).unwrap();
    assert_eq!(info.offset, 1000);
    assert_eq!(info.length, 200);
}

#[test]
fn soi_marker_needs_two_bytes() {
    let buf = single_ifd_le(2000, 1000, 1);
    let info = find_largest_embedded_jpeg(&buf).unwrap();
    assert_eq!(info.length, 1);
    assert!(!has_soi_marker(&buf, &info));
}

#[test]
fn soi_marker_checked_at_offset() {
    let mut buf = single_ifd_le(2000, 1000, 200);
    buf[1000] = 0x00;
    buf[1001] = 0xd8;
    let info = find_largest_embedded_jpeg(&buf).unwrap();
    assert!(!has_soi_marker(&buf, &info));
}
