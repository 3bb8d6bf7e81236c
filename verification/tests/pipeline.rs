use rawpreview::{
    all_succeeded, extract_jpeg, find_largest_embedded_jpeg, jpeg_slice, output_rel_path,
    FailureCause, LocateError, PermitPool, ProcessingOutcome, TaskResult,
};

fn put_le16(buf: &mut [u8], pos: usize, v: u16) {
    buf[pos] = (v & 0xff) as u8;
    buf[pos + 1] = (v >> 8) as u8;
}

fn put_le32(buf: &mut [u8], pos: usize, v: u32) {
    buf[pos] = (v & 0xff) as u8;
    buf[pos + 1] = ((v >> 8) & 0xff) as u8;
    buf[pos + 2] = ((v >> 16) & 0xff) as u8;
    buf[pos + 3] = ((v >> 24) & 0xff) as u8;
}

fn put_be16(buf: &mut [u8], pos: usize, v: u16) {
    buf[pos] = (v >> 8) as u8;
    buf[pos + 1] = (v & 0xff) as u8;
}

fn put_be32(buf: &mut [u8], pos: usize, v: u32) {
    buf[pos] = ((v >> 24) & 0xff) as u8;
    buf[pos + 1] = ((v >> 16) & 0xff) as u8;
    buf[pos + 2] = ((v >> 8) & 0xff) as u8;
    buf[pos + 3] = (v & 0xff) as u8;
}

/// img1.ARW of the end-to-end scenario: little-endian, one IFD, JPEG at
/// offset 1000, length 200.
fn img1_arw() -> Vec<u8> {
    let mut buf = vec![0u8; 1500];
    buf[0] = 0x49;
    buf[1] = 0x49;
    buf[2] = 0x2a;
    buf[3] = 0x00;
    put_le32(&mut buf, 4, 8);
    put_le16(&mut buf, 8, 2);
    put_le16(&mut buf, 10, 0x0201);
    put_le32(&mut buf, 18, 1000);
    put_le16(&mut buf, 22, 0x0202);
    put_le32(&mut buf, 30, 200);
    put_le32(&mut buf, 34, 0);
    for i in 0..200 {
        buf[1000 + i] = (i % 251) as u8;
    }
    buf[1000] = 0xff;
    buf[1001] = 0xd8;
    buf
}

/// img2.NEF of the end-to-end scenario: big-endian, two IFDs with JPEG
/// lengths 150 and 500 at different offsets.
fn img2_nef() -> Vec<u8> {
    let mut buf = vec![0u8; 1800];
    buf[0] = 0x4d;
    buf[1] = 0x4d;
    buf[2] = 0x00;
    buf[3] = 0x2a;
    put_be32(&mut buf, 4, 8);
    put_be16(&mut buf, 8, 2);
    put_be16(&mut buf, 10, 0x0201);
    put_be32(&mut buf, 18, 400);
    put_be16(&mut buf, 22, 0x0202);
    put_be32(&mut buf, 30, 150);
    put_be32(&mut buf, 34, 64);
    put_be16(&mut buf, 64, 2);
    put_be16(&mut buf, 66, 0x0201);
    put_be32(&mut buf, 74, 1200);
    put_be16(&mut buf, 78, 0x0202);
    put_be32(&mut buf, 86, 500);
    put_be32(&mut buf, 90, 0);
    for i in 0..500 {
        buf[1200 + i] = (i % 249) as u8;
    }
    buf[1200] = 0xff;
    buf[1201] = 0xd8;
    buf
}

#[test]
fn permit_pool_never_exceeds_its_limit() {
    let mut pool = PermitPool::new(2);
    assert!(pool.try_acquire());
    assert!(pool.try_acquire());
    // Both permits are out: a third task must wait.
    assert!(!pool.try_acquire());
    assert_eq!(pool.active, 2);
    pool.release();
    assert!(pool.try_acquire());
    assert_eq!(pool.active, 2);
    pool.release();
    pool.release();
    assert_eq!(pool.active, 0);
}

#[test]
fn permit_pool_with_zero_limit_admits_nothing() {
    let mut pool = PermitPool::new(0);
    assert!(!pool.try_acquire());
    assert_eq!(pool.active, 0);
}

#[test]
fn all_succeeded_requires_every_file_written() {
    let ok = ProcessingOutcome {
        rel_path: b"a/img1.ARW".to_vec(),
        result: TaskResult::Written { bytes: 200 },
    };
    let ok2 = ProcessingOutcome {
        rel_path: b"a/img2.NEF".to_vec(),
        result: TaskResult::Written { bytes: 500 },
    };
    let bad = ProcessingOutcome {
        rel_path: b"a/broken.ARW".to_vec(),
        result: TaskResult::Failed { cause: FailureCause::Parse(LocateError::InvalidContainer) },
    };
    assert!(all_succeeded(&vec![]));
    let outcomes = vec![ok, ok2];
    assert!(all_succeeded(&outcomes));
    let outcomes = vec![outcomes.into_iter().next().unwrap(), bad];
    assert!(!all_succeeded(&outcomes));
    let io_bad = ProcessingOutcome {
        rel_path: b"a/missing.ARW".to_vec(),
        result: TaskResult::Failed { cause: FailureCause::IoFailure },
    };
    assert!(!all_succeeded(&vec![io_bad]));
}

#[test]
fn extraction_through_a_real_mapping() {
    // The locator result and the resolved slice, through an actual memory
    // map rather than a plain slice.
    let bytes = img1_arw();
    let mut anon = memmap2::MmapMut::map_anon(bytes.len()).expect("anonymous map");
    anon.copy_from_slice(&bytes);
    let map = anon.make_read_only().expect("read-only map");
    let info = extract_jpeg(&map).expect("embedded JPEG found");
    assert_eq!(info.offset, 1000);
    assert_eq!(info.length, 200);
    let slice = jpeg_slice(&map, &info);
    assert_eq!(slice, &bytes[1000..1200]);
}

#[test]
fn end_to_end_two_files() {
    // The end-to-end scenario on the byte level: both files of `a/` are
    // located, the larger of img2's two candidates wins, the output paths
    // mirror the inputs with the extension swapped, and the run succeeds.
    let arw = img1_arw();
    let nef = img2_nef();

    let info1 = find_largest_embedded_jpeg(&arw).unwrap();
    assert_eq!((info1.offset, info1.length), (1000, 200));
    let info2 = find_largest_embedded_jpeg(&nef).unwrap();
    assert_eq!((info2.offset, info2.length), (1200, 500));

    assert_eq!(output_rel_path(b"a/img1.ARW"), b"a/img1.jpg".to_vec());
    assert_eq!(output_rel_path(b"a/img2.NEF"), b"a/img2.jpg".to_vec());

    let written1 = &arw[info1.offset..info1.offset + info1.length];
    let written2 = &nef[info2.offset..info2.offset + info2.length];
    assert_eq!(written1.len(), 200);
    assert_eq!(written2.len(), 500);

    let outcomes = vec![
        ProcessingOutcome {
            rel_path: b"a/img1.ARW".to_vec(),
            result: TaskResult::Written { bytes: written1.len() },
        },
        ProcessingOutcome {
            rel_path: b"a/img2.NEF".to_vec(),
            result: TaskResult::Written { bytes: written2.len() },
        },
    ];
    assert!(all_succeeded(&outcomes));
}

#[test]
fn corrupted_file_fails_alone() {
    // A file with a valid extension but corrupted magic fails with
    // InvalidContainer; the valid file of the same run still resolves, and
    // the run as a whole is a failure.
    let mut broken = img1_arw();
    broken[0] = 0x00;
    broken[1] = 0x00;
    let err = find_largest_embedded_jpeg(&broken).unwrap_err();
    assert_eq!(err, LocateError::InvalidContainer);

    let good = img2_nef();
    let info = find_largest_embedded_jpeg(&good).unwrap();
    assert_eq!((info.offset, info.length), (1200, 500));

    let outcomes = vec![
        ProcessingOutcome {
            rel_path: b"a/broken.ARW".to_vec(),
            result: TaskResult::Failed { cause: FailureCause::Parse(err) },
        },
        ProcessingOutcome {
            rel_path: b"a/img2.NEF".to_vec(),
            result: TaskResult::Written { bytes: 500 },
        },
    ];
    assert!(!all_succeeded(&outcomes));
}
