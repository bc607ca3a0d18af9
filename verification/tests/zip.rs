use openvoxel::zip::{Algorithm, Lz4Zipper, UnzipError, UnzippedSpan, ZipLevel, Zipper, ZstdZipper};

fn thing_bytes(a: u64, b: u64, c: u32, d: u32) -> Vec<u8> {
    let mut v = Vec::new();
    v.extend_from_slice(&a.to_ne_bytes());
    v.extend_from_slice(&b.to_ne_bytes());
    v.extend_from_slice(&c.to_ne_bytes());
    v.extend_from_slice(&d.to_ne_bytes());
    v
}

#[test]
fn zstd() {
    let data = &[0, 1, 2, 3, 4, 5, 6, 7];
    let thing1 = thing_bytes(1, 2, 3, 4);
    let thing2 = thing_bytes(5, 6, 7, 8);

    let mut zipper = ZstdZipper::init(Vec::new(), ZipLevel::default());
    zipper.put(data);
    zipper.put(&thing1);
    zipper.put(&[0; 8]);
    zipper.put(&thing2);
    assert_eq!(zipper.len(), 8 + 24 + 8 + 24);
    let buf = zipper.finish();

    let span = UnzippedSpan::unzip(&buf).unwrap();
    let mut reader = span.reader();
    assert_eq!(reader.take_slice(8).unwrap(), data);
    assert_eq!(reader.take_slice(24).unwrap(), thing1.as_slice());
    reader.advance(8).unwrap();
    assert_eq!(reader.take_slice(24).unwrap(), thing2.as_slice());
    assert!(reader.advance(1).is_err());
}

#[test]
fn unzip_errors() {
    assert!(matches!(
        UnzippedSpan::unzip(&[1, 2]),
        Err(UnzipError::UnexpectedEoi { requested: 4, available: 2 })
    ));
    let big = 6_000_000u32.to_le_bytes();
    assert!(matches!(UnzippedSpan::unzip(&big), Err(UnzipError::TooBig(6_000_000))));
    let mut unknown = 8u32.to_le_bytes().to_vec();
    unknown.extend_from_slice(&9u32.to_le_bytes());
    assert!(matches!(UnzippedSpan::unzip(&unknown), Err(UnzipError::UnknownAlgorithm(9))));
    let mut bad = 8u32.to_le_bytes().to_vec();
    bad.extend_from_slice(&0u32.to_le_bytes());
    bad.extend_from_slice(&[1, 2, 3]);
    assert!(matches!(UnzippedSpan::unzip(&bad), Err(UnzipError::AlgorithmFailed(_))));
}

#[test]
fn algorithm_ids() {
    assert_eq!(Algorithm::from_u32(0).unwrap(), Algorithm::Zstd);
    assert_eq!(Algorithm::from_u32(1).unwrap(), Algorithm::Lz4);
    assert!(Algorithm::from_u32(2).is_err());
    assert_eq!(ZipLevel::High.zstd_level(), 5);
}

#[test]
fn unzip_to_span_short_input() {
    match openvoxel::zip::unzip_to_span(&[1, 2]) {
        Err(UnzipError::UnexpectedEoi { requested, available }) => {
            assert_eq!(requested, 4);
            assert_eq!(available, 2);
        }
        _ => panic!("expected an end-of-input error"),
    }
}

#[test]
fn lz4_zipper_block_size_follows_first_put() {
    let data: Vec<u8> = (0..70001u32).map(|i| (i % 251) as u8).collect();
    let mut a = Lz4Zipper::init(Vec::new(), ZipLevel::default());
    a.put(&data[..1]);
    a.put(&data[1..]);
    assert_eq!(a.len(), 70001);
    let a = a.finish();
    let mut b = Lz4Zipper::init(Vec::new(), ZipLevel::default());
    b.put(&data);
    let b = b.finish();
    // both start with the unzipped size and the algorithm id
    assert_eq!(&a[0..8], &b[0..8]);
    assert_eq!(&a[4..8], &[1, 0, 0, 0]);
    // the frame descriptor's block size differs: 64 KiB against 256 KiB
    assert_ne!(a, b);
}
