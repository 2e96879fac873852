use xa_adpcm::aiff::{apcm_aiff_header, APCMChunk, CommonChunk, ContainerError, HeaderError, AIFF};
use xa_adpcm::bytes::ByteReader;

#[test]
fn header_for_one_sector() {
    let h = apcm_aiff_header(4032).unwrap();
    // Four sectors of data: the stream's one and three leading ones.
    let data_size: u32 = 4 * 2324;
    let mut expected = Vec::new();
    expected.extend_from_slice(b"FORM");
    expected.extend_from_slice(&(46 + data_size).to_be_bytes());
    expected.extend_from_slice(b"AIFF");
    expected.extend_from_slice(b"COMM");
    expected.extend_from_slice(&18u32.to_be_bytes());
    expected.extend_from_slice(&1u16.to_be_bytes());
    expected.extend_from_slice(&(4032u32 + 3 * 4032).to_be_bytes());
    expected.extend_from_slice(&4u16.to_be_bytes());
    expected.extend_from_slice(&[0x40, 0x0D, 0x93, 0xA8, 0, 0, 0, 0, 0, 0]);
    expected.extend_from_slice(b"APCM");
    expected.extend_from_slice(&(8 + data_size).to_be_bytes());
    expected.extend_from_slice(&0u32.to_be_bytes());
    expected.extend_from_slice(&2324u32.to_be_bytes());
    assert_eq!(h, expected);
}

#[test]
fn header_for_no_samples_counts_leading_sectors() {
    let h = apcm_aiff_header(0).unwrap();
    assert_eq!(h.len(), 12 + 26 + 16);
    assert_eq!(&h[4..8], &(46u32 + 3 * 2324).to_be_bytes());
    assert_eq!(&h[22..26], &(3u32 * 4032).to_be_bytes());
}

#[test]
fn header_data_size_overflow() {
    let too_many = (924044usize) * 4032;
    assert_eq!(apcm_aiff_header(too_many), Err(HeaderError::DataSizeOverflow));
    assert!(apcm_aiff_header(too_many - 4032).is_ok());
}

#[test]
fn sample_rate_is_extended_18900() {
    let c = CommonChunk::new(5);
    assert_eq!(c.sample_rate.sign_exponent, 0x400D);
    assert_eq!(c.sample_rate.fraction, 0x93A8_0000_0000_0000);
    let b = c.to_bytes();
    assert_eq!(&b[16..], &[0x40, 0x0D, 0x93, 0xA8, 0, 0, 0, 0, 0, 0]);
}

#[test]
fn chunks_read_back() {
    let bytes = apcm_aiff_header(10000).unwrap();
    let mut rdr = ByteReader::new(&bytes);
    let form = AIFF::from_reader(&mut rdr).unwrap();
    assert_eq!(form.chunk_size, 46 + 6 * 2324);
    let comm = CommonChunk::from_reader(&mut rdr).unwrap();
    assert_eq!(comm.num_channels, 1);
    assert_eq!(comm.num_sample_frames, 10000 + 3 * 4032);
    assert_eq!(comm.sample_size, 4);
    assert_eq!(comm.sample_rate, CommonChunk::new(0).sample_rate);
    let apcm = APCMChunk::from_reader(&mut rdr).unwrap();
    assert_eq!(apcm.chunk_size, 8 + 6 * 2324);
    assert_eq!(apcm.unknown, 0);
    assert_eq!(apcm.sector_size, 0x914);
}

#[test]
fn chunk_errors() {
    assert_eq!(AIFF::from_reader(&mut ByteReader::new(b"FOR")).unwrap_err(), ContainerError::UnexpectedEof);
    assert_eq!(AIFF::from_reader(&mut ByteReader::new(b"RIFF0000AIFF")).unwrap_err(), ContainerError::NotFormChunk);
    assert_eq!(AIFF::from_reader(&mut ByteReader::new(b"FORM0000AIFC")).unwrap_err(), ContainerError::NotAiffForm);
    assert_eq!(AIFF::from_reader(&mut ByteReader::new(b"FORM0000AI")).unwrap_err(), ContainerError::UnexpectedEof);
    assert_eq!(
        CommonChunk::from_reader(&mut ByteReader::new(b"COMX000000000000000000000000")).unwrap_err(),
        ContainerError::NotCommonChunk
    );
    assert_eq!(
        CommonChunk::from_reader(&mut ByteReader::new(b"COMM0000")).unwrap_err(),
        ContainerError::UnexpectedEof
    );
    assert_eq!(
        APCMChunk::from_reader(&mut ByteReader::new(b"APCX000000000000")).unwrap_err(),
        ContainerError::NotApcmChunk
    );
    assert_eq!(
        APCMChunk::from_reader(&mut ByteReader::new(b"APCM00000000")).unwrap_err(),
        ContainerError::UnexpectedEof
    );
}

#[test]
fn negative_sizes_are_twos_complement() {
    let a = AIFF::new(-100);
    assert_eq!(a.to_bytes(), [b"FORM".as_slice(), &(-54i32).to_be_bytes(), b"AIFF"].concat());
}
