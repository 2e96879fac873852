use xa_adpcm::bytes::ByteReader;
use xa_adpcm::wav::{pcm_samples, prep_input, read_wav_header, DataChunk, WavError};

fn wav(samples: &[i16]) -> Vec<u8> {
    let data_len = (samples.len() * 2) as u32;
    let mut b = Vec::new();
    b.extend_from_slice(b"RIFF");
    b.extend_from_slice(&(36 + data_len).to_le_bytes());
    b.extend_from_slice(b"WAVE");
    b.extend_from_slice(b"fmt ");
    b.extend_from_slice(&16u32.to_le_bytes());
    b.extend_from_slice(&1u16.to_le_bytes());
    b.extend_from_slice(&1u16.to_le_bytes());
    b.extend_from_slice(&18900u32.to_le_bytes());
    b.extend_from_slice(&37800u32.to_le_bytes());
    b.extend_from_slice(&2u16.to_le_bytes());
    b.extend_from_slice(&16u16.to_le_bytes());
    b.extend_from_slice(b"data");
    b.extend_from_slice(&data_len.to_le_bytes());
    for s in samples {
        b.extend_from_slice(&s.to_le_bytes());
    }
    b
}

fn header_error(bytes: &[u8]) -> WavError {
    read_wav_header(&mut ByteReader::new(bytes)).unwrap_err()
}

fn patched(offset: usize, value: &[u8]) -> Vec<u8> {
    let mut b = wav(&[1, 2, 3]);
    b[offset..offset + value.len()].copy_from_slice(value);
    b
}

#[test]
fn header_gives_sample_count() {
    let b = wav(&[5, -5, 7]);
    let mut rdr = ByteReader::new(&b);
    assert_eq!(read_wav_header(&mut rdr), Ok(3));
    let mut rest = Vec::new();
    rdr.read_to_end(&mut rest);
    assert_eq!(pcm_samples(&rest), vec![5, -5, 7]);
}

#[test]
fn header_errors() {
    assert_eq!(header_error(b"RIF"), WavError::UnexpectedEof);
    assert_eq!(header_error(&patched(0, b"RIFX")), WavError::NotRiff);
    assert_eq!(header_error(&patched(8, b"WAVX")), WavError::NotWave);
    assert_eq!(header_error(&patched(12, b"fmtx")), WavError::NotFmtChunk);
    assert_eq!(header_error(&patched(20, &3u16.to_le_bytes())), WavError::UnsupportedAudioFormat(3));
    assert_eq!(header_error(&patched(22, &2u16.to_le_bytes())), WavError::UnsupportedChannelCount(2));
    assert_eq!(header_error(&patched(24, &44100u32.to_le_bytes())), WavError::UnsupportedSampleRate(44100));
    assert_eq!(header_error(&patched(28, &1u32.to_le_bytes())), WavError::UnexpectedByteRate(1));
    assert_eq!(header_error(&patched(32, &4u16.to_le_bytes())), WavError::UnexpectedBlockAlign(4));
    assert_eq!(header_error(&patched(34, &8u16.to_le_bytes())), WavError::UnsupportedBitsPerSample(8));
    assert_eq!(header_error(&patched(36, b"LIST")), WavError::NotDataChunk);
    assert_eq!(header_error(&wav(&[])[..40]), WavError::UnexpectedEof);
}

#[test]
fn data_chunk_counts_samples() {
    let mut b = b"data".to_vec();
    b.extend_from_slice(&11u32.to_le_bytes());
    let d = DataChunk::from_reader(&mut ByteReader::new(&b)).unwrap();
    assert_eq!(d.samples_count(), 5);
}

#[test]
fn pcm_little_endian_decoding() {
    assert_eq!(pcm_samples(&[0x01, 0x00, 0xFF, 0xFF, 0x00, 0x80, 0x07]), vec![1, -1, -32768]);
    assert_eq!(pcm_samples(&[]), Vec::<i16>::new());
}

#[test]
fn join_puts_silence_between_inputs() {
    let (count, body) = prep_input(&[wav(&[1, 2]), wav(&[3])]).unwrap();
    assert_eq!(count, 2 + 9450 + 1);
    assert_eq!(body.len(), 4 + 18900 + 2);
    assert_eq!(&body[..4], &[1, 0, 2, 0]);
    assert!(body[4..4 + 18900].iter().all(|&b| b == 0));
    assert_eq!(&body[4 + 18900..], &[3, 0]);
}

#[test]
fn join_of_one_input_is_that_input() {
    let (count, body) = prep_input(&[wav(&[7, 8, 9])]).unwrap();
    assert_eq!(count, 3);
    assert_eq!(body, vec![7, 0, 8, 0, 9, 0]);
}

#[test]
fn join_errors() {
    assert_eq!(prep_input(&[]), Err(WavError::NoInput));
    assert_eq!(prep_input(&[wav(&[1]), patched(0, b"JUNK")]), Err(WavError::NotRiff));
}
