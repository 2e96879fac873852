//! The RIFF/WAVE input: 16-bit mono PCM at 18900 Hz, and the joining of
//! several inputs into one stream with silence between them.
use vstd::prelude::*;
use crate::bytes::{id_is, le_i16_from, le_u16, le_u32, push_all, signed16, ByteReader};

verus! {

/// Samples of silence put between two joined inputs: half a second.
pub const INTERFILE_SAMPLES: usize = 9450;

/// Bytes of silence put between two joined inputs.
pub const INTERFILE_BYTES: usize = 18900;

/// Bytes of the RIFF header, `fmt ` chunk and `data` chunk header together.
pub const WAV_HEADER_BYTES: usize = 44;

#[derive(Debug, PartialEq, Eq)]
pub enum WavError {
    UnexpectedEof,
    NotRiff,
    NotWave,
    NotFmtChunk,
    UnsupportedAudioFormat(u16),
    UnsupportedChannelCount(u16),
    UnsupportedSampleRate(u32),
    UnexpectedByteRate(u32),
    UnexpectedBlockAlign(u16),
    UnsupportedBitsPerSample(u16),
    NotDataChunk,
    NoInput,
    SampleCountOverflow,
}

pub open spec fn riff_id() -> Seq<u8> {
    seq![0x52u8, 0x49u8, 0x46u8, 0x46u8]
}

pub open spec fn wave_id() -> Seq<u8> {
    seq![0x57u8, 0x41u8, 0x56u8, 0x45u8]
}

pub open spec fn fmt_id() -> Seq<u8> {
    seq![0x66u8, 0x6Du8, 0x74u8, 0x20u8]
}

pub open spec fn data_id() -> Seq<u8> {
    seq![0x64u8, 0x61u8, 0x74u8, 0x61u8]
}

/// What is wrong with a RIFF header at the start of `b`, if anything.
pub open spec fn riff_problem(b: Seq<u8>) -> Option<WavError> {
    if b.len() < 4 {
        Some(WavError::UnexpectedEof)
    } else if b.take(4) != riff_id() {
        Some(WavError::NotRiff)
    } else if b.len() < 12 {
        Some(WavError::UnexpectedEof)
    } else if b.subrange(8, 12) != wave_id() {
        Some(WavError::NotWave)
    } else {
        None
    }
}

/// What is wrong with a `fmt ` chunk at the start of `b`, if anything:
/// checked field by field, in order.
pub open spec fn fmt_problem(b: Seq<u8>) -> Option<WavError> {
    if b.len() < 4 {
        Some(WavError::UnexpectedEof)
    } else if b.take(4) != fmt_id() {
        Some(WavError::NotFmtChunk)
    } else if b.len() < 10 {
        Some(WavError::UnexpectedEof)
    } else if le_u16(b.skip(8)) != 1 {
        Some(WavError::UnsupportedAudioFormat(le_u16(b.skip(8)) as u16))
    } else if b.len() < 12 {
        Some(WavError::UnexpectedEof)
    } else if le_u16(b.skip(10)) != 1 {
        Some(WavError::UnsupportedChannelCount(le_u16(b.skip(10)) as u16))
    } else if b.len() < 16 {
        Some(WavError::UnexpectedEof)
    } else if le_u32(b.skip(12)) != 18900 {
        Some(WavError::UnsupportedSampleRate(le_u32(b.skip(12)) as u32))
    } else if b.len() < 20 {
        Some(WavError::UnexpectedEof)
    } else if le_u32(b.skip(16)) != 37800 {
        Some(WavError::UnexpectedByteRate(le_u32(b.skip(16)) as u32))
    } else if b.len() < 22 {
        Some(WavError::UnexpectedEof)
    } else if le_u16(b.skip(20)) != 2 {
        Some(WavError::UnexpectedBlockAlign(le_u16(b.skip(20)) as u16))
    } else if b.len() < 24 {
        Some(WavError::UnexpectedEof)
    } else if le_u16(b.skip(22)) != 16 {
        Some(WavError::UnsupportedBitsPerSample(le_u16(b.skip(22)) as u16))
    } else {
        None
    }
}

/// What is wrong with a `data` chunk header at the start of `b`, if anything.
pub open spec fn data_problem(b: Seq<u8>) -> Option<WavError> {
    if b.len() < 4 {
        Some(WavError::UnexpectedEof)
    } else if b.take(4) != data_id() {
        Some(WavError::NotDataChunk)
    } else if b.len() < 8 {
        Some(WavError::UnexpectedEof)
    } else {
        None
    }
}

/// The RIFF header of a WAVE file.
#[derive(Debug)]
pub struct RiffHeader {
    pub chunk_id: [u8; 4],
    pub chunk_size: u32,
    pub format: [u8; 4],
}

impl RiffHeader {
    /// Reads a RIFF header of format WAVE.
    pub fn from_reader(rdr: &mut ByteReader) -> (r: Result<RiffHeader, WavError>)
        ensures
            ({
                let b = old(rdr).rest();
                &&& r is Err <==> riff_problem(b) is Some
                &&& r is Err ==> riff_problem(b) == Some(r->Err_0)
                &&& r is Ok ==> r->Ok_0.chunk_id@ == riff_id() && r->Ok_0.chunk_size == le_u32(
                    b.skip(4),
                ) && r->Ok_0.format@ == wave_id() && final(rdr).rest() == b.skip(12)
            }),
    {
        let ghost b = rdr.rest();
        let chunk_id = match rdr.read_id() {
            Some(id) => id,
            None => return Err(WavError::UnexpectedEof),
        };
        if !id_is(&chunk_id, 0x52, 0x49, 0x46, 0x46) {
            return Err(WavError::NotRiff);
        }
        let chunk_size = match rdr.read_u32_le() {
            Some(v) => v,
            None => return Err(WavError::UnexpectedEof),
        };
        let format = match rdr.read_id() {
            Some(id) => id,
            None => return Err(WavError::UnexpectedEof),
        };
        proof {
            assert(b.skip(4).skip(4).take(4) =~= b.subrange(8, 12));
            assert(b.skip(4).skip(4).skip(4) =~= b.skip(12));
        }
        if !id_is(&format, 0x57, 0x41, 0x56, 0x45) {
            return Err(WavError::NotWave);
        }
        Ok(RiffHeader { chunk_id, chunk_size, format })
    }
}


/// The `fmt ` chunk: PCM, one channel, 18900 Hz, 16 bits per sample.
#[derive(Debug)]
pub struct FormatChunk {
    pub chunk_id: [u8; 4],
    pub chunk_size: u32,
    pub audio_format: u16,
    pub num_channels: u16,
    pub sample_rate: u32,
    pub byte_rate: u32,
    pub block_align: u16,
    pub bits_per_sample: u16,
}

impl FormatChunk {
    /// Reads a `fmt ` chunk, refusing any format but 16-bit mono PCM at
    /// 18900 Hz.
    pub fn from_reader(rdr: &mut ByteReader) -> (r: Result<FormatChunk, WavError>)
        ensures
            ({
                let b = old(rdr).rest();
                &&& r is Err <==> fmt_problem(b) is Some
                &&& r is Err ==> fmt_problem(b) == Some(r->Err_0)
                &&& r is Ok ==> {
                    let c = r->Ok_0;
                    &&& c.chunk_id@ == fmt_id()
                    &&& c.chunk_size == le_u32(b.skip(4))
                    &&& c.audio_format == 1
                    &&& c.num_channels == 1
                    &&& c.sample_rate == 18900
                    &&& c.byte_rate == 37800
                    &&& c.block_align == 2
                    &&& c.bits_per_sample == 16
                    &&& final(rdr).rest() == b.skip(24)
                }
            }),
    {
        let ghost b = rdr.rest();
        let chunk_id = match rdr.read_id() {
            Some(id) => id,
            None => return Err(WavError::UnexpectedEof),
        };
        if !id_is(&chunk_id, 0x66, 0x6D, 0x74, 0x20) {
            return Err(WavError::NotFmtChunk);
        }
        let chunk_size = match rdr.read_u32_le() {
            Some(v) => v,
            None => return Err(WavError::UnexpectedEof),
        };
        proof {
            assert(b.skip(4).skip(4) =~= b.skip(8));
        }
        let audio_format = match rdr.read_u16_le() {
            Some(v) => v,
            None => return Err(WavError::UnexpectedEof),
        };
        if audio_format != 1 {
            return Err(WavError::UnsupportedAudioFormat(audio_format));
        }
        proof {
            assert(b.skip(8).skip(2) =~= b.skip(10));
        }
        let num_channels = match rdr.read_u16_le() {
            Some(v) => v,
            None => return Err(WavError::UnexpectedEof),
        };
        if num_channels != 1 {
            return Err(WavError::UnsupportedChannelCount(num_channels));
        }
        proof {
            assert(b.skip(10).skip(2) =~= b.skip(12));
        }
        let sample_rate = match rdr.read_u32_le() {
            Some(v) => v,
            None => return Err(WavError::UnexpectedEof),
        };
        if sample_rate != 18900 {
            return Err(WavError::UnsupportedSampleRate(sample_rate));
        }
        proof {
            assert(b.skip(12).skip(4) =~= b.skip(16));
        }
        let byte_rate = match rdr.read_u32_le() {
            Some(v) => v,
            None => return Err(WavError::UnexpectedEof),
        };
        if byte_rate != 18900 * 2 {
            return Err(WavError::UnexpectedByteRate(byte_rate));
        }
        proof {
            assert(b.skip(16).skip(4) =~= b.skip(20));
        }
        let block_align = match rdr.read_u16_le() {
            Some(v) => v,
            None => return Err(WavError::UnexpectedEof),
        };
        if block_align != 2 {
            return Err(WavError::UnexpectedBlockAlign(block_align));
        }
        proof {
            assert(b.skip(20).skip(2) =~= b.skip(22));
        }
        let bits_per_sample = match rdr.read_u16_le() {
            Some(v) => v,
            None => return Err(WavError::UnexpectedEof),
        };
        if bits_per_sample != 16 {
            return Err(WavError::UnsupportedBitsPerSample(bits_per_sample));
        }
        proof {
            assert(b.skip(22).skip(2) =~= b.skip(24));
        }
        Ok(
            FormatChunk {
                chunk_id,
                chunk_size,
                audio_format,
                num_channels,
                sample_rate,
                byte_rate,
                block_align,
                bits_per_sample,
            },
        )
    }
}

/// The header of the `data` chunk.
#[derive(Debug)]
pub struct DataChunk {
    pub chunk_id: [u8; 4],
    pub chunk_size: u32,
}

impl DataChunk {
    /// Reads the header of a `data` chunk.
    pub fn from_reader(rdr: &mut ByteReader) -> (r: Result<DataChunk, WavError>)
        ensures
            ({
                let b = old(rdr).rest();
                &&& r is Err <==> data_problem(b) is Some
                &&& r is Err ==> data_problem(b) == Some(r->Err_0)
                &&& r is Ok ==> r->Ok_0.chunk_id@ == data_id() && r->Ok_0.chunk_size == le_u32(
                    b.skip(4),
                ) && final(rdr).rest() == b.skip(8)
            }),
    {
        let ghost b = rdr.rest();
        let chunk_id = match rdr.read_id() {
            Some(id) => id,
            None => return Err(WavError::UnexpectedEof),
        };
        if !id_is(&chunk_id, 0x64, 0x61, 0x74, 0x61) {
            return Err(WavError::NotDataChunk);
        }
        let chunk_size = match rdr.read_u32_le() {
            Some(v) => v,
            None => return Err(WavError::UnexpectedEof),
        };
        Ok(DataChunk { chunk_id, chunk_size })
    }

    /// Number of 16-bit samples the chunk holds.
    pub fn samples_count(&self) -> (r: usize)
        ensures
            r == self.chunk_size / 2,
    {
        (self.chunk_size / 2) as usize
    }
}


/// What is wrong with the WAVE file `b`, if anything.
pub open spec fn wav_problem(b: Seq<u8>) -> Option<WavError> {
    if riff_problem(b) is Some {
        riff_problem(b)
    } else if fmt_problem(b.skip(12)) is Some {
        fmt_problem(b.skip(12))
    } else {
        data_problem(b.skip(36))
    }
}

/// Number of samples that the `data` chunk of the WAVE file `b` declares.
pub open spec fn wav_samples_count(b: Seq<u8>) -> int {
    le_u32(b.skip(40)) / 2
}

/// Reads the headers of a WAVE file up to its sample data; returns the
/// number of samples that the `data` chunk declares.
pub fn read_wav_header(rdr: &mut ByteReader) -> (r: Result<usize, WavError>)
    ensures
        ({
            let b = old(rdr).rest();
            &&& r is Err <==> wav_problem(b) is Some
            &&& r is Err ==> wav_problem(b) == Some(r->Err_0)
            &&& r is Ok ==> r->Ok_0 == wav_samples_count(b) && final(rdr).rest() == b.skip(
                WAV_HEADER_BYTES as int,
            )
        }),
{
    let ghost b = rdr.rest();
    let _riff_header = RiffHeader::from_reader(rdr)?;
    let _format_chunk = FormatChunk::from_reader(rdr)?;
    proof {
        assert(b.skip(12).skip(24) =~= b.skip(36));
    }
    let data_chunk = DataChunk::from_reader(rdr)?;
    proof {
        assert(b.skip(36).skip(4) =~= b.skip(40));
        assert(b.skip(36).skip(8) =~= b.skip(44));
    }
    Ok(data_chunk.samples_count())
}

/// Sample `i` of little-endian 16-bit PCM bytes `b`.
pub open spec fn pcm_sample(b: Seq<u8>, i: int) -> i16 {
    signed16(b[2 * i] + 256 * b[2 * i + 1]) as i16
}

/// The little-endian 16-bit samples of `bytes`; a last odd byte is dropped.
pub fn pcm_samples(bytes: &[u8]) -> (r: Vec<i16>)
    ensures
        r@.len() == bytes@.len() / 2,
        forall|i: int| 0 <= i < r@.len() ==> #[trigger] r@[i] == pcm_sample(bytes@, i),
{
    let mut r: Vec<i16> = Vec::new();
    let len = bytes.len();
    let n = len / 2;
    let mut i: usize = 0;
    while i < n
        invariant
            i <= n,
            len == bytes@.len(),
            n == len / 2,
            r@.len() == i,
            forall|j: int| 0 <= j < i ==> #[trigger] r@[j] == pcm_sample(bytes@, j),
        decreases n - i,
    {
        assert(2 * i + 1 < bytes@.len()) by (nonlinear_arith)
            requires
                i < n,
                n == len / 2,
                len == bytes@.len(),
        ;
        let j: usize = 2 * i;
        r.push(le_i16_from(bytes[j], bytes[j + 1]));
        i += 1;
    }
    r
}

/// `n` bytes of silence.
pub open spec fn silence(n: int) -> Seq<u8> {
    Seq::new(n as nat, |i: int| 0u8)
}

/// Joins the first `k` of the WAVE files `files`: the total sample count and
/// the sample data, with half a second of silence after every file but the
/// last. Stops at the first file with a problem, or where the count
/// outgrows `usize`.
pub open spec fn joined(files: Seq<Seq<u8>>, k: int) -> Result<(int, Seq<u8>), WavError>
    decreases k,
{
    if k <= 0 {
        Ok((0, seq![]))
    } else {
        match joined(files, k - 1) {
            Err(e) => Err(e),
            Ok(prev) => {
                let f = files[k - 1];
                if wav_problem(f) is Some {
                    Err(wav_problem(f)->0)
                } else {
                    let count = prev.0 + wav_samples_count(f);
                    let body = prev.1 + f.skip(WAV_HEADER_BYTES as int);
                    if count > usize::MAX {
                        Err(WavError::SampleCountOverflow)
                    } else if k < files.len() {
                        if count + INTERFILE_SAMPLES > usize::MAX {
                            Err(WavError::SampleCountOverflow)
                        } else {
                            Ok((count + INTERFILE_SAMPLES, body + silence(INTERFILE_BYTES as int)))
                        }
                    } else {
                        Ok((count, body))
                    }
                }
            },
        }
    }
}

proof fn lemma_joined_stops(files: Seq<Seq<u8>>, k: int, m: int)
    requires
        k <= m,
        joined(files, k) is Err,
    ensures
        joined(files, m) == joined(files, k),
    decreases m - k,
{
    if k < m {
        lemma_joined_stops(files, k, m - 1);
    }
}

pub open spec fn views(files: Seq<Vec<u8>>) -> Seq<Seq<u8>> {
    Seq::new(files.len(), |i: int| files[i]@)
}

/// Joins the WAVE files `files` into one stream: the total sample count and
/// the little-endian sample bytes, with half a second of silence between
/// two files.
pub fn prep_input(files: &[Vec<u8>]) -> (r: Result<(usize, Vec<u8>), WavError>)
    ensures
        files@.len() == 0 ==> r == Err::<(usize, Vec<u8>), WavError>(WavError::NoInput),
        files@.len() > 0 ==> match r {
            Ok(v) => joined(views(files@), files@.len() as int) == Ok::<(int, Seq<u8>), WavError>(
                (v.0 as int, v.1@),
            ),
            Err(e) => joined(views(files@), files@.len() as int) == Err::<(int, Seq<u8>), WavError>(
                e,
            ),
        },
{
    if files.len() == 0 {
        return Err(WavError::NoInput);
    }
    let ghost fs = views(files@);
    let mut samples_count: usize = 0;
    let mut buf: Vec<u8> = Vec::new();
    let mut n: usize = 0;
    while n < files.len()
        invariant
            n <= files@.len(),
            fs == views(files@),
            joined(fs, n as int) == Ok::<(int, Seq<u8>), WavError>((samples_count as int, buf@)),
        decreases files@.len() - n,
    {
        let ghost f = fs[n as int];
        assert(f == files@[n as int]@);
        let mut rdr = ByteReader::new(files[n].as_slice());
        let count = match read_wav_header(&mut rdr) {
            Ok(c) => c,
            Err(e) => {
                proof {
                    lemma_joined_stops(fs, n + 1, files@.len() as int);
                }
                return Err(e);
            },
        };
        let total = match samples_count.checked_add(count) {
            Some(t) => t,
            None => {
                proof {
                    lemma_joined_stops(fs, n + 1, files@.len() as int);
                }
                return Err(WavError::SampleCountOverflow);
            },
        };
        rdr.read_to_end(&mut buf);
        samples_count = total;
        if n + 1 < files.len() {
            let with_gap = match samples_count.checked_add(INTERFILE_SAMPLES) {
                Some(t) => t,
                None => {
                    proof {
                        lemma_joined_stops(fs, n + 1, files@.len() as int);
                    }
                    return Err(WavError::SampleCountOverflow);
                },
            };
            let ghost before = buf@;
            let mut i: usize = 0;
            while i < INTERFILE_BYTES
                invariant
                    i <= INTERFILE_BYTES,
                    buf@ == before + silence(i as int),
                decreases INTERFILE_BYTES - i,
            {
                buf.push(0u8);
                proof {
                    assert(buf@ =~= before + silence(i + 1));
                }
                i += 1;
            }
            samples_count = with_gap;
        }
        n += 1;
    }
    Ok((samples_count, buf))
}

} // verus!
