//! The container header: a FORM chunk of type AIFF, a COMM chunk and an
//! APCM chunk, all big-endian, before the encoded sectors.
use vstd::prelude::*;
use crate::adpcm_encoder::{sector_count, sectors_for, ADPCM_SECTOR_SAMPLES, XA_ADPCM_SECTOR_SIZE};
use crate::bytes::{
    be_bytes, be_bytes16, be_bytes32, be_u16, be_u32, be_value, bits16, bits32, id_is, push_be_i16,
    push_all, push_be_i32, push_be_u32, signed16, signed32, ByteReader,
};

verus! {

/// Sample rate of the stream, in Hz.
pub const SAMPLE_RATE: i32 = 18900;

/// Sectors of silence that the container counts before the stream.
pub const LEADING_SECTORS: usize = 3;

/// Largest sector count whose byte size fits an `i32`.
pub const MAX_SECTORS: usize = 924046;

#[derive(Debug, PartialEq, Eq)]
pub enum ContainerError {
    UnexpectedEof,
    NotFormChunk,
    NotAiffForm,
    NotCommonChunk,
    NotApcmChunk,
}

#[derive(Debug, PartialEq, Eq)]
pub enum HeaderError {
    /// The size of the sectors does not fit the header's 32-bit field.
    DataSizeOverflow,
    /// The sample count does not fit the header's 32-bit field.
    SampleCountOverflow,
}

pub open spec fn form_id() -> Seq<u8> {
    seq![0x46u8, 0x4Fu8, 0x52u8, 0x4Du8]
}

pub open spec fn aiff_form_type() -> Seq<u8> {
    seq![0x41u8, 0x49u8, 0x46u8, 0x46u8]
}

pub open spec fn comm_id() -> Seq<u8> {
    seq![0x43u8, 0x4Fu8, 0x4Du8, 0x4Du8]
}

pub open spec fn apcm_id() -> Seq<u8> {
    seq![0x41u8, 0x50u8, 0x43u8, 0x4Du8]
}

// ---------------------------------------------------------------------------
// 80-bit extended floating point, for the sample rate

/// An 80-bit extended floating-point number: sign and exponent, and a
/// 64-bit fraction with an explicit ones bit.
#[derive(Debug, Clone, Copy, PartialEq, Eq)]
pub struct ExtendedFloat {
    pub sign_exponent: u16,
    pub fraction: u64,
}

/// The fields of the extended number that `extended` converts `x` to.
pub uninterp spec fn extended_of_i32(x: i32) -> (u16, u64);

/// Relies on `extended::Extended::from(i32)`, whose fields depend on `x`
/// alone.
#[verifier::external_body]
fn extended_from_i32(x: i32) -> (r: ExtendedFloat)
    ensures
        (r.sign_exponent, r.fraction) == extended_of_i32(x),
{
    let e = extended::Extended::from(x);
    ExtendedFloat { sign_exponent: e.sign_exponent, fraction: e.fraction }
}

/// Relies on `extended::Extended::from_be_bytes`: sign and exponent are the
/// first two bytes, the fraction the other eight, big-endian.
#[verifier::external_body]
fn extended_from_be_bytes(b: [u8; 10]) -> (r: ExtendedFloat)
    ensures
        r.sign_exponent == be_value(b@.take(2)),
        r.fraction == be_value(b@.skip(2)),
{
    let e = extended::Extended::from_be_bytes(b);
    ExtendedFloat { sign_exponent: e.sign_exponent, fraction: e.fraction }
}

/// Relies on `extended::Extended::to_be_bytes`: sign and exponent in two
/// big-endian bytes, then the fraction in eight.
#[verifier::external_body]
fn extended_to_be_bytes(v: ExtendedFloat) -> (r: [u8; 10])
    ensures
        r@ == be_bytes(v.sign_exponent as int, 2) + be_bytes(v.fraction as int, 8),
{
    let e = extended::Extended { sign_exponent: v.sign_exponent, fraction: v.fraction };
    e.to_be_bytes()
}

// ---------------------------------------------------------------------------
// FORM chunk

/// The FORM chunk that opens the container.
#[derive(Debug)]
pub struct AIFF {
    pub chunk_id: [u8; 4],
    pub chunk_size: i32,
    pub form_type: [u8; 4],
}

/// Size of what follows a FORM chunk's size field, besides the sectors: the
/// form type, the COMM chunk and the APCM chunk's header.
pub const FORM_OVERHEAD: i32 = 4 + 8 + 18 + 8 + 8;

pub open spec fn aiff_bytes(chunk_size: int) -> Seq<u8> {
    form_id() + be_bytes32(bits32(chunk_size)) + aiff_form_type()
}

impl AIFF {
    pub fn new(adpcm_data_size: i32) -> (r: AIFF)
        requires
            adpcm_data_size <= i32::MAX - FORM_OVERHEAD,
        ensures
            r.chunk_id@ == form_id(),
            r.chunk_size == FORM_OVERHEAD + adpcm_data_size,
            r.form_type@ == aiff_form_type(),
    {
        let r = AIFF {
            chunk_id: [0x46, 0x4F, 0x52, 0x4D],
            chunk_size: FORM_OVERHEAD + adpcm_data_size,
            form_type: [0x41, 0x49, 0x46, 0x46],
        };
        assert(r.chunk_id@ =~= form_id());
        assert(r.form_type@ =~= aiff_form_type());
        r
    }

    /// The chunk's 12 bytes.
    pub fn to_bytes(&self) -> (r: Vec<u8>)
        ensures
            r@ == self.chunk_id@ + be_bytes32(bits32(self.chunk_size as int)) + self.form_type@,
    {
        let mut out: Vec<u8> = Vec::new();
        push_all(&mut out, &self.chunk_id);
        push_be_i32(&mut out, self.chunk_size);
        push_all(&mut out, &self.form_type);
        assert(out@ =~= self.chunk_id@ + be_bytes32(bits32(self.chunk_size as int)) + self.form_type@);
        out
    }

    /// Reads a FORM chunk header of type AIFF.
    pub fn from_reader(rdr: &mut ByteReader) -> (r: Result<AIFF, ContainerError>)
        ensures
            ({
                let b = old(rdr).rest();
                &&& b.len() < 4 ==> r == Err::<AIFF, ContainerError>(ContainerError::UnexpectedEof)
                &&& b.len() >= 4 && b.take(4) != form_id() ==> r == Err::<AIFF, ContainerError>(
                    ContainerError::NotFormChunk,
                )
                &&& b.len() >= 4 && b.take(4) == form_id() && b.len() < 12 ==> r == Err::<
                    AIFF,
                    ContainerError,
                >(ContainerError::UnexpectedEof)
                &&& b.len() >= 12 && b.take(4) == form_id() && b.subrange(8, 12) != aiff_form_type()
                    ==> r == Err::<AIFF, ContainerError>(ContainerError::NotAiffForm)
                &&& r is Ok <==> b.len() >= 12 && b.take(4) == form_id() && b.subrange(8, 12)
                    == aiff_form_type()
                &&& r is Ok ==> r->Ok_0.chunk_id@ == form_id() && r->Ok_0.chunk_size == signed32(
                    be_u32(b.skip(4)),
                ) && r->Ok_0.form_type@ == aiff_form_type() && final(rdr).rest() == b.skip(12)
            }),
    {
        let ghost b = rdr.rest();
        let chunk_id = match rdr.read_id() {
            Some(id) => id,
            None => return Err(ContainerError::UnexpectedEof),
        };
        if !id_is(&chunk_id, 0x46, 0x4F, 0x52, 0x4D) {
            return Err(ContainerError::NotFormChunk);
        }
        let chunk_size = match rdr.read_i32_be() {
            Some(v) => v,
            None => return Err(ContainerError::UnexpectedEof),
        };
        let form_type = match rdr.read_id() {
            Some(id) => id,
            None => return Err(ContainerError::UnexpectedEof),
        };
        proof {
            assert(b.skip(4).skip(4).take(4) =~= b.subrange(8, 12));
            assert(b.skip(4).skip(4).skip(4) =~= b.skip(12));
        }
        if !id_is(&form_type, 0x41, 0x49, 0x46, 0x46) {
            return Err(ContainerError::NotAiffForm);
        }
        Ok(AIFF { chunk_id, chunk_size, form_type })
    }
}


// ---------------------------------------------------------------------------
// COMM chunk

/// The COMM chunk: one channel of 4-bit samples at 18900 Hz.
#[derive(Debug)]
pub struct CommonChunk {
    pub chunk_id: [u8; 4],
    pub chunk_size: i32,
    pub num_channels: i16,
    pub num_sample_frames: u32,
    pub sample_size: i16,
    pub sample_rate: ExtendedFloat,
}

/// The bytes of a COMM chunk with the given fields.
pub open spec fn comm_fields_bytes(
    chunk_id: Seq<u8>,
    chunk_size: i32,
    num_channels: i16,
    num_sample_frames: u32,
    sample_size: i16,
    sample_rate: (u16, u64),
) -> Seq<u8> {
    chunk_id + be_bytes32(bits32(chunk_size as int)) + be_bytes16(bits16(num_channels as int))
        + be_bytes32(num_sample_frames as int) + be_bytes16(bits16(sample_size as int)) + be_bytes(
        sample_rate.0 as int,
        2,
    ) + be_bytes(sample_rate.1 as int, 8)
}

/// The COMM chunk that `CommonChunk::new(frames)` writes.
pub open spec fn comm_bytes(frames: u32) -> Seq<u8> {
    comm_fields_bytes(comm_id(), 18, 1, frames, 4, extended_of_i32(SAMPLE_RATE))
}

impl CommonChunk {
    pub fn new(samples_count: u32) -> (r: CommonChunk)
        ensures
            r.chunk_id@ == comm_id(),
            r.chunk_size == 18,
            r.num_channels == 1,
            r.num_sample_frames == samples_count,
            r.sample_size == 4,
            (r.sample_rate.sign_exponent, r.sample_rate.fraction) == extended_of_i32(SAMPLE_RATE),
    {
        let r = CommonChunk {
            chunk_id: [0x43, 0x4F, 0x4D, 0x4D],
            chunk_size: 18,
            num_channels: 1,
            num_sample_frames: samples_count,
            sample_size: 4,
            sample_rate: extended_from_i32(SAMPLE_RATE),
        };
        assert(r.chunk_id@ =~= comm_id());
        r
    }

    /// The chunk's 26 bytes.
    pub fn to_bytes(&self) -> (r: Vec<u8>)
        ensures
            r@ == comm_fields_bytes(
                self.chunk_id@,
                self.chunk_size,
                self.num_channels,
                self.num_sample_frames,
                self.sample_size,
                (self.sample_rate.sign_exponent, self.sample_rate.fraction),
            ),
    {
        let mut out: Vec<u8> = Vec::new();
        push_all(&mut out, &self.chunk_id);
        push_be_i32(&mut out, self.chunk_size);
        push_be_i16(&mut out, self.num_channels);
        push_be_u32(&mut out, self.num_sample_frames);
        push_be_i16(&mut out, self.sample_size);
        let rate = extended_to_be_bytes(self.sample_rate);
        push_all(&mut out, &rate);
        out
    }

    /// Reads a COMM chunk.
    pub fn from_reader(rdr: &mut ByteReader) -> (r: Result<CommonChunk, ContainerError>)
        ensures
            ({
                let b = old(rdr).rest();
                &&& b.len() < 4 ==> r == Err::<CommonChunk, ContainerError>(
                    ContainerError::UnexpectedEof,
                )
                &&& b.len() >= 4 && b.take(4) != comm_id() ==> r == Err::<
                    CommonChunk,
                    ContainerError,
                >(ContainerError::NotCommonChunk)
                &&& b.len() >= 4 && b.take(4) == comm_id() && b.len() < 26 ==> r == Err::<
                    CommonChunk,
                    ContainerError,
                >(ContainerError::UnexpectedEof)
                &&& r is Ok <==> b.len() >= 26 && b.take(4) == comm_id()
                &&& r is Ok ==> {
                    let c = r->Ok_0;
                    &&& c.chunk_id@ == comm_id()
                    &&& c.chunk_size == signed32(be_u32(b.skip(4)))
                    &&& c.num_channels == signed16(be_u16(b.skip(8)))
                    &&& c.num_sample_frames == be_u32(b.skip(10))
                    &&& c.sample_size == signed16(be_u16(b.skip(14)))
                    &&& c.sample_rate.sign_exponent == be_value(b.subrange(16, 18))
                    &&& c.sample_rate.fraction == be_value(b.subrange(18, 26))
                    &&& final(rdr).rest() == b.skip(26)
                }
            }),
    {
        let ghost b = rdr.rest();
        let chunk_id = match rdr.read_id() {
            Some(id) => id,
            None => return Err(ContainerError::UnexpectedEof),
        };
        if !id_is(&chunk_id, 0x43, 0x4F, 0x4D, 0x4D) {
            return Err(ContainerError::NotCommonChunk);
        }
        let chunk_size = match rdr.read_i32_be() {
            Some(v) => v,
            None => return Err(ContainerError::UnexpectedEof),
        };
        let num_channels = match rdr.read_i16_be() {
            Some(v) => v,
            None => return Err(ContainerError::UnexpectedEof),
        };
        let num_sample_frames = match rdr.read_u32_be() {
            Some(v) => v,
            None => return Err(ContainerError::UnexpectedEof),
        };
        let sample_size = match rdr.read_i16_be() {
            Some(v) => v,
            None => return Err(ContainerError::UnexpectedEof),
        };
        let rate = match rdr.read_bytes(10) {
            Some(v) => v,
            None => return Err(ContainerError::UnexpectedEof),
        };
        let rate_bytes: [u8; 10] = [
            rate[0],
            rate[1],
            rate[2],
            rate[3],
            rate[4],
            rate[5],
            rate[6],
            rate[7],
            rate[8],
            rate[9],
        ];
        proof {
            assert(b.skip(4).skip(4) =~= b.skip(8));
            assert(b.skip(8).skip(2) =~= b.skip(10));
            assert(b.skip(10).skip(4) =~= b.skip(14));
            assert(b.skip(14).skip(2) =~= b.skip(16));
            assert(b.skip(16).skip(10) =~= b.skip(26));
            assert(rate_bytes@.take(2) =~= b.subrange(16, 18));
            assert(rate_bytes@.skip(2) =~= b.subrange(18, 26));
        }
        let sample_rate = extended_from_be_bytes(rate_bytes);
        Ok(CommonChunk { chunk_id, chunk_size, num_channels, num_sample_frames, sample_size, sample_rate })
    }
}

// ---------------------------------------------------------------------------
// APCM chunk

/// The APCM chunk: its header, then the encoded sectors.
#[derive(Debug)]
pub struct APCMChunk {
    pub chunk_id: [u8; 4],
    pub chunk_size: i32,
    pub unknown: i32,
    pub sector_size: i32,
}

/// The 16 header bytes of the APCM chunk around `adpcm_data_size` bytes of
/// sectors.
pub open spec fn apcm_bytes(adpcm_data_size: int) -> Seq<u8> {
    apcm_id() + be_bytes32(bits32(8 + adpcm_data_size)) + be_bytes32(0) + be_bytes32(
        XA_ADPCM_SECTOR_SIZE as int,
    )
}

impl APCMChunk {
    pub fn new(adpcm_data_size: i32) -> (r: APCMChunk)
        requires
            adpcm_data_size <= i32::MAX - 8,
        ensures
            r.chunk_id@ == apcm_id(),
            r.chunk_size == 8 + adpcm_data_size,
            r.unknown == 0,
            r.sector_size == XA_ADPCM_SECTOR_SIZE,
    {
        let r = APCMChunk {
            chunk_id: [0x41, 0x50, 0x43, 0x4D],
            chunk_size: 8 + adpcm_data_size,
            unknown: 0,
            sector_size: 0x914,
        };
        assert(r.chunk_id@ =~= apcm_id());
        r
    }

    /// The chunk header's 16 bytes.
    pub fn to_bytes(&self) -> (r: Vec<u8>)
        ensures
            r@ == self.chunk_id@ + be_bytes32(bits32(self.chunk_size as int)) + be_bytes32(
                bits32(self.unknown as int),
            ) + be_bytes32(bits32(self.sector_size as int)),
    {
        let mut out: Vec<u8> = Vec::new();
        push_all(&mut out, &self.chunk_id);
        push_be_i32(&mut out, self.chunk_size);
        push_be_i32(&mut out, self.unknown);
        push_be_i32(&mut out, self.sector_size);
        out
    }

    /// Reads an APCM chunk header.
    pub fn from_reader(rdr: &mut ByteReader) -> (r: Result<APCMChunk, ContainerError>)
        ensures
            ({
                let b = old(rdr).rest();
                &&& b.len() < 4 ==> r == Err::<APCMChunk, ContainerError>(
                    ContainerError::UnexpectedEof,
                )
                &&& b.len() >= 4 && b.take(4) != apcm_id() ==> r == Err::<APCMChunk, ContainerError>(
                    ContainerError::NotApcmChunk,
                )
                &&& b.len() >= 4 && b.take(4) == apcm_id() && b.len() < 16 ==> r == Err::<
                    APCMChunk,
                    ContainerError,
                >(ContainerError::UnexpectedEof)
                &&& r is Ok <==> b.len() >= 16 && b.take(4) == apcm_id()
                &&& r is Ok ==> {
                    let c = r->Ok_0;
                    &&& c.chunk_id@ == apcm_id()
                    &&& c.chunk_size == signed32(be_u32(b.skip(4)))
                    &&& c.unknown == signed32(be_u32(b.skip(8)))
                    &&& c.sector_size == signed32(be_u32(b.skip(12)))
                    &&& final(rdr).rest() == b.skip(16)
                }
            }),
    {
        let ghost b = rdr.rest();
        let chunk_id = match rdr.read_id() {
            Some(id) => id,
            None => return Err(ContainerError::UnexpectedEof),
        };
        if !id_is(&chunk_id, 0x41, 0x50, 0x43, 0x4D) {
            return Err(ContainerError::NotApcmChunk);
        }
        let chunk_size = match rdr.read_i32_be() {
            Some(v) => v,
            None => return Err(ContainerError::UnexpectedEof),
        };
        let unknown = match rdr.read_i32_be() {
            Some(v) => v,
            None => return Err(ContainerError::UnexpectedEof),
        };
        let sector_size = match rdr.read_i32_be() {
            Some(v) => v,
            None => return Err(ContainerError::UnexpectedEof),
        };
        proof {
            assert(b.skip(4).skip(4) =~= b.skip(8));
            assert(b.skip(8).skip(4) =~= b.skip(12));
            assert(b.skip(12).skip(4) =~= b.skip(16));
        }
        Ok(APCMChunk { chunk_id, chunk_size, unknown, sector_size })
    }
}


// ---------------------------------------------------------------------------
// The whole header

/// Sectors that the container counts for `num_samples` samples: the
/// stream's own, and the leading ones.
pub open spec fn container_sectors(num_samples: int) -> int {
    sectors_for(num_samples) + LEADING_SECTORS
}

/// The header bytes for `num_samples` samples, where its fields can hold
/// them.
pub open spec fn header_bytes(num_samples: int) -> Seq<u8> {
    let data_size = XA_ADPCM_SECTOR_SIZE * container_sectors(num_samples);
    aiff_bytes(FORM_OVERHEAD + data_size) + comm_bytes(
        (num_samples + LEADING_SECTORS * ADPCM_SECTOR_SAMPLES) as u32,
    ) + apcm_bytes(data_size)
}

/// The container header for a stream of `num_samples` samples: the FORM,
/// COMM and APCM chunk headers. The counts include three leading sectors.
pub fn apcm_aiff_header(num_samples: usize) -> (r: Result<Vec<u8>, HeaderError>)
    ensures
        r == Err::<Vec<u8>, HeaderError>(HeaderError::DataSizeOverflow) <==> container_sectors(
            num_samples as int,
        ) > MAX_SECTORS,
        r == Err::<Vec<u8>, HeaderError>(HeaderError::SampleCountOverflow) <==> container_sectors(
            num_samples as int,
        ) <= MAX_SECTORS && num_samples + LEADING_SECTORS * ADPCM_SECTOR_SAMPLES > u32::MAX,
        r is Ok <==> container_sectors(num_samples as int) <= MAX_SECTORS && num_samples
            + LEADING_SECTORS * ADPCM_SECTOR_SAMPLES <= u32::MAX,
        r is Ok ==> r->Ok_0@ == header_bytes(num_samples as int),
{
    let num_sectors = sector_count(num_samples);
    assert(num_sectors <= usize::MAX / 4032 + 1) by (nonlinear_arith)
        requires
            num_sectors == (num_samples + 4031) / 4032,
            num_samples <= usize::MAX,
    ;
    let num_sectors = num_sectors + LEADING_SECTORS;
    if num_sectors > MAX_SECTORS {
        return Err(HeaderError::DataSizeOverflow);
    }
    let data_size = (num_sectors * XA_ADPCM_SECTOR_SIZE) as i32;
    if num_samples > u32::MAX as usize - LEADING_SECTORS * ADPCM_SECTOR_SAMPLES {
        return Err(HeaderError::SampleCountOverflow);
    }
    let total_samples = (num_samples + LEADING_SECTORS * ADPCM_SECTOR_SAMPLES) as u32;

    let aiff = AIFF::new(data_size);
    let comm = CommonChunk::new(total_samples);
    let apcm = APCMChunk::new(data_size);

    let mut out = aiff.to_bytes();
    let comm_part = comm.to_bytes();
    let apcm_part = apcm.to_bytes();
    push_all(&mut out, comm_part.as_slice());
    push_all(&mut out, apcm_part.as_slice());
    Ok(out)
}

} // verus!
