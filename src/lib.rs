//! XA-ADPCM encoding of 16-bit mono PCM audio, with the container header
//! and input parsing around it.
pub mod adpcm_encoder;
pub mod bytes;
pub mod aiff;
pub mod wav;
