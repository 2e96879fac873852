//! The XA-ADPCM encoder: filter selection, quantization with noise shaping,
//! and the packing of sound units into sound groups and sectors.
use vstd::prelude::*;

verus! {

/// Number of (K0, K1) prediction filter pairs.
pub const XA_ADPCM_FILTER_COUNT: usize = 4;

/// Largest shift a decoder applies to expand a 4-bit sample to 16 bits.
pub const MAX_SHIFT: u32 = 12;

/// `i16::MAX >> MAX_SHIFT`: the largest value a 4-bit sample holds.
pub const MAX_NIBBLE: i32 = 7;

/// `i16::MIN >> MAX_SHIFT`: the smallest value a 4-bit sample holds.
pub const MIN_NIBBLE: i32 = -8;

pub const SOUND_UNIT_SAMPLES: usize = 28;
pub const SOUND_UNITS_PER_GROUP: usize = 8;
pub const SOUND_GROUP_SAMPLES: usize = 224;
pub const SOUND_GROUP_BYTES: usize = 128;
pub const SOUND_GROUPS_PER_SECTOR: usize = 18;
pub const ADPCM_SECTOR_SAMPLES: usize = 4032;
pub const SECTOR_PADDING_BYTES: usize = 0x14;
pub const XA_ADPCM_SECTOR_SIZE: usize = 0x914;

// ---------------------------------------------------------------------------
// Filters

/// K0 of filter `f`: the XA filter coefficient scaled by 64.
pub open spec fn filter_k0(f: int) -> i32 {
    if f == 0 {
        0
    } else if f == 1 {
        60
    } else if f == 2 {
        115
    } else {
        98
    }
}

/// K1 of filter `f`: the XA filter coefficient scaled by 64.
pub open spec fn filter_k1(f: int) -> i32 {
    if f == 2 {
        -52i32
    } else if f == 3 {
        -55i32
    } else {
        0
    }
}

fn k0_of(f: usize) -> (r: i32)
    requires
        f < XA_ADPCM_FILTER_COUNT,
    ensures
        r == filter_k0(f as int),
{
    if f == 0 {
        0
    } else if f == 1 {
        60
    } else if f == 2 {
        115
    } else {
        98
    }
}

fn k1_of(f: usize) -> (r: i32)
    requires
        f < XA_ADPCM_FILTER_COUNT,
    ensures
        r == filter_k1(f as int),
{
    if f == 2 {
        -52i32
    } else if f == 3 {
        -55i32
    } else {
        0
    }
}

/// The range that every filter's coefficients lie in.
pub open spec fn coefficients_in_range(k0: i32, k1: i32) -> bool {
    0 <= k0 <= 115 && -55 <= k1 <= 0
}

/// Fixed-point prediction `(K0 * d1 + K1 * d2 + 32) >> 6` from the two
/// previous samples.
pub open spec fn prediction(k0: i32, k1: i32, d1: i16, d2: i16) -> i32 {
    ((k0 * d1 + k1 * d2 + 32) as i32) >> 6u32
}

proof fn lemma_prediction_bounds(k0: i32, k1: i32, d1: i16, d2: i16)
    requires
        coefficients_in_range(k0, k1),
    ensures
        -100000 <= prediction(k0, k1, d1, d2) <= 100000,
        -4000000 <= k0 * d1 <= 4000000,
        -2000000 <= k1 * d2 <= 2000000,
{
    assert(-4000000 <= k0 * d1 <= 4000000 && -2000000 <= k1 * d2 <= 2000000
        && -6000000 <= k0 * d1 + k1 * d2 + 32 <= 6000000) by (nonlinear_arith)
        requires
            0 <= k0 <= 115,
            -55 <= k1 <= 0,
            -32768 <= d1 <= 32767,
            -32768 <= d2 <= 32767,
    ;
    let v = (k0 * d1 + k1 * d2 + 32) as i32;
    assert(v == k0 * d1 + k1 * d2 + 32);
    assert(-6000000 <= v <= 6000000 ==> -100000 <= (v >> 6u32) <= 100000) by (bit_vector);
}

fn predict(k0: i32, k1: i32, d1: i16, d2: i16) -> (r: i32)
    requires
        coefficients_in_range(k0, k1),
    ensures
        r == prediction(k0, k1, d1, d2),
        -100000 <= r <= 100000,
{
    proof {
        lemma_prediction_bounds(k0, k1, d1, d2);
    }
    let v: i32 = k0 * (d1 as i32) + k1 * (d2 as i32) + 32;
    assert(v == (k0 * d1 + k1 * d2 + 32) as i32);
    v >> 6u32
}


pub open spec fn abs(x: int) -> int {
    if x < 0 {
        -x
    } else {
        x
    }
}

// ---------------------------------------------------------------------------
// Encoder state

/// What an encoder carries from one sound unit to the next.
pub struct EncoderModel {
    /// Per filter, the last sample seen by its trial run.
    pub predictor_1: Seq<i16>,
    /// Per filter, the sample before that.
    pub predictor_2: Seq<i16>,
    pub encoder_1: i16,
    pub encoder_2: i16,
    pub shaper_1: i32,
    pub shaper_2: i32,
    pub shaper_out: i32,
    pub quantizer_input: i32,
    pub quantizer_output: i32,
}

/// The state that an encoder carries across sound units, in sample order.
pub struct EncoderState {
    pub predictor_delayed_1: [i16; 4],
    pub predictor_delayed_2: [i16; 4],
    pub encoder_delayed_1: i16,
    pub encoder_delayed_2: i16,
    pub noise_shaper_delayed_1: i32,
    pub noise_shaper_delayed_2: i32,
    pub noise_shaper_output: i32,
    pub quantizer_input: i32,
    pub quantizer_output: i32,
}

impl View for EncoderState {
    type V = EncoderModel;

    open spec fn view(&self) -> EncoderModel {
        EncoderModel {
            predictor_1: self.predictor_delayed_1@,
            predictor_2: self.predictor_delayed_2@,
            encoder_1: self.encoder_delayed_1,
            encoder_2: self.encoder_delayed_2,
            shaper_1: self.noise_shaper_delayed_1,
            shaper_2: self.noise_shaper_delayed_2,
            shaper_out: self.noise_shaper_output,
            quantizer_input: self.quantizer_input,
            quantizer_output: self.quantizer_output,
        }
    }
}

/// The state of an encoder that has seen no sample.
pub open spec fn initial_model() -> EncoderModel {
    EncoderModel {
        predictor_1: seq![0i16, 0i16, 0i16, 0i16],
        predictor_2: seq![0i16, 0i16, 0i16, 0i16],
        encoder_1: 0,
        encoder_2: 0,
        shaper_1: 0,
        shaper_2: 0,
        shaper_out: 0,
        quantizer_input: 0,
        quantizer_output: 0,
    }
}

impl EncoderState {
    pub fn new() -> (r: EncoderState)
        ensures
            r@ == initial_model(),
    {
        let r = EncoderState {
            predictor_delayed_1: [0i16; 4],
            predictor_delayed_2: [0i16; 4],
            encoder_delayed_1: 0,
            encoder_delayed_2: 0,
            noise_shaper_delayed_1: 0,
            noise_shaper_delayed_2: 0,
            noise_shaper_output: 0,
            quantizer_input: 0,
            quantizer_output: 0,
        };
        assert(r@.predictor_1 =~= initial_model().predictor_1);
        assert(r@.predictor_2 =~= initial_model().predictor_2);
        r
    }
}

// ---------------------------------------------------------------------------
// Pass 1: trial runs of every filter, to find each one's peak residual

/// Runs filter (k0, k1) over `s` from the delay line (d1, d2): the residual
/// of largest magnitude (the first such, or 0), and the final delay line.
pub open spec fn trial(k0: i32, k1: i32, d1: i16, d2: i16, s: Seq<i16>) -> (i32, i16, i16)
    decreases s.len(),
{
    if s.len() == 0 {
        (0, d1, d2)
    } else {
        let prev = trial(k0, k1, d1, d2, s.drop_last());
        let residual = s.last() - prediction(k0, k1, prev.1, prev.2);
        let peak = if abs(residual) > abs(prev.0 as int) {
            residual as i32
        } else {
            prev.0
        };
        (peak, s.last(), prev.1)
    }
}

pub open spec fn filter_trial(m: EncoderModel, s: Seq<i16>, f: int) -> (i32, i16, i16) {
    trial(filter_k0(f), filter_k1(f), m.predictor_1[f], m.predictor_2[f], s)
}

/// Peak residual of each filter over the sound unit `s`.
pub open spec fn unit_peaks(m: EncoderModel, s: Seq<i16>) -> Seq<i32> {
    Seq::new(4, |f: int| filter_trial(m, s, f).0)
}

/// The state once every filter's trial delay line has run over `s`.
pub open spec fn after_trials(m: EncoderModel, s: Seq<i16>) -> EncoderModel {
    EncoderModel {
        predictor_1: Seq::new(4, |f: int| filter_trial(m, s, f).1),
        predictor_2: Seq::new(4, |f: int| filter_trial(m, s, f).2),
        ..m
    }
}

/// Among the first `n` peaks, the filter whose peak has the smallest
/// magnitude (the first one on ties), with that peak. The scan starts from
/// a sentinel of `i16::MIN`.
pub open spec fn select(peaks: Seq<i32>, n: int) -> (int, i32)
    decreases n,
{
    if n <= 0 {
        (0, -32768i32)
    } else {
        let prev = select(peaks, n - 1);
        if abs(peaks[n - 1] as int) < abs(prev.1 as int) {
            (n - 1, peaks[n - 1])
        } else {
            prev
        }
    }
}

/// Whether `peak >> shift` still lies outside the 4-bit range on its side.
pub open spec fn exceeds(peak: i32, shift: u32) -> bool {
    if peak > 0 {
        (peak >> shift) > MAX_NIBBLE
    } else {
        (peak >> shift) < MIN_NIBBLE
    }
}

/// The least shift from `shift` on, at most `MAX_SHIFT`, that brings the
/// peak into the 4-bit range.
pub open spec fn shift_from(peak: i32, shift: u32) -> u32
    decreases MAX_SHIFT - shift,
{
    if shift < MAX_SHIFT && exceeds(peak, shift) {
        shift_from(peak, (shift + 1) as u32)
    } else {
        shift
    }
}

// ---------------------------------------------------------------------------
// Pass 2: quantizing encode with the selected filter

/// Rounds a gain-controlled sample to 4 bits, saturating.
pub open spec fn quantize(x: i32) -> i32 {
    let q = x.wrapping_add(2048) >> MAX_SHIFT;
    if q < MIN_NIBBLE {
        MIN_NIBBLE
    } else if q > MAX_NIBBLE {
        MAX_NIBBLE
    } else {
        q
    }
}

/// Encodes one sample `x` with filter (k0, k1) and `range`: the next state
/// and the 4-bit sample emitted. Arithmetic wraps at 32 bits.
pub open spec fn encode_step(m: EncoderModel, k0: i32, k1: i32, range: u32, x: i16) -> (EncoderModel, i32) {
    let filtered = (x - prediction(k0, k1, m.encoder_1, m.encoder_2)) as i32;
    let qin = filtered.wrapping_sub(m.shaper_out).wrapping_shl(range);
    let qout = quantize(qin);
    let shaped = qout.wrapping_shl(MAX_SHIFT).wrapping_sub(qin) >> range;
    let out = k0.wrapping_mul(shaped).wrapping_add(k1.wrapping_mul(shaped)).wrapping_add(32) >> 6u32;
    (
        EncoderModel {
            encoder_1: x,
            encoder_2: m.encoder_1,
            shaper_1: shaped,
            shaper_2: m.shaper_1,
            shaper_out: out,
            quantizer_input: qin,
            quantizer_output: qout,
            ..m
        },
        qout,
    )
}

/// Encodes the samples `s` in order: the final state and the 4-bit samples.
pub open spec fn encode_run(m: EncoderModel, k0: i32, k1: i32, range: u32, s: Seq<i16>) -> (EncoderModel, Seq<i32>)
    decreases s.len(),
{
    if s.len() == 0 {
        (m, seq![])
    } else {
        let prev = encode_run(m, k0, k1, range, s.drop_last());
        let step = encode_step(prev.0, k0, k1, range, s.last());
        (step.0, prev.1.push(step.1))
    }
}

/// The filter that encodes sound unit `s`.
pub open spec fn unit_filter(m: EncoderModel, s: Seq<i16>) -> int {
    select(unit_peaks(m, s), 4).0
}

/// The range (`MAX_SHIFT` minus the shift) that encodes sound unit `s`.
pub open spec fn unit_range(m: EncoderModel, s: Seq<i16>) -> u32 {
    (MAX_SHIFT - shift_from(select(unit_peaks(m, s), 4).1, 0)) as u32
}

/// The sound parameter byte: filter in the high nibble, range in the low.
pub open spec fn parameter_byte(filter: int, range: u32) -> u8 {
    (filter * 16 + range) as u8
}

/// Encodes one sound unit: the next state, the sound parameter byte and the
/// 4-bit samples.
#[verifier::opaque]
pub open spec fn encode_unit(m: EncoderModel, s: Seq<i16>) -> (EncoderModel, u8, Seq<i32>) {
    let f = unit_filter(m, s);
    let range = unit_range(m, s);
    let run = encode_run(after_trials(m, s), filter_k0(f), filter_k1(f), range, s);
    (run.0, parameter_byte(f, range), run.1)
}


proof fn lemma_encode_run(m: EncoderModel, k0: i32, k1: i32, range: u32, s: Seq<i16>)
    ensures
        encode_run(m, k0, k1, range, s).1.len() == s.len(),
        encode_run(m, k0, k1, range, s).0.predictor_1 == m.predictor_1,
        encode_run(m, k0, k1, range, s).0.predictor_2 == m.predictor_2,
        forall|i: int|
            0 <= i < s.len() ==> MIN_NIBBLE <= #[trigger] encode_run(m, k0, k1, range, s).1[i]
                <= MAX_NIBBLE,
    decreases s.len(),
{
    if s.len() > 0 {
        lemma_encode_run(m, k0, k1, range, s.drop_last());
    }
}

proof fn lemma_select(peaks: Seq<i32>, n: int)
    requires
        0 <= n <= 4,
    ensures
        0 <= select(peaks, n).0 < 4,
        n == 0 ==> select(peaks, n).0 == 0,
        select(peaks, n).0 < n || select(peaks, n).0 == 0,
    decreases n,
{
    if n > 0 {
        lemma_select(peaks, n - 1);
    }
}

proof fn lemma_shift_from(peak: i32, shift: u32)
    requires
        shift <= MAX_SHIFT,
    ensures
        shift <= shift_from(peak, shift) <= MAX_SHIFT,
    decreases MAX_SHIFT - shift,
{
    if shift < MAX_SHIFT && exceeds(peak, shift) {
        lemma_shift_from(peak, (shift + 1) as u32);
    }
}

fn trial_run(k0: i32, k1: i32, d1: i16, d2: i16, samples: &[i16]) -> (r: (i32, i16, i16))
    requires
        coefficients_in_range(k0, k1),
    ensures
        r == trial(k0, k1, d1, d2, samples@),
        -200000 <= r.0 <= 200000,
{
    let mut peak: i32 = 0;
    let mut delayed_1 = d1;
    let mut delayed_2 = d2;
    let mut n: usize = 0;
    while n < samples.len()
        invariant
            n <= samples@.len(),
            coefficients_in_range(k0, k1),
            (peak, delayed_1, delayed_2) == trial(k0, k1, d1, d2, samples@.take(n as int)),
            -200000 <= peak <= 200000,
        decreases samples@.len() - n,
    {
        let dry_sample = samples[n];
        // Fixed-point prediction from the two previous samples, rounded.
        let feedback = predict(k0, k1, delayed_1, delayed_2);
        let sample: i32 = dry_sample as i32 - feedback;
        let sample_abs: i32 = if sample < 0 { -sample } else { sample };
        let peak_abs: i32 = if peak < 0 { -peak } else { peak };
        if sample_abs > peak_abs {
            peak = sample;
        }
        delayed_2 = delayed_1;
        delayed_1 = dry_sample;
        proof {
            assert(samples@.take(n + 1).drop_last() =~= samples@.take(n as int));
        }
        n += 1;
    }
    assert(samples@.take(n as int) =~= samples@);
    (peak, delayed_1, delayed_2)
}

fn select_filter(peaks: &[i32; 4]) -> (r: (usize, i32))
    requires
        forall|i: int| 0 <= i < 4 ==> -200000 <= #[trigger] peaks@[i] <= 200000,
    ensures
        r.0 as int == select(peaks@, 4).0,
        r.1 == select(peaks@, 4).1,
        r.0 < XA_ADPCM_FILTER_COUNT,
{
    let mut filter: usize = 0;
    let mut lowest_peak: i32 = -32768;
    let mut n: usize = 0;
    while n < XA_ADPCM_FILTER_COUNT
        invariant
            n <= XA_ADPCM_FILTER_COUNT,
            forall|i: int| 0 <= i < 4 ==> -200000 <= #[trigger] peaks@[i] <= 200000,
            (filter as int, lowest_peak) == select(peaks@, n as int),
            filter < XA_ADPCM_FILTER_COUNT,
            -200000 <= lowest_peak <= 200000,
        decreases XA_ADPCM_FILTER_COUNT - n,
    {
        let peak = peaks[n];
        let peak_abs: i32 = if peak < 0 { -peak } else { peak };
        let lowest_abs: i32 = if lowest_peak < 0 { -lowest_peak } else { lowest_peak };
        if peak_abs < lowest_abs {
            filter = n;
            lowest_peak = peak;
        }
        n += 1;
    }
    (filter, lowest_peak)
}

fn shift_for(peak: i32) -> (r: u32)
    ensures
        r == shift_from(peak, 0),
        r <= MAX_SHIFT,
{
    let mut shift: u32 = 0;
    if peak > 0 {
        while shift < MAX_SHIFT && (peak >> shift) > MAX_NIBBLE
            invariant
                peak > 0,
                shift <= MAX_SHIFT,
                shift_from(peak, shift) == shift_from(peak, 0),
            decreases MAX_SHIFT - shift,
        {
            shift += 1;
        }
    } else {
        while shift < MAX_SHIFT && (peak >> shift) < MIN_NIBBLE
            invariant
                peak <= 0,
                shift <= MAX_SHIFT,
                shift_from(peak, shift) == shift_from(peak, 0),
            decreases MAX_SHIFT - shift,
        {
            shift += 1;
        }
    }
    shift
}


/// The sound parameter byte and 4-bit samples of one sound unit hold what
/// they should: a filter in `0..=3`, a range in `0..=12`, samples in
/// `-8..=7`, one per input sample.
pub proof fn lemma_unit_ranges(m: EncoderModel, s: Seq<i16>)
    ensures
        0 <= unit_filter(m, s) <= 3,
        unit_range(m, s) <= MAX_SHIFT,
        encode_unit(m, s).1 / 16 == unit_filter(m, s),
        encode_unit(m, s).1 % 16 == unit_range(m, s),
        encode_unit(m, s).2.len() == s.len(),
        forall|i: int|
            0 <= i < s.len() ==> MIN_NIBBLE <= #[trigger] encode_unit(m, s).2[i] <= MAX_NIBBLE,
{
    reveal(encode_unit);
    lemma_select(unit_peaks(m, s), 4);
    lemma_shift_from(select(unit_peaks(m, s), 4).1, 0);
    let f = unit_filter(m, s);
    lemma_encode_run(after_trials(m, s), filter_k0(f), filter_k1(f), unit_range(m, s), s);
}

/// Encodes the 28 samples of one sound unit into `output`, one 4-bit sample
/// (as a signed byte) per input sample, and returns the sound parameter byte.
pub fn encode_sound_unit(encoder_state: &mut EncoderState, samples: &[i16], output: &mut Vec<i8>) -> (param: u8)
    requires
        samples@.len() == SOUND_UNIT_SAMPLES,
        old(output)@.len() == SOUND_UNIT_SAMPLES,
    ensures
        final(encoder_state)@ == encode_unit(old(encoder_state)@, samples@).0,
        param == encode_unit(old(encoder_state)@, samples@).1,
        final(output)@.len() == SOUND_UNIT_SAMPLES,
        forall|i: int|
            0 <= i < SOUND_UNIT_SAMPLES ==> #[trigger] final(output)@[i] as int == encode_unit(
                old(encoder_state)@,
                samples@,
            ).2[i],
        param / 16 <= 3,
        param % 16 <= MAX_SHIFT,
        forall|i: int|
            0 <= i < SOUND_UNIT_SAMPLES ==> MIN_NIBBLE <= #[trigger] final(output)@[i] <= MAX_NIBBLE,
{
    let ghost m0 = encoder_state@;
    let ghost s = samples@;
    assert(m0.predictor_1.len() == 4);
    proof {
        reveal(encode_unit);
    }

    // Predictors: each filter's trial run finds its peak residual.
    let mut peaks: [i32; 4] = [0i32; 4];
    let mut filter: usize = 0;
    while filter < XA_ADPCM_FILTER_COUNT
        invariant
            filter <= XA_ADPCM_FILTER_COUNT,
            s == samples@,
            m0.predictor_1.len() == 4,
            m0.predictor_2.len() == 4,
            encoder_state.predictor_delayed_1@.len() == 4,
            encoder_state.predictor_delayed_2@.len() == 4,
            forall|f: int|
                0 <= f < filter ==> peaks@[f] == #[trigger] filter_trial(m0, s, f).0
                    && encoder_state.predictor_delayed_1@[f] == filter_trial(m0, s, f).1
                    && encoder_state.predictor_delayed_2@[f] == filter_trial(m0, s, f).2,
            forall|f: int|
                filter <= f < 4 ==> encoder_state.predictor_delayed_1@[f] == m0.predictor_1[f]
                    && encoder_state.predictor_delayed_2@[f] == m0.predictor_2[f],
            forall|f: int| 0 <= f < filter ==> -200000 <= #[trigger] peaks@[f] <= 200000,
            encoder_state@ == (EncoderModel {
                predictor_1: encoder_state@.predictor_1,
                predictor_2: encoder_state@.predictor_2,
                ..m0
            }),
        decreases XA_ADPCM_FILTER_COUNT - filter,
    {
        let k0 = k0_of(filter);
        let k1 = k1_of(filter);
        let r = trial_run(
            k0,
            k1,
            encoder_state.predictor_delayed_1[filter],
            encoder_state.predictor_delayed_2[filter],
            samples,
        );
        assert(r == filter_trial(m0, s, filter as int));
        encoder_state.predictor_delayed_1[filter] = r.1;
        encoder_state.predictor_delayed_2[filter] = r.2;
        peaks[filter] = r.0;
        filter += 1;
    }
    assert(peaks@ =~= unit_peaks(m0, s));
    assert forall|f: int| 0 <= f < 4 implies encoder_state@.predictor_1[f] == after_trials(
        m0,
        s,
    ).predictor_1[f] && encoder_state@.predictor_2[f] == after_trials(m0, s).predictor_2[f] by {
        assert(filter == 4);
        assert(0 <= f < filter);
        assert(peaks@[f] == filter_trial(m0, s, f).0);
        assert(filter_trial(m0, s, f).1 == encoder_state.predictor_delayed_1@[f]);
    }
    assert(encoder_state@.predictor_1 =~= after_trials(m0, s).predictor_1);
    assert(encoder_state@.predictor_2 =~= after_trials(m0, s).predictor_2);
    let ghost m1 = encoder_state@;
    assert(m1 == after_trials(m0, s));

    // Filter and range selection: the filter with the smallest peak, and the
    // range that fits its peak in 4 bits.
    let (filter, lowest_peak) = select_filter(&peaks);
    let shift = shift_for(lowest_peak);
    let range: u32 = MAX_SHIFT - shift;
    proof {
        lemma_unit_ranges(m0, s);
    }

    // Encoding
    let k0 = k0_of(filter);
    let k1 = k1_of(filter);
    let mut n: usize = 0;
    while n < SOUND_UNIT_SAMPLES
        invariant
            n <= SOUND_UNIT_SAMPLES,
            s == samples@,
            s.len() == SOUND_UNIT_SAMPLES,
            coefficients_in_range(k0, k1),
            range <= MAX_SHIFT,
            output@.len() == SOUND_UNIT_SAMPLES,
            encoder_state@ == encode_run(m1, k0, k1, range, s.take(n as int)).0,
            forall|i: int|
                0 <= i < n ==> #[trigger] output@[i] as int == encode_run(
                    m1,
                    k0,
                    k1,
                    range,
                    s.take(n as int),
                ).1[i],
        decreases SOUND_UNIT_SAMPLES - n,
    {
        proof {
            assert(s.take(n + 1).drop_last() =~= s.take(n as int));
            lemma_encode_run(m1, k0, k1, range, s.take(n as int));
        }
        let dry_sample = samples[n];
        let feedback = predict(k0, k1, encoder_state.encoder_delayed_1, encoder_state.encoder_delayed_2);
        encoder_state.encoder_delayed_2 = encoder_state.encoder_delayed_1;
        encoder_state.encoder_delayed_1 = dry_sample;
        let filtered_sample: i32 = dry_sample as i32 - feedback;

        // Gain control
        let gain_control_input = filtered_sample.wrapping_sub(encoder_state.noise_shaper_output);
        encoder_state.quantizer_input = gain_control_input.wrapping_shl(range);

        // Quantizer: round to 4 bits, saturating.
        let rounded = encoder_state.quantizer_input.wrapping_add(2048) >> MAX_SHIFT;
        encoder_state.quantizer_output = if rounded < MIN_NIBBLE {
            MIN_NIBBLE
        } else if rounded > MAX_NIBBLE {
            MAX_NIBBLE
        } else {
            rounded
        };

        // Noise shaper: the requantization error feeds the next sample. Both
        // terms of its filter read the latest error.
        let noise_shaper_input = encoder_state.quantizer_output.wrapping_shl(MAX_SHIFT).wrapping_sub(
            encoder_state.quantizer_input,
        ) >> range;
        encoder_state.noise_shaper_delayed_2 = encoder_state.noise_shaper_delayed_1;
        encoder_state.noise_shaper_delayed_1 = noise_shaper_input;
        encoder_state.noise_shaper_output = k0.wrapping_mul(noise_shaper_input).wrapping_add(
            k1.wrapping_mul(noise_shaper_input),
        ).wrapping_add(32) >> 6u32;

        output.set(n, encoder_state.quantizer_output as i8);
        n += 1;
    }
    assert(s.take(n as int) =~= s);

    // Sound parameter: filter in the high nibble, range in the low one.
    (filter as u8) * 16 + (range as u8)
}


// ---------------------------------------------------------------------------
// Sample source, sound groups, sectors

/// Sample `i` of `s`, silence past its end.
pub open spec fn sample_at(s: Seq<i16>, i: int) -> i16 {
    if 0 <= i < s.len() {
        s[i]
    } else {
        0
    }
}

/// `n` samples of `s` from `start` on, silence past its end.
pub open spec fn window(s: Seq<i16>, start: int, n: int) -> Seq<i16> {
    Seq::new(n as nat, |i: int| sample_at(s, start + i))
}

/// Encodes the whole sound units of `s`, one after another with the state
/// carried across: the final state, the parameter bytes, the 4-bit samples.
pub open spec fn encode_units(m: EncoderModel, s: Seq<i16>) -> (EncoderModel, Seq<u8>, Seq<Seq<i32>>)
    decreases s.len(),
{
    if s.len() < SOUND_UNIT_SAMPLES {
        (m, seq![], seq![])
    } else {
        let prev = encode_units(m, s.take(s.len() - SOUND_UNIT_SAMPLES));
        let unit = encode_unit(prev.0, s.skip(s.len() - SOUND_UNIT_SAMPLES));
        (unit.0, prev.1.push(unit.1), prev.2.push(unit.2))
    }
}

/// Which unit's parameter byte stands at slot `i` of a group's 16-byte header.
pub open spec fn parameter_slot(i: int) -> int {
    if i < 4 {
        i
    } else if i < 12 {
        i - 4
    } else {
        i - 8
    }
}

pub open spec fn group_header(params: Seq<u8>) -> Seq<u8> {
    Seq::new(16, |i: int| params[parameter_slot(i)])
}

/// Two 4-bit samples in one byte: `lo` in the low nibble, `hi` in the high.
pub open spec fn combined_byte(lo: int, hi: int) -> u8 {
    (lo % 16 + 16 * (hi % 16)) as u8
}

/// The first `k` rows of a group's data: row `j` packs sample `j` of units
/// (0, 1), (2, 3), (4, 5), (6, 7).
pub open spec fn group_rows(units: Seq<Seq<i32>>, k: int) -> Seq<u8>
    decreases k,
{
    if k <= 0 {
        seq![]
    } else {
        let j = k - 1;
        group_rows(units, k - 1) + seq![
            combined_byte(units[0][j] as int, units[1][j] as int),
            combined_byte(units[2][j] as int, units[3][j] as int),
            combined_byte(units[4][j] as int, units[5][j] as int),
            combined_byte(units[6][j] as int, units[7][j] as int),
        ]
    }
}

pub open spec fn group_bytes(params: Seq<u8>, units: Seq<Seq<i32>>) -> Seq<u8> {
    group_header(params) + group_rows(units, SOUND_UNIT_SAMPLES as int)
}

/// Encodes one sound group of 224 samples: the next state and its 128 bytes.
pub open spec fn encode_group(m: EncoderModel, s: Seq<i16>) -> (EncoderModel, Seq<u8>) {
    let units = encode_units(m, s);
    (units.0, group_bytes(units.1, units.2))
}

/// Encodes the first `g` sound groups of `s`.
pub open spec fn encode_groups(m: EncoderModel, s: Seq<i16>, g: int) -> (EncoderModel, Seq<u8>)
    decreases g,
{
    if g <= 0 {
        (m, seq![])
    } else {
        let prev = encode_groups(m, s, g - 1);
        let group = encode_group(
            prev.0,
            s.subrange(SOUND_GROUP_SAMPLES * (g - 1), SOUND_GROUP_SAMPLES * g),
        );
        (group.0, prev.1 + group.1)
    }
}

/// Encodes one sector of 4032 samples: 18 sound groups, then 20 zero bytes.
pub open spec fn encode_sector_bytes(m: EncoderModel, s: Seq<i16>) -> (EncoderModel, Seq<u8>) {
    let block = encode_groups(m, s, SOUND_GROUPS_PER_SECTOR as int);
    (block.0, block.1 + Seq::new(SECTOR_PADDING_BYTES as nat, |i: int| 0u8))
}

/// Encodes the first `n` sectors of `s`.
pub open spec fn encode_sectors(m: EncoderModel, s: Seq<i16>, n: int) -> (EncoderModel, Seq<u8>)
    decreases n,
{
    if n <= 0 {
        (m, seq![])
    } else {
        let prev = encode_sectors(m, s, n - 1);
        let sector = encode_sector_bytes(
            prev.0,
            s.subrange(ADPCM_SECTOR_SAMPLES * (n - 1), ADPCM_SECTOR_SAMPLES * n),
        );
        (sector.0, prev.1 + sector.1)
    }
}

/// Number of sectors that hold `count` samples: `ceil(count / 4032)`.
pub open spec fn sectors_for(count: int) -> int {
    (count + ADPCM_SECTOR_SAMPLES - 1) / (ADPCM_SECTOR_SAMPLES as int)
}

/// The encoded stream of `count` samples of `s` from a fresh encoder, the
/// last sector filled up with silence.
pub open spec fn encoded_stream(s: Seq<i16>, count: int) -> Seq<u8> {
    let n = sectors_for(count);
    encode_sectors(initial_model(), window(s, 0, ADPCM_SECTOR_SAMPLES * n), n).1
}

/// Copies the `samples.len()` samples of `input` from `pos` on into
/// `samples`, with silence past the end of `input`.
fn fill_sample_buffer(samples: &mut Vec<i16>, input: &[i16], pos: usize)
    requires
        pos + old(samples)@.len() <= usize::MAX,
    ensures
        final(samples)@ == window(input@, pos as int, old(samples)@.len() as int),
{
    let ghost len = samples@.len();
    let mut n: usize = 0;
    while n < samples.len()
        invariant
            samples@.len() == len,
            pos + len <= usize::MAX,
            n <= len,
            forall|i: int| 0 <= i < n ==> samples@[i] == sample_at(input@, pos + i),
        decreases len - n,
    {
        let sample = if pos + n < input.len() {
            input[pos + n]
        } else {
            0
        };
        samples.set(n, sample);
        n += 1;
    }
    assert(samples@ =~= window(input@, pos as int, len as int));
}

/// Appends one byte that packs the low four bits of `b1` (low nibble) and
/// of `b2` (high nibble).
fn write_combined_bytes(b1: i8, b2: i8, output: &mut Vec<u8>)
    ensures
        final(output)@ == old(output)@.push(combined_byte(b1 as int, b2 as int)),
{
    let lo: u8 = ((b1 as i16 + 128) as u8) % 16;
    let hi: u8 = ((b2 as i16 + 128) as u8) % 16;
    output.push(lo + hi * 16);
}


proof fn lemma_encode_units_step(m: EncoderModel, w: Seq<i16>, u: int)
    requires
        0 <= u,
        28 * (u + 1) <= w.len(),
    ensures
        encode_units(m, w.take(28 * (u + 1))) == ({
            let prev = encode_units(m, w.take(28 * u));
            let unit = encode_unit(prev.0, w.subrange(28 * u, 28 * u + 28));
            (unit.0, prev.1.push(unit.1), prev.2.push(unit.2))
        }),
{
    let t = w.take(28 * (u + 1));
    assert(t.take(t.len() - 28) =~= w.take(28 * u));
    assert(t.skip(t.len() - 28) =~= w.subrange(28 * u, 28 * u + 28));
}

/// Encodes the sound group of the 224 samples of `input` from `start` on
/// (silence past its end), appending its 128 bytes to `output`.
pub fn encode_sound_group(encoder_state: &mut EncoderState, input: &[i16], start: usize, output: &mut Vec<u8>)
    requires
        start + SOUND_GROUP_SAMPLES <= usize::MAX,
    ensures
        final(encoder_state)@ == encode_group(
            old(encoder_state)@,
            window(input@, start as int, SOUND_GROUP_SAMPLES as int),
        ).0,
        final(output)@ == old(output)@ + encode_group(
            old(encoder_state)@,
            window(input@, start as int, SOUND_GROUP_SAMPLES as int),
        ).1,
{
    let ghost m0 = encoder_state@;
    let ghost w = window(input@, start as int, SOUND_GROUP_SAMPLES as int);
    let mut pcm_samples: Vec<i16> = vec![0i16; 28];
    let mut params: Vec<u8> = Vec::new();
    let mut units: Vec<Vec<i8>> = Vec::new();
    let mut u: usize = 0;
    while u < SOUND_UNITS_PER_GROUP
        invariant
            u <= SOUND_UNITS_PER_GROUP,
            start + SOUND_GROUP_SAMPLES <= usize::MAX,
            w == window(input@, start as int, SOUND_GROUP_SAMPLES as int),
            pcm_samples@.len() == SOUND_UNIT_SAMPLES,
            encoder_state@ == encode_units(m0, w.take(28 * u)).0,
            params@ == encode_units(m0, w.take(28 * u)).1,
            units@.len() == u,
            params@.len() == u,
            encode_units(m0, w.take(28 * u)).2.len() == u,
            forall|j: int|
                0 <= j < u ==> (#[trigger] units@[j])@.len() == SOUND_UNIT_SAMPLES
                    && encode_units(m0, w.take(28 * u)).2[j].len() == SOUND_UNIT_SAMPLES,
            forall|j: int, k: int|
                0 <= j < u && 0 <= k < SOUND_UNIT_SAMPLES ==> #[trigger] units@[j]@[k] as int
                    == encode_units(m0, w.take(28 * u)).2[j][k],
        decreases SOUND_UNITS_PER_GROUP - u,
    {
        let ghost prev = encode_units(m0, w.take(28 * u));
        let ghost old_units = units@;
        fill_sample_buffer(&mut pcm_samples, input, start + 28 * u);
        let mut unit: Vec<i8> = vec![0i8; 28];
        let ghost before = encoder_state@;
        let param = encode_sound_unit(encoder_state, pcm_samples.as_slice(), &mut unit);
        proof {
            assert(pcm_samples@ =~= w.subrange(28 * u, 28 * u + 28));
            lemma_encode_units_step(m0, w, u as int);
            lemma_unit_ranges(before, pcm_samples@);
        }
        params.push(param);
        units.push(unit);
        proof {
            let next = encode_units(m0, w.take(28 * (u + 1)));
            assert(next.2[u as int] == encode_unit(before, pcm_samples@).2);
            assert(next.2[u as int].len() == SOUND_UNIT_SAMPLES);
            assert(units@[u as int]@.len() == SOUND_UNIT_SAMPLES);
            assert forall|j: int| 0 <= j < u + 1 implies (#[trigger] units@[j])@.len()
                == SOUND_UNIT_SAMPLES && next.2[j].len() == SOUND_UNIT_SAMPLES by {
                if j < u {
                    assert(next.2[j] == prev.2[j]);
                    assert(units@[j] == old_units[j]);
                }
            }
            assert forall|j: int, k: int|
                0 <= j < u + 1 && 0 <= k < SOUND_UNIT_SAMPLES implies #[trigger] units@[j]@[k] as int
                == next.2[j][k] by {
                if j < u {
                    assert(next.2[j] == prev.2[j]);
                    assert(units@[j] == old_units[j]);
                }
            }
        }
        u += 1;
    }
    assert(w.take(224) =~= w);
    let ghost enc = encode_units(m0, w);

    // Sound parameters: each unit's byte twice, four units at a time.
    let mut i: usize = 0;
    let ghost out0 = output@;
    while i < 16
        invariant
            i <= 16,
            params@ == enc.1,
            params@.len() == 8,
            output@ == out0 + group_header(enc.1).take(i as int),
        decreases 16 - i,
    {
        let slot: usize = if i < 4 {
            i
        } else if i < 12 {
            i - 4
        } else {
            i - 8
        };
        output.push(params[slot]);
        proof {
            assert(group_header(enc.1).take(i + 1) =~= group_header(enc.1).take(i as int).push(
                params@[slot as int],
            ));
        }
        i += 1;
    }
    assert(group_header(enc.1).take(16) =~= group_header(enc.1));

    // Sample data: row k packs sample k of each pair of units.
    let ghost out1 = output@;
    let mut k: usize = 0;
    while k < SOUND_UNIT_SAMPLES
        invariant
            k <= SOUND_UNIT_SAMPLES,
            units@.len() == 8,
            enc.2.len() == 8,
            forall|j: int| 0 <= j < 8 ==> (#[trigger] units@[j])@.len() == SOUND_UNIT_SAMPLES,
            forall|j: int, k: int|
                0 <= j < 8 && 0 <= k < SOUND_UNIT_SAMPLES ==> #[trigger] units@[j]@[k] as int
                    == enc.2[j][k],
            output@ == out1 + group_rows(enc.2, k as int),
        decreases SOUND_UNIT_SAMPLES - k,
    {
        write_combined_bytes(units[0][k], units[1][k], output);
        write_combined_bytes(units[2][k], units[3][k], output);
        write_combined_bytes(units[4][k], units[5][k], output);
        write_combined_bytes(units[6][k], units[7][k], output);
        proof {
            assert(units@[0]@[k as int] as int == enc.2[0][k as int]);
            assert(units@[1]@[k as int] as int == enc.2[1][k as int]);
            assert(units@[2]@[k as int] as int == enc.2[2][k as int]);
            assert(units@[3]@[k as int] as int == enc.2[3][k as int]);
            assert(units@[4]@[k as int] as int == enc.2[4][k as int]);
            assert(units@[5]@[k as int] as int == enc.2[5][k as int]);
            assert(units@[6]@[k as int] as int == enc.2[6][k as int]);
            assert(units@[7]@[k as int] as int == enc.2[7][k as int]);
            assert(output@ =~= out1 + group_rows(enc.2, k + 1));
        }
        k += 1;
    }
    assert(output@ =~= out0 + group_bytes(enc.1, enc.2));
}


/// Encodes the 18 sound groups of the 4032 samples of `input` from `start`
/// on (silence past its end), appending their bytes to `output`.
fn encode_sound_block(encoder_state: &mut EncoderState, input: &[i16], start: usize, output: &mut Vec<u8>)
    requires
        start + ADPCM_SECTOR_SAMPLES <= usize::MAX,
    ensures
        final(encoder_state)@ == encode_groups(
            old(encoder_state)@,
            window(input@, start as int, ADPCM_SECTOR_SAMPLES as int),
            SOUND_GROUPS_PER_SECTOR as int,
        ).0,
        final(output)@ == old(output)@ + encode_groups(
            old(encoder_state)@,
            window(input@, start as int, ADPCM_SECTOR_SAMPLES as int),
            SOUND_GROUPS_PER_SECTOR as int,
        ).1,
{
    let ghost m0 = encoder_state@;
    let ghost out0 = output@;
    let ghost w = window(input@, start as int, ADPCM_SECTOR_SAMPLES as int);
    let mut g: usize = 0;
    while g < SOUND_GROUPS_PER_SECTOR
        invariant
            g <= SOUND_GROUPS_PER_SECTOR,
            start + ADPCM_SECTOR_SAMPLES <= usize::MAX,
            w == window(input@, start as int, ADPCM_SECTOR_SAMPLES as int),
            encoder_state@ == encode_groups(m0, w, g as int).0,
            output@ == out0 + encode_groups(m0, w, g as int).1,
        decreases SOUND_GROUPS_PER_SECTOR - g,
    {
        proof {
            assert(w.subrange(SOUND_GROUP_SAMPLES * g, SOUND_GROUP_SAMPLES * (g + 1)) =~= window(
                input@,
                start + SOUND_GROUP_SAMPLES * g,
                SOUND_GROUP_SAMPLES as int,
            ));
        }
        encode_sound_group(encoder_state, input, start + SOUND_GROUP_SAMPLES * g, output);
        proof {
            assert(output@ =~= out0 + encode_groups(m0, w, g + 1).1);
        }
        g += 1;
    }
}

/// Encodes one sector from the 4032 samples of `input` from `start` on
/// (silence past its end), appending its 2324 bytes to `output`.
pub fn encode_sector(encoder_state: &mut EncoderState, input: &[i16], start: usize, output: &mut Vec<u8>)
    requires
        start + ADPCM_SECTOR_SAMPLES <= usize::MAX,
    ensures
        final(encoder_state)@ == encode_sector_bytes(
            old(encoder_state)@,
            window(input@, start as int, ADPCM_SECTOR_SAMPLES as int),
        ).0,
        final(output)@ == old(output)@ + encode_sector_bytes(
            old(encoder_state)@,
            window(input@, start as int, ADPCM_SECTOR_SAMPLES as int),
        ).1,
{
    let ghost out0 = output@;
    encode_sound_block(encoder_state, input, start, output);
    let ghost out1 = output@;
    let mut i: usize = 0;
    while i < SECTOR_PADDING_BYTES
        invariant
            i <= SECTOR_PADDING_BYTES,
            output@ == out1 + Seq::new(i as nat, |j: int| 0u8),
        decreases SECTOR_PADDING_BYTES - i,
    {
        output.push(0u8);
        proof {
            assert(output@ =~= out1 + Seq::new((i + 1) as nat, |j: int| 0u8));
        }
        i += 1;
    }
    assert(output@ =~= out0 + encode_sector_bytes(
        old(encoder_state)@,
        window(input@, start as int, ADPCM_SECTOR_SAMPLES as int),
    ).1);
}

/// Number of sectors that hold `samples_count` samples, the last one
/// filled up with silence: `ceil(samples_count / 4032)`.
pub fn sector_count(samples_count: usize) -> (r: usize)
    ensures
        r == sectors_for(samples_count as int),
{
    let mut num_sectors = samples_count / ADPCM_SECTOR_SAMPLES;
    if samples_count % ADPCM_SECTOR_SAMPLES != 0 {
        num_sectors += 1;
    }
    num_sectors
}

/// Encodes `samples_count` samples of `input` (silence past its end) from a
/// fresh encoder state into whole sectors, the last one filled up with
/// silence.
pub fn encode_xa_adpcm(samples_count: usize, input: &[i16]) -> (r: Vec<u8>)
    requires
        samples_count + ADPCM_SECTOR_SAMPLES <= usize::MAX,
    ensures
        r@ == encoded_stream(input@, samples_count as int),
        r@.len() == sectors_for(samples_count as int) * XA_ADPCM_SECTOR_SIZE,
{
    let mut encoder_state = EncoderState::new();
    let num_sectors = sector_count(samples_count);
    let ghost w = window(input@, 0, ADPCM_SECTOR_SAMPLES * num_sectors);
    let mut output: Vec<u8> = Vec::new();
    let mut n: usize = 0;
    while n < num_sectors
        invariant
            n <= num_sectors,
            num_sectors == sectors_for(samples_count as int),
            samples_count + ADPCM_SECTOR_SAMPLES <= usize::MAX,
            w == window(input@, 0, ADPCM_SECTOR_SAMPLES * num_sectors),
            encoder_state@ == encode_sectors(initial_model(), w, n as int).0,
            output@ == encode_sectors(initial_model(), w, n as int).1,
        decreases num_sectors - n,
    {
        proof {
            assert(ADPCM_SECTOR_SAMPLES * n + ADPCM_SECTOR_SAMPLES <= samples_count
                + ADPCM_SECTOR_SAMPLES) by (nonlinear_arith)
                requires
                    n < num_sectors,
                    num_sectors == (samples_count + 4031) / 4032,
            ;
            assert(w.subrange(ADPCM_SECTOR_SAMPLES * n, ADPCM_SECTOR_SAMPLES * (n + 1)) =~= window(
                input@,
                ADPCM_SECTOR_SAMPLES * n,
                ADPCM_SECTOR_SAMPLES as int,
            ));
        }
        encode_sector(&mut encoder_state, input, ADPCM_SECTOR_SAMPLES * n, &mut output);
        n += 1;
    }
    proof {
        lemma_sectors_length(initial_model(), w, num_sectors as int);
    }
    output
}

// ---------------------------------------------------------------------------
// Lengths

proof fn lemma_group_rows_length(units: Seq<Seq<i32>>, k: int)
    requires
        k >= 0,
    ensures
        group_rows(units, k).len() == 4 * k,
    decreases k,
{
    if k > 0 {
        lemma_group_rows_length(units, k - 1);
    }
}

proof fn lemma_groups_length(m: EncoderModel, s: Seq<i16>, g: int)
    requires
        g >= 0,
    ensures
        encode_groups(m, s, g).1.len() == SOUND_GROUP_BYTES * g,
    decreases g,
{
    if g > 0 {
        lemma_groups_length(m, s, g - 1);
        let prev = encode_groups(m, s, g - 1);
        let units = encode_units(
            prev.0,
            s.subrange(SOUND_GROUP_SAMPLES * (g - 1), SOUND_GROUP_SAMPLES * g),
        );
        lemma_group_rows_length(units.2, SOUND_UNIT_SAMPLES as int);
    }
}

/// Every sector is 2324 bytes long: `n` sectors make `n * 2324` bytes.
pub proof fn lemma_sectors_length(m: EncoderModel, s: Seq<i16>, n: int)
    requires
        n >= 0,
    ensures
        encode_sectors(m, s, n).1.len() == XA_ADPCM_SECTOR_SIZE * n,
    decreases n,
{
    if n > 0 {
        lemma_sectors_length(m, s, n - 1);
        let prev = encode_sectors(m, s, n - 1);
        lemma_groups_length(
            prev.0,
            s.subrange(ADPCM_SECTOR_SAMPLES * (n - 1), ADPCM_SECTOR_SAMPLES * n),
            SOUND_GROUPS_PER_SECTOR as int,
        );
    }
}


// ---------------------------------------------------------------------------
// Laws

/// `sector_count(n)` is `ceil(n / 4032)`: 0 for no samples, and otherwise
/// the least number of sectors whose samples reach `n`. It never decreases
/// as the sample count grows.
pub proof fn lemma_sector_count(a: int, b: int)
    requires
        0 <= a <= b,
    ensures
        sectors_for(0) == 0,
        sectors_for(a) <= sectors_for(b),
        a <= ADPCM_SECTOR_SAMPLES * sectors_for(a),
        a > 0 ==> ADPCM_SECTOR_SAMPLES * (sectors_for(a) - 1) < a,
{
    assert(sectors_for(a) <= sectors_for(b)) by (nonlinear_arith)
        requires
            0 <= a <= b,
            sectors_for(a) == (a + 4031) / 4032,
            sectors_for(b) == (b + 4031) / 4032,
    ;
    assert(a <= 4032 * sectors_for(a) && (a > 0 ==> 4032 * (sectors_for(a) - 1) < a))
        by (nonlinear_arith)
        requires
            0 <= a,
            sectors_for(a) == (a + 4031) / 4032,
    ;
}

/// Encoding is a function of the samples alone: two inputs that hold the
/// same samples (silence past their ends) encode to the same bytes.
pub proof fn lemma_encoding_deterministic(a: Seq<i16>, b: Seq<i16>, count: int)
    requires
        forall|i: int| sample_at(a, i) == sample_at(b, i),
    ensures
        encoded_stream(a, count) == encoded_stream(b, count),
{
    let len = ADPCM_SECTOR_SAMPLES * sectors_for(count);
    assert(window(a, 0, len) =~= window(b, 0, len));
}

/// Encoding the sound units of `a + b` in one pass gives what encoding those
/// of `a`, then those of `b` from the state that `a` left, gives.
pub proof fn lemma_encode_units_split(m: EncoderModel, a: Seq<i16>, b: Seq<i16>)
    requires
        a.len() % 28 == 0,
        b.len() % 28 == 0,
    ensures
        encode_units(m, a + b) == ({
            let first = encode_units(m, a);
            let second = encode_units(first.0, b);
            (second.0, first.1 + second.1, first.2 + second.2)
        }),
    decreases b.len(),
{
    let first = encode_units(m, a);
    if b.len() == 0 {
        assert(a + b =~= a);
        assert(first.1 + seq![] =~= first.1);
        assert(first.2 + Seq::<Seq<i32>>::empty() =~= first.2);
    } else {
        let ab = a + b;
        let b0 = b.take(b.len() - 28);
        assert(ab.take(ab.len() - 28) =~= a + b0);
        assert(ab.skip(ab.len() - 28) =~= b.skip(b.len() - 28));
        lemma_encode_units_split(m, a, b0);
        let second0 = encode_units(first.0, b0);
        let unit = encode_unit(second0.0, b.skip(b.len() - 28));
        assert((first.1 + second0.1).push(unit.1) =~= first.1 + second0.1.push(unit.1));
        assert((first.2 + second0.2).push(unit.2) =~= first.2 + second0.2.push(unit.2));
    }
}

proof fn lemma_silent_trial(k0: i32, k1: i32, s: Seq<i16>)
    requires
        forall|i: int| 0 <= i < s.len() ==> s[i] == 0,
    ensures
        trial(k0, k1, 0, 0, s) == (0i32, 0i16, 0i16),
    decreases s.len(),
{
    assert((32i32 >> 6u32) == 0i32) by (bit_vector);
    assert(prediction(k0, k1, 0, 0) == 0);
    if s.len() > 0 {
        lemma_silent_trial(k0, k1, s.drop_last());
    }
}

proof fn lemma_silent_run(m: EncoderModel, s: Seq<i16>)
    requires
        m.encoder_1 == 0,
        m.encoder_2 == 0,
        m.shaper_out == 0,
        forall|i: int| 0 <= i < s.len() ==> s[i] == 0,
    ensures
        encode_run(m, 0, 0, MAX_SHIFT, s).0.encoder_1 == 0,
        encode_run(m, 0, 0, MAX_SHIFT, s).0.encoder_2 == 0,
        encode_run(m, 0, 0, MAX_SHIFT, s).0.shaper_out == 0,
        encode_run(m, 0, 0, MAX_SHIFT, s).1 == Seq::new(s.len(), |i: int| 0i32),
    decreases s.len(),
{
    if s.len() > 0 {
        lemma_silent_run(m, s.drop_last());
        let prev = encode_run(m, 0, 0, MAX_SHIFT, s.drop_last());
        assert((32i32 >> 6u32) == 0i32) by (bit_vector);
        assert(prediction(0, 0, 0, 0) == 0);
        assert((0i32 << 12u32) == 0i32) by (bit_vector);
        assert((0i32 >> 12u32) == 0i32) by (bit_vector);
        assert((2048i32 >> 12u32) == 0i32) by (bit_vector);
        assert(0i32.wrapping_sub(0i32) == 0i32);
        assert(0i32.wrapping_shl(12) == 0i32);
        assert(0i32.wrapping_add(2048) == 2048i32);
        assert(quantize(0) == 0);
        assert(0i32.wrapping_mul(0i32) == 0i32);
        assert(0i32.wrapping_add(0i32) == 0i32);
        assert(0i32.wrapping_add(32i32) == 32i32);
        assert(prev.1.push(0i32) =~= Seq::new(s.len(), |i: int| 0i32));
    }
}

/// A silent sound unit from a fresh encoder is encoded with filter 0, range
/// 12 (parameter byte 0x0C: a zero peak needs no shift) and 28 zero samples.
pub proof fn lemma_silent_unit(s: Seq<i16>)
    requires
        s.len() == SOUND_UNIT_SAMPLES,
        forall|i: int| 0 <= i < s.len() ==> s[i] == 0,
    ensures
        unit_filter(initial_model(), s) == 0,
        unit_range(initial_model(), s) == MAX_SHIFT,
        encode_unit(initial_model(), s).1 == 0x0Cu8,
        encode_unit(initial_model(), s).2 == Seq::new(SOUND_UNIT_SAMPLES as nat, |i: int| 0i32),
{
    reveal(encode_unit);
    let m = initial_model();
    assert forall|f: int| 0 <= f < 4 implies #[trigger] filter_trial(m, s, f) == (0i32, 0i16, 0i16) by {
        lemma_silent_trial(filter_k0(f), filter_k1(f), s);
    }
    let ps = unit_peaks(m, s);
    assert(ps[0] == 0 && ps[1] == 0 && ps[2] == 0 && ps[3] == 0);
    assert(select(ps, 0) == (0int, -32768i32));
    assert(select(ps, 1) == (0int, 0i32));
    assert(select(ps, 2) == (0int, 0i32));
    assert(select(ps, 3) == (0int, 0i32));
    assert(select(ps, 4) == (0int, 0i32));
    assert((0i32 >> 0u32) == 0i32) by (bit_vector);
    assert(!exceeds(0, 0));
    assert(shift_from(0, 0) == 0);
    lemma_silent_run(after_trials(m, s), s);
}

} // verus!
