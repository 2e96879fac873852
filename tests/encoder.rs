use xa_adpcm::adpcm_encoder::{
    encode_sector, encode_sound_unit, encode_xa_adpcm, sector_count, EncoderState,
    ADPCM_SECTOR_SAMPLES, XA_ADPCM_SECTOR_SIZE,
};

fn encode_unit(state: &mut EncoderState, samples: &[i16]) -> (u8, Vec<i8>) {
    let mut out = vec![0i8; 28];
    let param = encode_sound_unit(state, samples, &mut out);
    (param, out)
}

fn sample_pattern(n: usize) -> Vec<i16> {
    (0..n).map(|i| (((i * 37) % 2000) as i32 - 1000) as i16).collect()
}

#[test]
fn silent_unit_selects_filter_zero_and_zero_samples() {
    let mut state = EncoderState::new();
    let (param, out) = encode_unit(&mut state, &[0i16; 28]);
    assert_eq!(param >> 4, 0);
    assert_eq!(param, 0x0C);
    assert!(out.iter().all(|&n| n == 0));
}

#[test]
fn ramp_unit_exact_values() {
    let mut state = EncoderState::new();
    let ramp: Vec<i16> = (0..28).map(|i| (i * 100) as i16).collect();
    let (param, out) = encode_unit(&mut state, &ramp);
    assert_eq!(param, 0x28);
    assert_eq!(
        out,
        vec![0, 6, 2, 1, 1, 2, 2, 1, 2, 2, 2, 2, 3, 2, 2, 3, 3, 2, 3, 3, 3, 3, 3, 4, 3, 4, 3, 4]
    );
    let alternating: Vec<i16> = (0..28).map(|i| if i % 2 == 0 { 1000 } else { -1000 }).collect();
    let (param, out) = encode_unit(&mut state, &alternating);
    assert_eq!(param, 0x05);
    for (i, n) in out.iter().enumerate() {
        assert_eq!(*n, if i % 2 == 0 { 7 } else { -8 });
    }
}

#[test]
fn emitted_values_stay_in_range() {
    let mut state = EncoderState::new();
    let loud: Vec<i16> = (0..28 * 40)
        .map(|i| match i % 5 {
            0 => i16::MAX,
            1 => i16::MIN,
            2 => 0,
            3 => ((i * 7919) % 65536) as u16 as i16,
            _ => -((i * 31) as i16),
        })
        .collect();
    for unit in loud.chunks(28) {
        let (param, out) = encode_unit(&mut state, unit);
        assert!(param >> 4 <= 3);
        assert!(param & 0x0F <= 12);
        assert!(out.iter().all(|&n| (-8..=7).contains(&n)));
    }
}

#[test]
fn sector_count_is_ceiling() {
    assert_eq!(sector_count(0), 0);
    assert_eq!(sector_count(1), 1);
    assert_eq!(sector_count(4031), 1);
    assert_eq!(sector_count(4032), 1);
    assert_eq!(sector_count(4033), 2);
    assert_eq!(sector_count(8064), 2);
    assert_eq!(sector_count(8065), 3);
    let mut last = 0;
    for n in 0..20000 {
        let c = sector_count(n);
        assert!(c >= last);
        assert_eq!(c, (n + 4031) / 4032);
        last = c;
    }
}

#[test]
fn output_length_is_whole_sectors() {
    for &n in &[0usize, 1, 28, 4032, 4033, 9000] {
        let out = encode_xa_adpcm(n, &sample_pattern(n));
        assert_eq!(out.len(), sector_count(n) * XA_ADPCM_SECTOR_SIZE);
    }
    assert_eq!(XA_ADPCM_SECTOR_SIZE, 2324);
}

#[test]
fn encoding_is_deterministic() {
    let samples = sample_pattern(5000);
    let a = encode_xa_adpcm(5000, &samples);
    let b = encode_xa_adpcm(5000, &samples);
    assert_eq!(a, b);
    let mut padded = samples.clone();
    padded.extend_from_slice(&[0i16; 100]);
    assert_eq!(encode_xa_adpcm(5000, &padded), a);
}

#[test]
fn stream_matches_units_encoded_one_by_one() {
    let samples = sample_pattern(ADPCM_SECTOR_SAMPLES);
    let stream = encode_xa_adpcm(samples.len(), &samples);
    let mut state = EncoderState::new();
    let mut expected = Vec::new();
    for group in samples.chunks(224) {
        let units: Vec<(u8, Vec<i8>)> = group.chunks(28).map(|u| encode_unit(&mut state, u)).collect();
        for &slot in &[0usize, 1, 2, 3, 0, 1, 2, 3, 4, 5, 6, 7, 4, 5, 6, 7] {
            expected.push(units[slot].0);
        }
        for k in 0..28 {
            for pair in 0..4 {
                let lo = units[2 * pair].1[k] as u8 & 0x0F;
                let hi = units[2 * pair + 1].1[k] as u8 & 0x0F;
                expected.push(lo | (hi << 4));
            }
        }
    }
    expected.extend_from_slice(&[0u8; 20]);
    assert_eq!(stream, expected);
}

#[test]
fn sectors_carry_state_across_calls() {
    let samples = sample_pattern(3 * ADPCM_SECTOR_SAMPLES);
    let whole = encode_xa_adpcm(samples.len(), &samples);
    let mut state = EncoderState::new();
    let mut pieces = Vec::new();
    for s in 0..3 {
        encode_sector(&mut state, &samples, s * ADPCM_SECTOR_SAMPLES, &mut pieces);
    }
    assert_eq!(whole, pieces);
}

#[test]
fn silent_sector_scenario() {
    let out = encode_xa_adpcm(4032, &vec![0i16; 4032]);
    assert_eq!(out.len(), 2324);
    for g in 0..18 {
        let group = &out[g * 128..(g + 1) * 128];
        assert!(group[..16].iter().all(|&p| p == 0x0C));
        assert!(group[16..].iter().all(|&b| b == 0));
    }
    assert!(out[2304..].iter().all(|&b| b == 0));
}

#[test]
fn one_sample_over_a_sector_pads_a_second_sector() {
    let mut samples = vec![0i16; 4033];
    samples[4032] = 1234;
    let out = encode_xa_adpcm(4033, &samples);
    assert_eq!(out.len(), 2 * 2324);
    let second = &out[2324..];
    assert_ne!(second[0], 0x0C);
    assert!(second[2304..].iter().all(|&b| b == 0));
}

#[test]
fn stream_exact_values() {
    let samples = sample_pattern(300);
    let out = encode_xa_adpcm(300, &samples);
    assert_eq!(out.len(), 2324);
    assert_eq!(&out[..20], &[5, 5, 25, 5, 5, 5, 25, 5, 43, 5, 43, 5, 43, 5, 43, 5, 8, 29, 29, 45]);
    assert_eq!(&out[128..148], &[43, 5, 25, 12, 43, 5, 25, 12, 12, 12, 12, 12, 12, 12, 12, 12, 62, 47, 0, 0]);
    let total: u64 = out.iter().map(|&b| b as u64).sum();
    assert_eq!(total, 16620);
    let weighted: u64 = out.iter().enumerate().map(|(i, &b)| (i as u64 + 1) * b as u64).sum();
    assert_eq!(weighted, 5303607);
}
