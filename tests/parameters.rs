use vldp::parameters::{ParamError, ParametersShuffle};

fn le(v: u64) -> Vec<u8> {
    v.to_le_bytes().to_vec()
}

fn params(num: u64, den: u64, g: usize) -> ParametersShuffle {
    ParametersShuffle::setup(le(num), le(den), g, vec![1u8], vec![2u8], vec![3u8]).unwrap()
}

#[test]
fn gamma_one_half_in_one_byte() {
    assert_eq!(params(1, 2, 1).gamma_as_bytes(), vec![127u8]);
}

#[test]
fn gamma_one_fills_all_bytes() {
    assert_eq!(params(1, 1, 2).gamma_as_bytes(), vec![255u8, 255]);
}

#[test]
fn gamma_one_third_in_two_bytes() {
    assert_eq!(params(1, 3, 2).gamma_as_bytes(), vec![0x55u8, 0x55]);
}

#[test]
fn small_gamma_padded_to_width() {
    assert_eq!(params(1, 1000, 2).gamma_as_bytes(), vec![65u8, 0]);
    assert_eq!(params(1, 1000, 1).gamma_as_bytes(), vec![0u8]);
    assert_eq!(params(1, 1000, 4).gamma_as_bytes().len(), 4);
}

#[test]
fn gamma_rounds_down() {
    // 2/3 * 255 = 170 exactly; 2/3 * 65535 = 43690 exactly; 5/7 * 255 = 182.14...
    assert_eq!(params(2, 3, 1).gamma_as_bytes(), vec![170u8]);
    assert_eq!(params(5, 7, 1).gamma_as_bytes(), vec![182u8]);
}

#[test]
fn gamma_encoding_round_trip() {
    for (num, den, g) in [(1u64, 2u64, 1usize), (1, 3, 2), (5, 7, 1), (3, 1000, 2), (999, 1000, 3)] {
        let e = params(num, den, g).gamma_as_bytes();
        let mut value: u64 = 0;
        for (i, b) in e.iter().enumerate() {
            value += (*b as u64) << (8 * i);
        }
        assert!(value > 0);
        let max: u64 = (1u64 << (8 * g)) - 1;
        assert_eq!(params(value, max, g).gamma_as_bytes(), e);
    }
}

#[test]
fn gamma_round_trip_in_wide_encoding() {
    // 12 bytes: the decoded fraction needs more than 64 bits
    let p = ParametersShuffle::setup(le(2), le(3), 12, vec![], vec![], vec![]).unwrap();
    let e = p.gamma_as_bytes();
    assert_eq!(e, vec![0xaau8; 12]);
    let again = ParametersShuffle::setup(e.clone(), vec![0xffu8; 12], 12, vec![], vec![], vec![]).unwrap();
    assert_eq!(again.gamma_as_bytes(), e);
}

#[test]
fn gamma_from_long_fraction() {
    // 1 / 2^72 in 10 bytes: (2^80 - 1) / 2^72 = 255.99.. rounds down to 255
    let mut den = vec![0u8; 9];
    den.push(1);
    let p = ParametersShuffle::setup(vec![1u8], den, 10, vec![], vec![], vec![]).unwrap();
    let mut expected = vec![255u8];
    expected.extend_from_slice(&[0u8; 9]);
    assert_eq!(p.gamma_as_bytes(), expected);
}

#[test]
fn setup_refuses_gamma_outside_unit_interval() {
    let s = |n: Vec<u8>, d: Vec<u8>, g: usize| ParametersShuffle::setup(n, d, g, vec![], vec![], vec![]).err();
    assert_eq!(s(le(0), le(5), 1), Some(ParamError::InvalidGamma));
    assert_eq!(s(vec![], le(5), 1), Some(ParamError::InvalidGamma));
    assert_eq!(s(le(6), le(5), 1), Some(ParamError::InvalidGamma));
    assert_eq!(s(le(1), le(5), 0), Some(ParamError::InvalidGamma));
    assert_eq!(s(le(5), le(5), 1), None);
}
