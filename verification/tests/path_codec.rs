use merkle_membership::{decode_path, PathElement, PipelineError};

const S0: &str = "00000000000000000000000000000001";
const S1: &str = "000000000000000000000000000000ff";
const S2: &str = "ffffffffffffffffffffffffffffffff";

fn levels(path: &str, sides: &str) -> Vec<PathElement> {
    match decode_path(path, sides) {
        Ok(levels) => levels,
        Err(e) => panic!("path was refused: {:?}", e),
    }
}

fn refusal(path: &str, sides: &str) -> PipelineError {
    match decode_path(path, sides) {
        Ok(_) => panic!("path was read"),
        Err(e) => e,
    }
}

#[test]
fn empty_path_has_no_levels() {
    assert_eq!(levels("", "").len(), 0);
}

#[test]
fn decode_yields_one_pair_per_level() {
    let path = [S0, S1, S2].concat();
    let read = levels(&path, "010");
    assert_eq!(read.len(), 3);
    assert_eq!(read[0].side, false);
    assert_eq!(read[1].side, true);
    assert_eq!(read[2].side, false);
    assert_eq!(read[0].sibling.limbs(), [1, 0, 0, 0]);
    assert_eq!(read[1].sibling.limbs(), [255, 0, 0, 0]);
    assert_eq!(read[2].sibling.limbs(), [u64::MAX, u64::MAX, 0, 0]);
}

#[test]
fn each_level_reads_its_own_slice() {
    let mut path = String::new();
    let mut sides = String::new();
    for i in 0..10u64 {
        path.push_str(&format!("{:032x}", i * 1000 + 7));
        sides.push(if i % 3 == 0 { '1' } else { '0' });
    }
    let read = levels(&path, &sides);
    assert_eq!(read.len(), 10);
    for i in 0..10u64 {
        assert_eq!(read[i as usize].sibling.limbs(), [i * 1000 + 7, 0, 0, 0]);
        assert_eq!(read[i as usize].side, i % 3 == 0);
    }
}

#[test]
fn only_the_digit_one_sets_a_side() {
    let path = [S0, S0, S0, S0].concat();
    let read = levels(&path, "1x 0");
    assert_eq!(read[0].side, true);
    assert_eq!(read[1].side, false);
    assert_eq!(read[2].side, false);
    assert_eq!(read[3].side, false);
}

#[test]
fn ragged_path_is_malformed() {
    assert_eq!(refusal("0", "0"), PipelineError::MalformedPath);
    assert_eq!(refusal(&S0[1..], "0"), PipelineError::MalformedPath);
    let long = [S0, "0"].concat();
    assert_eq!(refusal(&long, "0"), PipelineError::MalformedPath);
    let longer = [S0, S1, "00"].concat();
    assert_eq!(refusal(&longer, "00"), PipelineError::MalformedPath);
}

#[test]
fn side_bits_must_match_the_depth() {
    let path = [S0, S1].concat();
    assert_eq!(refusal(&path, "0"), PipelineError::MalformedPath);
    assert_eq!(refusal(&path, "010"), PipelineError::MalformedPath);
    assert_eq!(refusal(&path, ""), PipelineError::MalformedPath);
    assert_eq!(refusal("", "1"), PipelineError::MalformedPath);
}

#[test]
fn sibling_must_be_base_16() {
    let bad = "0000000000000000000000000000000g";
    assert_eq!(refusal(bad, "0"), PipelineError::MalformedPath);
    let path = [S0, bad].concat();
    assert_eq!(refusal(&path, "00"), PipelineError::MalformedPath);
    let accented = "000000000000000000000000000000\u{e9}0";
    assert_eq!(refusal(accented, "0"), PipelineError::MalformedPath);
}
