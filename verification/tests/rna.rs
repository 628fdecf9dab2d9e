use dstructs::rna::calc_rnaa_connections;

#[test]
fn nested_and_sequential_pairs() {
    assert_eq!(calc_rnaa_connections("BSCFSCB"), 2);
}

#[test]
fn two_adjacent_pairs() {
    assert_eq!(calc_rnaa_connections("BSCF"), 2);
}

#[test]
fn single_pair() {
    assert_eq!(calc_rnaa_connections("BS"), 1);
}

#[test]
fn unmatched_base_blocks_nothing_after() {
    assert_eq!(calc_rnaa_connections("BCF"), 1);
}

#[test]
fn empty_strand_has_no_connections() {
    assert_eq!(calc_rnaa_connections(""), 0);
}

#[test]
fn no_complementary_neighbours() {
    assert_eq!(calc_rnaa_connections("BBBB"), 0);
}
