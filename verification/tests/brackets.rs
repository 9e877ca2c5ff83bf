use ultimate_bf::brackets::{find_matching_close, find_matching_open};

fn program_of(text: &str) -> Vec<char> {
    text.chars().collect()
}

#[test]
fn a_simple_pair_matches() {
    let program = program_of("[]");
    assert_eq!(find_matching_close(&program, 0), Some(1));
    assert_eq!(find_matching_open(&program, 1), Some(0));
}

#[test]
fn nested_pairs_match_by_depth() {
    let program = program_of("[[]]");
    assert_eq!(find_matching_close(&program, 0), Some(3));
    assert_eq!(find_matching_close(&program, 1), Some(2));
    assert_eq!(find_matching_open(&program, 3), Some(0));
    assert_eq!(find_matching_open(&program, 2), Some(1));
}

#[test]
fn other_symbols_are_passed_over() {
    let program = program_of("+[->+[-]<]>.");
    assert_eq!(find_matching_close(&program, 1), Some(9));
    assert_eq!(find_matching_close(&program, 5), Some(7));
    assert_eq!(find_matching_open(&program, 9), Some(1));
    assert_eq!(find_matching_open(&program, 7), Some(5));
}

#[test]
fn sibling_loops_match_their_own_partners() {
    let program = program_of("[][]");
    assert_eq!(find_matching_close(&program, 0), Some(1));
    assert_eq!(find_matching_close(&program, 2), Some(3));
    assert_eq!(find_matching_open(&program, 1), Some(0));
    assert_eq!(find_matching_open(&program, 3), Some(2));
}

#[test]
fn an_open_bracket_without_partner_is_found_out() {
    assert_eq!(find_matching_close(&program_of("[+"), 0), None);
    assert_eq!(find_matching_close(&program_of("["), 0), None);
    assert_eq!(find_matching_close(&program_of("[[]"), 0), None);
    assert_eq!(find_matching_close(&program_of("[[]"), 1), Some(2));
}

#[test]
fn a_close_bracket_without_partner_is_found_out() {
    assert_eq!(find_matching_open(&program_of("+]"), 1), None);
    assert_eq!(find_matching_open(&program_of("]"), 0), None);
    assert_eq!(find_matching_open(&program_of("[]]"), 2), None);
    assert_eq!(find_matching_open(&program_of("[]]"), 1), Some(0));
}

#[test]
fn positions_off_the_program_have_no_partner() {
    let program = program_of("[]");
    assert_eq!(find_matching_close(&program, 2), None);
    assert_eq!(find_matching_close(&program, usize::MAX), None);
    assert_eq!(find_matching_open(&program, 2), None);
    assert_eq!(find_matching_open(&program, usize::MAX), None);
    assert_eq!(find_matching_close(&[], 0), None);
    assert_eq!(find_matching_open(&[], 0), None);
}

#[test]
fn the_scan_counts_from_one_whatever_the_start_holds() {
    let program = program_of("+]");
    assert_eq!(find_matching_close(&program, 0), Some(1));
    let program = program_of("[+");
    assert_eq!(find_matching_open(&program, 1), Some(0));
}
