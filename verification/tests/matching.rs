use tape_interpreter::brackets::{find_loop_end, find_loop_start};
use tape_interpreter::Instruction;

#[test]
fn simple_loop_brackets_match() {
    let program = Instruction::parse("[-]");
    assert_eq!(find_loop_end(&program, 0), Some(2));
    assert_eq!(find_loop_start(&program, 2), Some(0));
}

#[test]
fn adjacent_brackets_match() {
    let program = Instruction::parse("[]");
    assert_eq!(find_loop_end(&program, 0), Some(1));
    assert_eq!(find_loop_start(&program, 1), Some(0));
}

#[test]
fn nested_brackets_match_at_their_depth() {
    let program = Instruction::parse("+[>[-]<[+]]-");
    assert_eq!(find_loop_end(&program, 1), Some(10));
    assert_eq!(find_loop_end(&program, 3), Some(5));
    assert_eq!(find_loop_end(&program, 7), Some(9));
    assert_eq!(find_loop_start(&program, 10), Some(1));
    assert_eq!(find_loop_start(&program, 5), Some(3));
    assert_eq!(find_loop_start(&program, 9), Some(7));
}

#[test]
fn open_bracket_without_partner_has_no_end() {
    let program = Instruction::parse("[[]+");
    assert_eq!(find_loop_end(&program, 0), None);
    assert_eq!(find_loop_end(&program, 1), Some(2));
}

#[test]
fn close_bracket_without_partner_has_no_start() {
    let program = Instruction::parse("+[]]");
    assert_eq!(find_loop_start(&program, 3), None);
    assert_eq!(find_loop_start(&program, 2), Some(1));
}

#[test]
fn last_open_bracket_has_no_end() {
    let program = Instruction::parse("+[");
    assert_eq!(find_loop_end(&program, 1), None);
}

#[test]
fn first_close_bracket_has_no_start() {
    let program = Instruction::parse("]+");
    assert_eq!(find_loop_start(&program, 0), None);
}

#[test]
fn position_outside_the_program_has_no_partner() {
    let program = Instruction::parse("[]");
    assert_eq!(find_loop_end(&program, 2), None);
    assert_eq!(find_loop_end(&program, usize::MAX), None);
    assert_eq!(find_loop_start(&program, 2), None);
    assert_eq!(find_loop_start(&program, usize::MAX), None);
    assert_eq!(find_loop_end(&[], 0), None);
    assert_eq!(find_loop_start(&[], 0), None);
}

#[test]
fn scan_counts_from_the_position_whatever_stands_there() {
    // position 0 holds no bracket; the scan still looks for the first
    // excess close bracket after it
    let program = Instruction::parse("+[]]");
    assert_eq!(find_loop_end(&program, 0), Some(3));
    let program = Instruction::parse("[[]+");
    assert_eq!(find_loop_start(&program, 3), Some(0));
}
