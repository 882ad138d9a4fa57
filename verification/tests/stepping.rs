use tape_interpreter::{Fault, Instruction, Interpreter};

fn at_start(text: &str) -> Interpreter {
    Interpreter::new(Instruction::parse(text))
}

fn after(text: &str, steps: usize) -> Interpreter {
    let mut interpreter = at_start(text);
    for _ in 0..steps {
        assert_eq!(interpreter.step(None), Ok(None));
    }
    interpreter
}

#[test]
fn fresh_interpreter_has_no_cell_allocated() {
    let interpreter = at_start("+");
    assert_eq!(interpreter.tape(), Vec::<u8>::new());
    assert_eq!(interpreter.cursor(), 0);
    assert_eq!(interpreter.ip(), 0);
    assert_eq!(interpreter.cell(), 0);
    assert!(!interpreter.done());
    assert_eq!(interpreter.inst(), Some(Instruction::Increment));
}

#[test]
fn default_interpreter_runs_the_empty_program() {
    let interpreter = Interpreter::default();
    assert!(interpreter.done());
    assert_eq!(interpreter.inst(), None);
    assert_eq!(interpreter.tape(), Vec::<u8>::new());
}

#[test]
fn first_step_allocates_one_cell() {
    let interpreter = after(".", 0);
    assert_eq!(interpreter.tape().len(), 0);
    let mut interpreter = at_start(".");
    assert_eq!(interpreter.step(None), Ok(Some(0)));
    assert_eq!(interpreter.tape(), vec![0u8]);
}

#[test]
fn step_on_a_finished_program_only_allocates() {
    let mut interpreter = at_start("");
    assert_eq!(interpreter.step(Some(9)), Ok(None));
    assert_eq!(interpreter.tape(), vec![0u8]);
    assert_eq!(interpreter.ip(), 0);
    assert!(interpreter.done());
    assert_eq!(interpreter.step(None), Ok(None));
    assert_eq!(interpreter.tape(), vec![0u8]);
}

#[test]
fn increment_adds_one() {
    let interpreter = after("+++", 3);
    assert_eq!(interpreter.cell(), 3);
    assert_eq!(interpreter.ip(), 3);
    assert!(interpreter.done());
}

#[test]
fn increment_wraps_from_255_to_0() {
    let text = "+".repeat(256);
    let interpreter = after(&text, 255);
    assert_eq!(interpreter.cell(), 255);
    let interpreter = after(&text, 256);
    assert_eq!(interpreter.cell(), 0);
}

#[test]
fn increment_256_times_restores_every_value() {
    let text = format!(",{}.", "+".repeat(256));
    for value in [0u8, 1, 7, 127, 128, 254, 255] {
        let mut interpreter = at_start(&text);
        let outcome = interpreter.run(&[value], 1000);
        assert_eq!(outcome.output, vec![value]);
    }
}

#[test]
fn decrement_of_zero_stays_zero() {
    let interpreter = after("-", 1);
    assert_eq!(interpreter.cell(), 0);
    assert_eq!(interpreter.tape(), vec![0u8]);
    let interpreter = after("---", 3);
    assert_eq!(interpreter.cell(), 0);
}

#[test]
fn decrement_subtracts_one() {
    let interpreter = after("+++-", 4);
    assert_eq!(interpreter.cell(), 2);
    let interpreter = after("+-", 2);
    assert_eq!(interpreter.cell(), 0);
    let mut interpreter = at_start(",-");
    assert_eq!(interpreter.step(Some(255)), Ok(None));
    assert_eq!(interpreter.step(None), Ok(None));
    assert_eq!(interpreter.cell(), 254);
}

#[test]
fn decrement_then_increment_is_not_identity_on_zero() {
    let interpreter = after("-+", 2);
    assert_eq!(interpreter.cell(), 1);
}

#[test]
fn moves_right_grow_the_tape_by_one_cell_each() {
    for n in 1..=20usize {
        let interpreter = after(&">".repeat(n), n);
        assert_eq!(interpreter.tape(), vec![0u8; n + 1]);
        assert_eq!(interpreter.cursor(), n);
        assert!(interpreter.on_right_edge());
    }
}

#[test]
fn moves_left_grow_the_tape_by_one_cell_each() {
    for n in 1..=20usize {
        let interpreter = after(&"<".repeat(n), n);
        assert_eq!(interpreter.tape(), vec![0u8; n + 1]);
        assert_eq!(interpreter.cursor(), 0);
        assert!(interpreter.on_left_edge());
    }
}

#[test]
fn move_right_within_the_tape_allocates_nothing() {
    let interpreter = after(">><<>>", 6);
    assert_eq!(interpreter.tape(), vec![0u8; 3]);
    assert_eq!(interpreter.cursor(), 2);
}

#[test]
fn move_left_at_the_left_edge_inserts_a_cell_in_front() {
    let interpreter = after("+<", 2);
    assert_eq!(interpreter.tape(), vec![0u8, 1]);
    assert_eq!(interpreter.cursor(), 0);
    assert_eq!(interpreter.cell(), 0);
    assert!(interpreter.on_left_edge());
    assert!(!interpreter.on_right_edge());
}

#[test]
fn move_left_within_the_tape_moves_the_cursor() {
    let interpreter = after("+>++<", 5);
    assert_eq!(interpreter.tape(), vec![1u8, 2]);
    assert_eq!(interpreter.cursor(), 0);
    assert_eq!(interpreter.cell(), 1);
}

#[test]
fn moves_left_and_right_keep_the_cells_in_place() {
    let interpreter = after("+<++<+++>>>++++", 15);
    assert_eq!(interpreter.tape(), vec![3u8, 2, 1, 4]);
    assert_eq!(interpreter.cursor(), 3);
}

#[test]
fn edges_of_a_fresh_tape() {
    let interpreter = at_start("+");
    assert!(interpreter.on_left_edge());
    assert!(interpreter.on_right_edge());
    let interpreter = after("+", 1);
    assert!(interpreter.on_left_edge());
    assert!(interpreter.on_right_edge());
    let interpreter = after(">", 1);
    assert!(!interpreter.on_left_edge());
    assert!(interpreter.on_right_edge());
}

#[test]
fn output_emits_the_current_cell() {
    let mut interpreter = after("++.", 2);
    assert_eq!(interpreter.step(None), Ok(Some(2)));
    assert_eq!(interpreter.cell(), 2);
    assert_eq!(interpreter.ip(), 3);
}

#[test]
fn input_stores_the_byte_on_offer() {
    let mut interpreter = at_start(",");
    assert_eq!(interpreter.step(Some(65)), Ok(None));
    assert_eq!(interpreter.cell(), 65);
    assert_eq!(interpreter.ip(), 1);
}

#[test]
fn input_without_a_byte_faults_and_stays() {
    let mut interpreter = at_start(",");
    assert_eq!(interpreter.step(None), Err(Fault::InputExhausted));
    assert_eq!(interpreter.ip(), 0);
    assert_eq!(interpreter.tape(), vec![0u8]);
    assert_eq!(interpreter.step(Some(3)), Ok(None));
    assert_eq!(interpreter.cell(), 3);
}

#[test]
fn other_instructions_ignore_the_byte_on_offer() {
    let mut interpreter = at_start("+.");
    assert_eq!(interpreter.step(Some(77)), Ok(None));
    assert_eq!(interpreter.step(Some(77)), Ok(Some(1)));
}

#[test]
fn loop_start_on_zero_jumps_past_the_loop_end() {
    let mut interpreter = at_start("[+[-]]+");
    assert_eq!(interpreter.step(None), Ok(None));
    assert_eq!(interpreter.ip(), 6);
    assert_eq!(interpreter.tape(), vec![0u8]);
}

#[test]
fn loop_start_on_nonzero_enters_the_body() {
    let interpreter = after("+[-]", 2);
    assert_eq!(interpreter.ip(), 2);
    assert_eq!(interpreter.cell(), 1);
}

#[test]
fn loop_end_on_nonzero_jumps_back_past_the_loop_start() {
    let interpreter = after("++[-]", 5);
    assert_eq!(interpreter.ip(), 3);
    assert_eq!(interpreter.cell(), 1);
}

#[test]
fn loop_end_on_zero_leaves_the_loop() {
    let interpreter = after("+[-]", 4);
    assert_eq!(interpreter.ip(), 4);
    assert_eq!(interpreter.cell(), 0);
    assert!(interpreter.done());
}

#[test]
fn jump_without_partner_faults_and_stays() {
    let mut interpreter = at_start("[+");
    assert_eq!(interpreter.step(None), Err(Fault::UnbalancedBrackets));
    assert_eq!(interpreter.ip(), 0);
    assert_eq!(interpreter.tape(), vec![0u8]);
    let mut interpreter = after("+]", 1);
    assert_eq!(interpreter.step(None), Err(Fault::UnbalancedBrackets));
    assert_eq!(interpreter.ip(), 1);
    assert_eq!(interpreter.tape(), vec![1u8]);
}

#[test]
fn cell_mut_writes_the_current_cell() {
    let mut interpreter = after("+>++>+++<", 9);
    assert_eq!(interpreter.tape(), vec![1u8, 2, 3]);
    assert_eq!(*interpreter.cell_mut(), 2);
    *interpreter.cell_mut() = 200;
    assert_eq!(interpreter.cell(), 200);
    assert_eq!(interpreter.tape(), vec![1u8, 200, 3]);
}

#[test]
fn cell_mut_allocates_a_fresh_tape() {
    let mut interpreter = at_start("");
    *interpreter.cell_mut() = 42;
    assert_eq!(interpreter.tape(), vec![42u8]);
    assert_eq!(interpreter.cell(), 42);
    assert_eq!(interpreter.cursor(), 0);
}

#[test]
fn inst_follows_the_instruction_pointer() {
    let mut interpreter = at_start("+[-]");
    assert_eq!(interpreter.inst(), Some(Instruction::Increment));
    interpreter.step(None).unwrap();
    assert_eq!(interpreter.inst(), Some(Instruction::LoopStart));
    interpreter.step(None).unwrap();
    assert_eq!(interpreter.inst(), Some(Instruction::Decrement));
    interpreter.step(None).unwrap();
    assert_eq!(interpreter.inst(), Some(Instruction::LoopEnd));
    interpreter.step(None).unwrap();
    assert_eq!(interpreter.inst(), None);
    assert!(interpreter.done());
}
