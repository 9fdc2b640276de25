use bfvm::cmd::Command;
use bfvm::interp::{execute, Code, Io, VmError};
use bfvm::tape::State;

const FUEL: u64 = 1_000_000;

#[test]
fn three_increments_output_three() {
    assert_eq!(execute(b"+++.", b"", FUEL), Ok(vec![3u8]));
}

#[test]
fn echo_one_byte() {
    assert_eq!(execute(b",.", b"A", FUEL), Ok(vec![65u8]));
}

#[test]
fn read_at_end_of_stream_gives_zero() {
    assert_eq!(execute(b",.", b"", FUEL), Ok(vec![0u8]));
}

#[test]
fn simple_loop_multiplies() {
    assert_eq!(execute(b"++[>++++<-]>.", b"", FUEL), Ok(vec![8u8]));
}

#[test]
fn comment_byte_has_no_effect() {
    let with_comment = execute(b"++a[>++++<-]>.", b"", FUEL);
    let without = execute(b"++[>++++<-]>.", b"", FUEL);
    assert_eq!(with_comment, without);
    assert_eq!(with_comment, Ok(vec![8u8]));
}

#[test]
fn many_comment_bytes_have_no_effect() {
    let noisy = execute(b"hello ++ world [ > ++++ < - ] > .", b"", FUEL);
    let plain = execute(b"++[>++++<-]>.", b"", FUEL);
    assert_eq!(noisy, plain);
}

#[test]
fn zero_guard_skips_body_entirely() {
    assert_eq!(execute(b"[+.]", b"", FUEL), Ok(vec![]));
}

#[test]
fn zero_guard_resumes_after_matching_bracket() {
    assert_eq!(execute(b"[[-]>]+.", b"", FUEL), Ok(vec![1u8]));
}

#[test]
fn two_levels_of_nesting() {
    assert_eq!(execute(b"++[>++[>++<-]<-]>>.", b"", FUEL), Ok(vec![8u8]));
}

#[test]
fn three_levels_of_nesting() {
    assert_eq!(execute(b"++[>++[>++[>++<-]<-]<-]>>>.", b"", FUEL), Ok(vec![16u8]));
}

#[test]
fn newline_value_reaches_output() {
    assert_eq!(execute(b"++++++++++.", b"", FUEL), Ok(vec![10u8]));
}

#[test]
fn carriage_return_input_normalized() {
    assert_eq!(execute(b",.", b"\r", FUEL), Ok(vec![10u8]));
}

#[test]
fn line_feed_input_normalized() {
    assert_eq!(execute(b",.", b"\n", FUEL), Ok(vec![10u8]));
}

#[test]
fn other_input_bytes_stored_unchanged() {
    assert_eq!(execute(b",.", &[200u8], FUEL), Ok(vec![200u8]));
}

#[test]
fn second_read_past_end_gives_zero() {
    assert_eq!(execute(b",,.", b"A", FUEL), Ok(vec![0u8]));
}

#[test]
fn pointer_underflow_is_reported() {
    assert_eq!(execute(b"<", b"", FUEL), Err(VmError::PointerOutOfRange));
}

#[test]
fn pointer_overflow_is_reported() {
    let program = vec![b'>'; 30720];
    assert_eq!(execute(&program, b"", FUEL), Err(VmError::PointerOutOfRange));
}

#[test]
fn pointer_can_reach_last_cell() {
    let program = vec![b'>'; 30719];
    assert_eq!(execute(&program, b"", FUEL), Ok(vec![]));
}

#[test]
fn endless_loop_spends_the_budget() {
    assert_eq!(execute(b"+[]", b"", 50), Err(VmError::StepLimitReached));
}

#[test]
fn zero_fuel_on_nonempty_program() {
    assert_eq!(execute(b"+", b"", 0), Err(VmError::StepLimitReached));
}

#[test]
fn empty_program_halts_at_once() {
    assert_eq!(execute(b"", b"", 0), Ok(vec![]));
}

#[test]
fn unmatched_close_falls_through() {
    assert_eq!(execute(b"].", b"", FUEL), Ok(vec![0u8]));
    assert_eq!(execute(b"+].", b"", FUEL), Ok(vec![1u8]));
}

#[test]
fn unmatched_open_falls_off_the_end() {
    assert_eq!(execute(b"+[", b"", FUEL), Ok(vec![]));
}

#[test]
fn decode_is_deterministic() {
    let raw = b"+a[>.,<]-x";
    let first = Code::build(raw);
    let second = Code::build(raw);
    assert_eq!(first.sequence, second.sequence);
}

#[test]
fn decode_keeps_order_and_drops_comments() {
    let code = Code::build(b"a+b[c]d");
    assert_eq!(
        code.sequence,
        vec![Command::IncrementByte, Command::LoopStart, Command::LoopEnd]
    );
}

#[test]
fn decode_maps_all_eight_bytes() {
    assert_eq!(Command::from_byte(b'>'), Some(Command::IncrementPointer));
    assert_eq!(Command::from_byte(b'<'), Some(Command::DecrementPointer));
    assert_eq!(Command::from_byte(b'+'), Some(Command::IncrementByte));
    assert_eq!(Command::from_byte(b'-'), Some(Command::DecrementByte));
    assert_eq!(Command::from_byte(b'.'), Some(Command::WriteByte));
    assert_eq!(Command::from_byte(b','), Some(Command::ReadByte));
    assert_eq!(Command::from_byte(b'['), Some(Command::LoopStart));
    assert_eq!(Command::from_byte(b']'), Some(Command::LoopEnd));
    assert_eq!(Command::from_byte(b'a'), None);
    assert_eq!(Command::from_byte(0), None);
}

#[test]
fn get_cmd_walks_the_sequence() {
    let mut code = Code::build(b"+-");
    assert_eq!(code.get_cmd(), Some(&Command::IncrementByte));
    code.pointer = 1;
    assert_eq!(code.get_cmd(), Some(&Command::DecrementByte));
    code.pointer = 2;
    assert_eq!(code.get_cmd(), None);
}

#[test]
fn increment_256_times_returns_to_start() {
    let mut s = State::new();
    s.write_cell_value(7);
    for _ in 0..256 {
        s.increment_cell();
    }
    assert_eq!(s.read_cell_value(), 7);
}

#[test]
fn decrement_undoes_increment() {
    let mut s = State::new();
    s.write_cell_value(255);
    s.increment_cell();
    assert_eq!(s.read_cell_value(), 0);
    s.decrement_cell();
    assert_eq!(s.read_cell_value(), 255);
    s.decrement_cell();
    s.increment_cell();
    assert_eq!(s.read_cell_value(), 255);
}

#[test]
fn pointer_moves_are_bounded() {
    let mut s = State::new();
    assert!(!s.move_backward());
    assert!(s.move_forward());
    assert!(s.move_backward());
    assert_eq!(s.pointer, 0);
}

#[test]
fn io_bridge_reads_and_writes() {
    let mut io = Io::new(vec![65u8, 13u8]);
    assert_eq!(io.read_input_byte(), 65);
    assert_eq!(io.read_input_byte(), 10);
    assert_eq!(io.read_input_byte(), 0);
    io.write_output_byte(3);
    io.write_output_byte(10);
    assert_eq!(io.output, vec![3u8, 10u8]);
}
