use tape_interpreter::execute_step;
use tape_interpreter::find_matching_bracket;
use tape_interpreter::interpret;
use tape_interpreter::run_loop;
use tape_interpreter::InterpreterError;
use tape_interpreter::Program;
use tape_interpreter::RunOutcome;
use tape_interpreter::MEMORY_SIZE;

fn chars_of(text: &str) -> Vec<char> {
    text.chars().collect()
}

fn run_to_error(source: &str) -> InterpreterError {
    match interpret(&chars_of(source), true, 100_000_000) {
        RunOutcome::Complete(_) => panic!("run completed"),
        RunOutcome::Unfinished(_) => panic!("step budget exhausted"),
        RunOutcome::Stopped(error) => error,
    }
}

#[test]
fn test_pointer_underflow() {
    assert_eq!(run_to_error("<"), InterpreterError::PointerUnderflow);
}

#[test]
fn test_pointer_overflow_at_boundary() {
    // the cell before the last index is the last one `>` may enter
    assert_eq!(run_to_error(&">".repeat(MEMORY_SIZE - 1)), InterpreterError::PointerOverflow);
}

#[test]
fn test_pointer_reaches_boundary() {
    let code = chars_of(&">".repeat(MEMORY_SIZE - 2));
    match interpret(&code, true, 100_000_000) {
        RunOutcome::Complete(program) => {
            assert_eq!(program.pointer, MEMORY_SIZE - 2);
        },
        _ => panic!("run did not complete"),
    }
}

#[test]
fn test_cell_underflow() {
    assert_eq!(run_to_error("-"), InterpreterError::CellUnderflow);
}

#[test]
fn test_cell_overflow() {
    assert_eq!(run_to_error(&"+".repeat(256)), InterpreterError::CellOverflow);
}

#[test]
fn test_unmatched_close_bracket() {
    assert_eq!(run_to_error("]"), InterpreterError::UnmatchedCloseBracket);
}

#[test]
fn test_unterminated_open_bracket() {
    assert_eq!(run_to_error("["), InterpreterError::UnterminatedOpenBracket);
}

#[test]
fn test_unterminated_nested_open_bracket() {
    assert_eq!(run_to_error("[[]"), InterpreterError::UnterminatedOpenBracket);
}

#[test]
fn test_empty_input_line() {
    let mut program = Program::new();
    let code = chars_of(",");
    let result = execute_step(&mut program, &code, true, None);
    assert_eq!(result, Err(InterpreterError::EmptyInputLine));
    assert_eq!(program.instruction_pointer, 0);
}

#[test]
fn test_input_stores_first_character() {
    let mut program = Program::new();
    let code = chars_of(",");
    let result = execute_step(&mut program, &code, true, Some('A'));
    assert_eq!(result, Ok(()));
    assert_eq!(program.memory[0], 65);
    assert_eq!(program.instruction_pointer, 1);
}

#[test]
fn test_input_truncates_to_byte() {
    let mut program = Program::new();
    let code = chars_of(",");
    let result = execute_step(&mut program, &code, true, Some('\u{0100}'));
    assert_eq!(result, Ok(()));
    assert_eq!(program.memory[0], 0);
}

#[test]
fn test_find_matching_bracket_nested() {
    let code = chars_of("[+[-]>]");
    assert_eq!(find_matching_bracket(&code, 1), Some(6));
    assert_eq!(find_matching_bracket(&code, 3), Some(4));
}

#[test]
fn test_find_matching_bracket_missing() {
    let code = chars_of("[[+]");
    assert_eq!(find_matching_bracket(&code, 1), None);
}

#[test]
fn test_run_resumes_after_budget() {
    let code = chars_of(&"+".repeat(10));
    let mut program = match interpret(&code, true, 5) {
        RunOutcome::Unfinished(program) => program,
        _ => panic!("budget should have run out"),
    };
    assert_eq!(program.memory[0], 5);
    assert_eq!(program.instruction_pointer, 5);
    let resumed = run_loop(&mut program, &code, true, 100);
    assert_eq!(resumed, Ok(true));
    assert_eq!(program.memory[0], 10);
    assert_eq!(program.instruction_pointer, 10);
}
