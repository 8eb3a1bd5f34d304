use tape_interpreter::interpret;
use tape_interpreter::Program;
use tape_interpreter::RunOutcome;
use tape_interpreter::MEMORY_SIZE;

fn chars_of(text: &str) -> Vec<char> {
    text.chars().collect()
}

fn run_to_completion(source: &str, with_output: bool) -> Program {
    match interpret(&chars_of(source), with_output, 100_000_000) {
        RunOutcome::Complete(program) => program,
        RunOutcome::Unfinished(_) => panic!("step budget exhausted"),
        RunOutcome::Stopped(error) => panic!("run stopped: {:?}", error),
    }
}

/// One character of the message, written directly: pump the current cell to
/// the character's code with `+` and emit it with `.`.
fn push_direct_emit(code: &mut String, value: u8) {
    for _ in 0..value {
        code.push('+');
    }
    code.push('.');
}

/// One character of the message, written with a multiplication loop: pump
/// cell 0 to ten, add the tens digit to cell 1 ten times over, finish the
/// units digit, emit, and clear cell 1 again with a loop.
fn push_looped_emit(code: &mut String, value: u8) {
    let tens = value / 10;
    let units = value % 10;
    for _ in 0..10 {
        code.push('+');
    }
    code.push('[');
    code.push('>');
    for _ in 0..tens {
        code.push('+');
    }
    code.push('<');
    code.push('-');
    code.push(']');
    code.push('>');
    for _ in 0..units {
        code.push('+');
    }
    code.push('.');
    code.push('[');
    code.push('-');
    code.push(']');
    code.push('<');
}

#[test]
fn test_hello_world() {
    let message = "Hello, World!";
    let mut code = String::new();
    for (i, c) in message.chars().enumerate() {
        if i > 0 {
            code.push('>');
        }
        push_direct_emit(&mut code, c as u8);
    }

    let program = run_to_completion(&code, true);

    assert_eq!(program.output, chars_of(message));

    for (i, c) in message.chars().enumerate() {
        assert_eq!(program.memory[i], c as u8);
    }

    assert_eq!(program.pointer, message.len() - 1);
    assert_eq!(program.instruction_pointer, code.chars().count());

    for i in message.len()..program.memory.len() {
        assert_eq!(program.memory[i], 0);
    }

    assert_eq!(program.memory.len(), MEMORY_SIZE);
}

#[test]
fn test_hello_world_loop() {
    let message = "Hello World!\n";
    let mut code = String::new();
    for c in message.chars() {
        push_looped_emit(&mut code, c as u8);
    }

    let program = run_to_completion(&code, true);

    assert_eq!(program.output, chars_of(message));
}

#[test]
fn test_loop() {
    let code = "++[>++[-]<-]";

    let program = run_to_completion(code, true);

    assert_eq!(program.output, Vec::<char>::new());

    for i in 0..program.memory.len() {
        assert_eq!(program.memory[i], 0);
    }

    assert_eq!(program.pointer, 0);
    assert_eq!(program.instruction_pointer, code.chars().count());
}

#[test]
fn test_increments_leave_count() {
    let program = run_to_completion(&"+".repeat(200), true);
    assert_eq!(program.memory[0], 200);
    assert_eq!(program.pointer, 0);
    assert_eq!(program.instruction_pointer, 200);
    assert_eq!(program.output, Vec::<char>::new());
}

#[test]
fn test_echo_round_trip() {
    let program = run_to_completion(&format!("{}.", "+".repeat(72)), true);
    assert_eq!(program.output, vec!['H']);
    assert_eq!(program.memory[0], 72);
    assert_eq!(program.instruction_pointer, 73);
}

#[test]
fn test_balanced_brackets_skip() {
    let code = "[][[]]";
    let program = run_to_completion(code, true);
    assert_eq!(program.instruction_pointer, 6);
    assert_eq!(program.pointer, 0);
    assert_eq!(program.output, Vec::<char>::new());
    assert!(program.loop_stack.is_empty());
    for i in 0..program.memory.len() {
        assert_eq!(program.memory[i], 0);
    }
}

#[test]
fn test_skip_lands_past_matching_bracket() {
    // the zero cell skips the loop; the `+` after it still runs
    let program = run_to_completion("[-]+", true);
    assert_eq!(program.memory[0], 1);
    assert_eq!(program.instruction_pointer, 4);
}

#[test]
fn test_multiplication_loop() {
    let program = run_to_completion("++++[>++<-]", true);
    assert_eq!(program.memory[0], 0);
    assert_eq!(program.memory[1], 8);
    assert_eq!(program.pointer, 0);
}

#[test]
fn test_unknown_characters_are_no_ops() {
    let program = run_to_completion("a+b +\nc", true);
    assert_eq!(program.memory[0], 2);
    assert_eq!(program.instruction_pointer, 7);
    assert_eq!(program.output, Vec::<char>::new());
}

#[test]
fn test_output_flag_off_keeps_output_empty() {
    let program = run_to_completion(&format!("{}.", "+".repeat(65)), false);
    assert_eq!(program.output, Vec::<char>::new());
    assert_eq!(program.memory[0], 65);
}

#[test]
fn test_fresh_program_state() {
    let program = Program::new();
    assert_eq!(program.memory.len(), MEMORY_SIZE);
    for i in 0..program.memory.len() {
        assert_eq!(program.memory[i], 0);
    }
    assert_eq!(program.pointer, 0);
    assert_eq!(program.instruction_pointer, 0);
    assert!(program.loop_stack.is_empty());
    assert!(program.output.is_empty());
}
