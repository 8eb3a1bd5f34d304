use vstd::pervasive::VecAdditionalExecFns;
use vstd::prelude::*;

use crate::io::emit_character;
use crate::io::read_line_first_char;
use crate::semantics::find_match;
use crate::semantics::lemma_run_compose;
use crate::semantics::lemma_run_extra_inputs;
use crate::semantics::lemma_step_stays_within;
use crate::semantics::run;
use crate::semantics::step;
use crate::semantics::within_code;
use crate::semantics::RunResult;
use crate::state::initial_state;
use crate::state::InterpreterError;
use crate::state::Program;
use crate::state::StateModel;

verus! {

/// How a bounded interpretation run ended.
pub enum RunOutcome {
    /// The instruction pointer left the source; the final state is exposed
    /// for inspection.
    Complete(Program),
    /// The step budget ran out first; the state reached so far is exposed
    /// and the run can be resumed from it.
    Unfinished(Program),
    /// A fatal error stopped the run.
    Stopped(InterpreterError),
}

/// The forward bracket scan: starting at `start` inside one open loop,
/// finds the close bracket that ends it, re-scanning character by
/// character with a nesting counter.
pub fn find_matching_bracket(code: &Vec<char>, start: usize) -> (found: Option<usize>)
    requires
        start <= code@.len(),
        code@.len() < usize::MAX,
    ensures
        match found {
            Some(m) => find_match(code@, start as int, 1) == Some(m as int) && start <= m
                < code@.len(),
            None => find_match(code@, start as int, 1) is None,
        },
{
    let mut pos: usize = start;
    let mut depth: usize = 1;
    while pos < code.len()
        invariant
            start <= pos <= code@.len(),
            code@.len() < usize::MAX,
            1 <= depth <= pos - start + 1,
            find_match(code@, start as int, 1) == find_match(code@, pos as int, depth as int),
        decreases code@.len() - pos,
    {
        let c = code[pos];
        if c == ']' {
            if depth == 1 {
                return Some(pos);
            }
            depth = depth - 1;
        } else if c == '[' {
            depth = depth + 1;
        }
        pos = pos + 1;
    }
    None
}

/// One dispatch of the execution loop: executes the source character at the
/// instruction pointer and leaves the state exactly as the small-step model
/// says, or reports the model's error with the state untouched. `input` is
/// the first character of the line read for `,`, `None` for an empty line;
/// every other instruction ignores it. The character a `.` produces always
/// goes to the live output sink; it is accumulated in `output` only when
/// `with_output` is set.
pub fn execute_step(
    program: &mut Program,
    code: &Vec<char>,
    with_output: bool,
    input: Option<char>,
) -> (result: Result<(), InterpreterError>)
    requires
        old(program).wf(),
        old(program)@.instruction_pointer < code@.len(),
        code@.len() < usize::MAX,
    ensures
        match result {
            Ok(()) => step(old(program)@, code@, with_output, input) == Ok::<
                StateModel,
                InterpreterError,
            >(final(program)@) && final(program).wf(),
            Err(e) => step(old(program)@, code@, with_output, input) == Err::<
                StateModel,
                InterpreterError,
            >(e) && final(program)@ == old(program)@,
        },
{
    let instruction = code[program.instruction_pointer];
    if instruction == '>' {
        if program.pointer + 2 >= program.memory.len() {
            return Err(InterpreterError::PointerOverflow);
        }
        program.pointer = program.pointer + 1;
        program.instruction_pointer = program.instruction_pointer + 1;
        Ok(())
    } else if instruction == '<' {
        if program.pointer == 0 {
            return Err(InterpreterError::PointerUnderflow);
        }
        program.pointer = program.pointer - 1;
        program.instruction_pointer = program.instruction_pointer + 1;
        Ok(())
    } else if instruction == '+' {
        let cell = program.memory[program.pointer];
        if cell == 255 {
            return Err(InterpreterError::CellOverflow);
        }
        program.memory.set(program.pointer, cell + 1);
        program.instruction_pointer = program.instruction_pointer + 1;
        Ok(())
    } else if instruction == '-' {
        let cell = program.memory[program.pointer];
        if cell == 0 {
            return Err(InterpreterError::CellUnderflow);
        }
        program.memory.set(program.pointer, cell - 1);
        program.instruction_pointer = program.instruction_pointer + 1;
        Ok(())
    } else if instruction == '.' {
        let cell = program.memory[program.pointer];
        emit_character(cell as char);
        if with_output {
            program.output.push(cell as char);
        }
        program.instruction_pointer = program.instruction_pointer + 1;
        Ok(())
    } else if instruction == ',' {
        match input {
            None => Err(InterpreterError::EmptyInputLine),
            Some(ch) => {
                let byte = (ch as u32 % 256) as u8;
                program.memory.set(program.pointer, byte);
                program.instruction_pointer = program.instruction_pointer + 1;
                Ok(())
            },
        }
    } else if instruction == '[' {
        if program.memory[program.pointer] == 0 {
            match find_matching_bracket(code, program.instruction_pointer + 1) {
                None => Err(InterpreterError::UnterminatedOpenBracket),
                Some(m) => {
                    program.instruction_pointer = m + 1;
                    Ok(())
                },
            }
        } else {
            program.loop_stack.push(program.instruction_pointer);
            program.instruction_pointer = program.instruction_pointer + 1;
            Ok(())
        }
    } else if instruction == ']' {
        match program.loop_stack.pop() {
            None => Err(InterpreterError::UnmatchedCloseBracket),
            Some(saved) => {
                program.instruction_pointer = saved;
                Ok(())
            },
        }
    } else {
        program.instruction_pointer = program.instruction_pointer + 1;
        Ok(())
    }
}

/// The execution loop: drives interpretation from wherever `program`
/// stands, one character per iteration, for at most `max_steps` dispatches.
/// Returns `Ok(true)` when the instruction pointer left the source (then it
/// equals the source length), `Ok(false)` when the budget ran out first
/// (then exactly `max_steps` dispatches happened), and the model's error
/// when a dispatch failed. The run witnessed in the contract feeds the
/// lines actually read from the external input source to `,`.
pub fn run_loop(
    program: &mut Program,
    code: &Vec<char>,
    with_output: bool,
    max_steps: u64,
) -> (result: Result<bool, InterpreterError>)
    requires
        old(program).wf(),
        within_code(old(program)@, code@.len()),
        code@.len() < usize::MAX,
    ensures
        match result {
            Ok(true) => {
                &&& final(program).wf()
                &&& final(program)@.instruction_pointer == code@.len()
                &&& exists|inputs: Seq<Option<char>>, n: nat|
                    run(old(program)@, code@, with_output, inputs, n) == RunResult::Halted(
                        final(program)@,
                    )
            },
            Ok(false) => {
                &&& final(program).wf()
                &&& within_code(final(program)@, code@.len())
                &&& exists|inputs: Seq<Option<char>>|
                    run(old(program)@, code@, with_output, inputs, max_steps as nat)
                        == RunResult::Going(final(program)@, Seq::<Option<char>>::empty())
            },
            Err(e) => exists|inputs: Seq<Option<char>>, n: nat|
                run(old(program)@, code@, with_output, inputs, n) == RunResult::Failed(e),
        },
{
    let ghost start = program@;
    let mut steps_done: u64 = 0;
    let ghost mut trace: Seq<Option<char>> = Seq::empty();
    while steps_done < max_steps
        invariant
            program.wf(),
            within_code(program@, code@.len()),
            code@.len() < usize::MAX,
            steps_done <= max_steps,
            start == old(program)@,
            run(start, code@, with_output, trace, steps_done as nat) == RunResult::Going(
                program@,
                Seq::<Option<char>>::empty(),
            ),
        decreases max_steps - steps_done,
    {
        if program.instruction_pointer >= code.len() {
            proof {
                lemma_run_compose(start, code@, with_output, trace, steps_done as nat, 1);
                assert(run(start, code@, with_output, trace, steps_done as nat + 1)
                    == RunResult::Halted(program@));
            }
            return Ok(true);
        }
        let instruction = code[program.instruction_pointer];
        let input: Option<char> = if instruction == ',' {
            read_line_first_char()
        } else {
            None
        };
        let ghost consumed = instruction == ',';
        let ghost extended = if consumed {
            trace.push(input)
        } else {
            trace
        };
        proof {
            if consumed {
                lemma_run_extra_inputs(
                    start,
                    code@,
                    with_output,
                    trace,
                    seq![input],
                    steps_done as nat,
                );
                assert(trace + seq![input] =~= extended);
                assert(Seq::<Option<char>>::empty() + seq![input] =~= seq![input]);
            }
            lemma_run_compose(start, code@, with_output, extended, steps_done as nat, 1);
        }
        let ghost before = program@;
        let ghost remaining: Seq<Option<char>> = if consumed {
            seq![input]
        } else {
            Seq::empty()
        };
        proof {
            assert(run(start, code@, with_output, extended, steps_done as nat)
                == RunResult::Going(before, remaining));
            if consumed {
                assert(remaining[0] == input);
                assert(remaining.drop_first() =~= Seq::<Option<char>>::empty());
            }
        }
        match execute_step(program, code, with_output, input) {
            Ok(()) => {
                proof {
                    reveal_with_fuel(run, 2);
                    lemma_step_stays_within(before, code@, with_output, input);
                    assert(run(before, code@, with_output, remaining, 1) == RunResult::Going(
                        program@,
                        Seq::<Option<char>>::empty(),
                    ));
                    assert(run(start, code@, with_output, extended, steps_done as nat + 1)
                        == RunResult::Going(program@, Seq::<Option<char>>::empty()));
                    trace = extended;
                }
            },
            Err(e) => {
                proof {
                    assert(run(before, code@, with_output, remaining, 1) == RunResult::Failed(e));
                    assert(run(start, code@, with_output, extended, steps_done as nat + 1)
                        == RunResult::Failed(e));
                }
                return Err(e);
            },
        }
        steps_done = steps_done + 1;
    }
    proof {
        assert(run(start, code@, with_output, trace, max_steps as nat) == RunResult::Going(
            program@,
            Seq::<Option<char>>::empty(),
        ));
    }
    Ok(false)
}

/// Interprets `code` from a fresh state, dispatching at most `max_steps`
/// instructions. The final program state is exposed for inspection whether
/// the run completed or merely exhausted its budget; a run that exhausts
/// its budget can be resumed with `run_loop`. Output streamed by `.` goes
/// to the live sink in every case and is mirrored into the state's
/// `output` exactly when `with_output` is set.
pub fn interpret(code: &Vec<char>, with_output: bool, max_steps: u64) -> (outcome: RunOutcome)
    requires
        code@.len() < usize::MAX,
    ensures
        match outcome {
            RunOutcome::Complete(program) => {
                &&& program.wf()
                &&& program@.instruction_pointer == code@.len()
                &&& exists|inputs: Seq<Option<char>>, n: nat|
                    run(initial_state(), code@, with_output, inputs, n) == RunResult::Halted(
                        program@,
                    )
            },
            RunOutcome::Unfinished(program) => {
                &&& program.wf()
                &&& within_code(program@, code@.len())
                &&& exists|inputs: Seq<Option<char>>|
                    run(initial_state(), code@, with_output, inputs, max_steps as nat)
                        == RunResult::Going(program@, Seq::<Option<char>>::empty())
            },
            RunOutcome::Stopped(e) => exists|inputs: Seq<Option<char>>, n: nat|
                run(initial_state(), code@, with_output, inputs, n) == RunResult::Failed(e),
        },
{
    let mut program = Program::new();
    match run_loop(&mut program, code, with_output, max_steps) {
        Ok(true) => RunOutcome::Complete(program),
        Ok(false) => RunOutcome::Unfinished(program),
        Err(e) => RunOutcome::Stopped(e),
    }
}

} // verus!
