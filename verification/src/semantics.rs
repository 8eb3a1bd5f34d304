use vstd::prelude::*;

use crate::state::InterpreterError;
use crate::state::StateModel;

verus! {

/// Contribution of one source character to the bracket-nesting depth.
pub open spec fn bracket_delta(c: char) -> int {
    if c == '[' {
        1
    } else if c == ']' {
        -1
    } else {
        0
    }
}

/// Net bracket-nesting depth of the characters `code[from..to)`.
pub open spec fn nesting(code: Seq<char>, from: int, to: int) -> int
    decreases to - from,
{
    if from >= to {
        0
    } else {
        nesting(code, from, to - 1) + bracket_delta(code[to - 1])
    }
}

/// The forward scan performed when a loop is entered with a zero cell:
/// starting at `pos` with `depth` loops still open, the position of the
/// close bracket that brings the depth to zero, or `None` when the source
/// ends first.
pub open spec fn find_match(code: Seq<char>, pos: int, depth: int) -> Option<int>
    decreases code.len() - pos,
{
    if pos < 0 || pos >= code.len() {
        None
    } else if code[pos] == ']' && depth == 1 {
        Some(pos)
    } else {
        find_match(code, pos + 1, depth + bracket_delta(code[pos]))
    }
}

/// The byte stored by `,`: the character's code, truncated to its low eight
/// bits.
pub open spec fn byte_of_char(c: char) -> u8 {
    (c as u32 % 256) as u8
}

/// One dispatch of the execution loop: the effect of the source character at
/// the instruction pointer on state `s`. Every character not in the
/// instruction set is a no-op that advances the instruction pointer. `input`
/// is the first character of the line read for `,` (`None` for an empty
/// line) and is ignored by every other instruction. Loop-close repositioning
/// already includes the uniform advance: `]` lands back on the matching `[`
/// for re-evaluation, and a skipping `[` lands one past the matching `]`.
pub open spec fn step(
    s: StateModel,
    code: Seq<char>,
    with_output: bool,
    input: Option<char>,
) -> Result<StateModel, InterpreterError> {
    let c = code[s.instruction_pointer as int];
    let cell = s.memory[s.pointer as int];
    if c == '>' {
        if s.pointer + 2 >= s.memory.len() {
            Err(InterpreterError::PointerOverflow)
        } else {
            Ok(
                StateModel {
                    pointer: (s.pointer + 1) as nat,
                    instruction_pointer: (s.instruction_pointer + 1) as nat,
                    ..s
                },
            )
        }
    } else if c == '<' {
        if s.pointer == 0 {
            Err(InterpreterError::PointerUnderflow)
        } else {
            Ok(
                StateModel {
                    pointer: (s.pointer - 1) as nat,
                    instruction_pointer: (s.instruction_pointer + 1) as nat,
                    ..s
                },
            )
        }
    } else if c == '+' {
        if cell == 255 {
            Err(InterpreterError::CellOverflow)
        } else {
            Ok(
                StateModel {
                    memory: s.memory.update(s.pointer as int, (cell + 1) as u8),
                    instruction_pointer: (s.instruction_pointer + 1) as nat,
                    ..s
                },
            )
        }
    } else if c == '-' {
        if cell == 0 {
            Err(InterpreterError::CellUnderflow)
        } else {
            Ok(
                StateModel {
                    memory: s.memory.update(s.pointer as int, (cell - 1) as u8),
                    instruction_pointer: (s.instruction_pointer + 1) as nat,
                    ..s
                },
            )
        }
    } else if c == '.' {
        Ok(
            StateModel {
                output: if with_output {
                    s.output.push(cell as char)
                } else {
                    s.output
                },
                instruction_pointer: (s.instruction_pointer + 1) as nat,
                ..s
            },
        )
    } else if c == ',' {
        match input {
            None => Err(InterpreterError::EmptyInputLine),
            Some(ch) => Ok(
                StateModel {
                    memory: s.memory.update(s.pointer as int, byte_of_char(ch)),
                    instruction_pointer: (s.instruction_pointer + 1) as nat,
                    ..s
                },
            ),
        }
    } else if c == '[' {
        if cell == 0 {
            match find_match(code, s.instruction_pointer as int + 1, 1) {
                None => Err(InterpreterError::UnterminatedOpenBracket),
                Some(m) => Ok(StateModel { instruction_pointer: (m + 1) as nat, ..s }),
            }
        } else {
            Ok(
                StateModel {
                    loop_stack: s.loop_stack.push(s.instruction_pointer as usize),
                    instruction_pointer: (s.instruction_pointer + 1) as nat,
                    ..s
                },
            )
        }
    } else if c == ']' {
        if s.loop_stack.len() == 0 {
            Err(InterpreterError::UnmatchedCloseBracket)
        } else {
            Ok(
                StateModel {
                    instruction_pointer: s.loop_stack.last() as nat,
                    loop_stack: s.loop_stack.drop_last(),
                    ..s
                },
            )
        }
    } else {
        Ok(StateModel { instruction_pointer: (s.instruction_pointer + 1) as nat, ..s })
    }
}

/// Where a run stands after a given number of dispatches.
pub ghost enum RunResult {
    /// Still inside the source; carries the input lines not yet consumed.
    Going(StateModel, Seq<Option<char>>),
    /// The instruction pointer left the source bounds.
    Halted(StateModel),
    /// A fatal error stopped the run.
    Failed(InterpreterError),
}

/// `n` dispatches of the execution loop from state `s`. Each entry of
/// `inputs` is one line offered to `,`, consumed front to back; a `,`
/// executed with no line left behaves as an empty line. `Halted` and
/// `Failed` are absorbing.
pub open spec fn run(
    s: StateModel,
    code: Seq<char>,
    with_output: bool,
    inputs: Seq<Option<char>>,
    n: nat,
) -> RunResult
    decreases n,
{
    if n == 0 {
        RunResult::Going(s, inputs)
    } else if s.instruction_pointer >= code.len() {
        RunResult::Halted(s)
    } else {
        let wants_input = code[s.instruction_pointer as int] == ',';
        let input = if wants_input && inputs.len() > 0 {
            inputs[0]
        } else {
            None
        };
        let rest = if wants_input && inputs.len() > 0 {
            inputs.drop_first()
        } else {
            inputs
        };
        match step(s, code, with_output, input) {
            Ok(s2) => run(s2, code, with_output, rest, (n - 1) as nat),
            Err(e) => RunResult::Failed(e),
        }
    }
}

/// The state points into a source of length `code_len`: the instruction
/// pointer has not passed the end, and every saved loop checkpoint lies
/// inside the source. Every dispatch preserves this, so a run from such a
/// state halts with the instruction pointer exactly at the end.
pub open spec fn within_code(s: StateModel, code_len: nat) -> bool {
    &&& s.instruction_pointer <= code_len
    &&& forall|k: int| 0 <= k < s.loop_stack.len() ==> (s.loop_stack[k] as nat) < code_len
}

/// One dispatch from a state that points into the source leaves a state
/// that still does.
pub proof fn lemma_step_stays_within(
    s: StateModel,
    code: Seq<char>,
    with_output: bool,
    input: Option<char>,
)
    requires
        within_code(s, code.len()),
        s.instruction_pointer < code.len(),
    ensures
        match step(s, code, with_output, input) {
            Ok(s2) => within_code(s2, code.len()),
            Err(_) => true,
        },
{
    if code[s.instruction_pointer as int] == '[' && s.memory[s.pointer as int] == 0 {
        lemma_find_match_in_bounds(code, s.instruction_pointer as int + 1, 1);
    }
}

/// Whatever `find_match` finds lies inside the source and is a close
/// bracket.
pub proof fn lemma_find_match_in_bounds(code: Seq<char>, pos: int, depth: int)
    requires
        0 <= pos <= code.len(),
    ensures
        find_match(code, pos, depth) matches Some(m) ==> pos <= m < code.len() && code[m]
            == ']',
    decreases code.len() - pos,
{
    if pos < code.len() && !(code[pos] == ']' && depth == 1) {
        lemma_find_match_in_bounds(code, pos + 1, depth + bracket_delta(code[pos]));
    }
}

/// Splitting a run: `a + b` dispatches are `a` dispatches followed by `b`
/// more from wherever the first `a` left off.
pub proof fn lemma_run_compose(
    s: StateModel,
    code: Seq<char>,
    with_output: bool,
    inputs: Seq<Option<char>>,
    a: nat,
    b: nat,
)
    ensures
        run(s, code, with_output, inputs, a + b) == (match run(s, code, with_output, inputs, a) {
            RunResult::Going(s2, rest) => run(s2, code, with_output, rest, b),
            r => r,
        }),
    decreases a,
{
    if a > 0 && s.instruction_pointer < code.len() {
        let wants_input = code[s.instruction_pointer as int] == ',';
        let input = if wants_input && inputs.len() > 0 {
            inputs[0]
        } else {
            None
        };
        let rest = if wants_input && inputs.len() > 0 {
            inputs.drop_first()
        } else {
            inputs
        };
        match step(s, code, with_output, input) {
            Ok(s2) => {
                lemma_run_compose(s2, code, with_output, rest, (a - 1) as nat, b);
                assert((a + b - 1) as nat == ((a - 1) as nat + b) as nat);
            },
            Err(_) => {},
        }
    }
}

/// Input lines offered beyond those a run consumes do not change it: they
/// ride along unread.
pub proof fn lemma_run_extra_inputs(
    s: StateModel,
    code: Seq<char>,
    with_output: bool,
    inputs: Seq<Option<char>>,
    extra: Seq<Option<char>>,
    n: nat,
)
    ensures
        run(s, code, with_output, inputs, n) matches RunResult::Going(s2, rest) ==> run(
            s,
            code,
            with_output,
            inputs + extra,
            n,
        ) == RunResult::Going(s2, rest + extra),
        run(s, code, with_output, inputs, n) matches RunResult::Halted(h) ==> run(
            s,
            code,
            with_output,
            inputs + extra,
            n,
        ) == RunResult::Halted(h),
    decreases n,
{
    if n == 0 || s.instruction_pointer >= code.len() {
    } else {
        let wants_input = code[s.instruction_pointer as int] == ',';
        if wants_input && inputs.len() == 0 {
            // the plain run fails with an empty input line; nothing to show
        } else {
            let input = if wants_input {
                inputs[0]
            } else {
                None
            };
            let rest = if wants_input {
                inputs.drop_first()
            } else {
                inputs
            };
            if wants_input {
                assert((inputs + extra)[0] == inputs[0]);
                assert((inputs + extra).drop_first() =~= rest + extra);
            }
            match step(s, code, with_output, input) {
                Ok(s2) => {
                    lemma_run_extra_inputs(s2, code, with_output, rest, extra, (n - 1) as nat);
                },
                Err(_) => {},
            }
        }
    }
}

} // verus!
