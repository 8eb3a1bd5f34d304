use vstd::prelude::*;

use crate::semantics::bracket_delta;
use crate::semantics::find_match;
use crate::semantics::lemma_run_compose;
use crate::semantics::nesting;
use crate::semantics::run;
use crate::semantics::step;
use crate::semantics::RunResult;
use crate::state::initial_state;
use crate::state::resting_state;
use crate::state::InterpreterError;
use crate::state::StateModel;

verus! {

/// Peeling the first character off a nesting count.
proof fn lemma_nesting_unfold_front(code: Seq<char>, from: int, to: int)
    requires
        from < to,
    ensures
        nesting(code, from, to) == bracket_delta(code[from]) + nesting(code, from + 1, to),
    decreases to - from,
{
    if from + 1 < to {
        lemma_nesting_unfold_front(code, from, to - 1);
    } else {
        assert(nesting(code, from, from) == 0);
    }
}

/// Nesting counts add up over adjacent ranges.
proof fn lemma_nesting_split(code: Seq<char>, a: int, b: int, c: int)
    requires
        a <= b <= c,
    ensures
        nesting(code, a, c) == nesting(code, a, b) + nesting(code, b, c),
    decreases c - b,
{
    if b < c {
        lemma_nesting_split(code, a, b, c - 1);
    }
}

/// When the depth pending at `pos` is used up by the end of the source, the
/// skip scan finds the close bracket that uses it up: the first position
/// where the pending depth falls to zero.
proof fn lemma_find_match_found(code: Seq<char>, pos: int, depth: int)
    requires
        0 <= pos <= code.len(),
        depth >= 1,
        depth + nesting(code, pos, code.len() as int) <= 0,
    ensures
        find_match(code, pos, depth) matches Some(m) && pos <= m < code.len() && code[m] == ']'
            && depth + nesting(code, pos, m) == 1 && (forall|k: int|
            pos <= k <= m ==> depth + nesting(code, pos, k) >= 1),
    decreases code.len() - pos,
{
    if pos == code.len() {
        assert(nesting(code, pos, pos) == 0);
        assert(false);
    } else if code[pos] == ']' && depth == 1 {
        assert(nesting(code, pos, pos) == 0);
    } else {
        let d2 = depth + bracket_delta(code[pos]);
        lemma_nesting_unfold_front(code, pos, code.len() as int);
        lemma_find_match_found(code, pos + 1, d2);
        let m = find_match(code, pos + 1, d2)->0;
        lemma_nesting_unfold_front(code, pos, m);
        assert forall|k: int| pos <= k <= m implies depth + nesting(code, pos, k) >= 1 by {
            if k > pos {
                lemma_nesting_unfold_front(code, pos, k);
            }
        };
    }
}

/// When the depth pending at `pos` never falls to zero before the source
/// ends, the skip scan runs off the end and finds nothing.
proof fn lemma_find_match_exhausted(code: Seq<char>, pos: int, depth: int)
    requires
        0 <= pos <= code.len(),
        forall|k: int| pos <= k <= code.len() ==> depth + nesting(code, pos, k) >= 1,
    ensures
        find_match(code, pos, depth) is None,
    decreases code.len() - pos,
{
    if pos < code.len() {
        assert(nesting(code, pos, pos) == 0);
        assert(nesting(code, pos, pos + 1) == bracket_delta(code[pos]));
        if code[pos] == ']' && depth == 1 {
            assert(depth + nesting(code, pos, pos + 1) >= 1);
            assert(false);
        } else {
            let d2 = depth + bracket_delta(code[pos]);
            assert forall|k: int| pos + 1 <= k <= code.len() implies d2 + #[trigger] nesting(
                code,
                pos + 1,
                k,
            ) >= 1 by {
                lemma_nesting_unfold_front(code, pos, k);
                assert(depth + nesting(code, pos, k) >= 1);
            };
            lemma_find_match_exhausted(code, pos + 1, d2);
        }
    }
}

/// Only open and close brackets make up `code`.
pub open spec fn only_brackets(code: Seq<char>) -> bool {
    forall|i: int| 0 <= i < code.len() ==> (code[i] == '[' || code[i] == ']')
}

/// The bracket structure of `code[from..]` is balanced: the nesting depth
/// never goes negative and returns to zero at the end of the source.
pub open spec fn balanced_from(code: Seq<char>, from: int) -> bool {
    &&& nesting(code, from, code.len() as int) == 0
    &&& forall|k: int| from <= k <= code.len() ==> nesting(code, from, k) >= 0
}

/// The whole source has balanced bracket structure.
pub open spec fn balanced(code: Seq<char>) -> bool {
    balanced_from(code, 0)
}

/// A run over balanced brackets and a zero tape from position `from` skips
/// every loop and halts with nothing else changed.
proof fn lemma_balanced_run(
    code: Seq<char>,
    with_output: bool,
    inputs: Seq<Option<char>>,
    from: int,
)
    requires
        only_brackets(code),
        0 <= from <= code.len(),
        balanced_from(code, from),
    ensures
        exists|n: nat|
            #[trigger] run(resting_state(from as nat), code, with_output, inputs, n)
                == RunResult::Halted(
                resting_state(code.len()),
            ),
    decreases code.len() - from,
{
    let s = resting_state(from as nat);
    if from == code.len() {
        assert(run(s, code, with_output, inputs, 1) == RunResult::Halted(s));
    } else {
        assert(nesting(code, from, from) == 0);
        assert(nesting(code, from, from + 1) == bracket_delta(code[from]));
        assert(code[from] == '[');
        lemma_nesting_unfold_front(code, from, code.len() as int);
        lemma_find_match_found(code, from + 1, 1);
        let m = find_match(code, from + 1, 1)->0;
        let s2 = StateModel { instruction_pointer: (m + 1) as nat, ..s };
        assert(s2 =~= resting_state((m + 1) as nat));
        assert(s.memory[s.pointer as int] == 0);
        assert(step(s, code, with_output, None) == Ok::<StateModel, InterpreterError>(s2));
        // the suffix after the matching close bracket is balanced again
        assert(nesting(code, from + 1, m + 1) == nesting(code, from + 1, m) + bracket_delta(
            code[m],
        ));
        lemma_nesting_split(code, from + 1, m + 1, code.len() as int);
        assert forall|k: int| m + 1 <= k <= code.len() implies #[trigger] nesting(code, m + 1, k)
            >= 0 by {
            lemma_nesting_split(code, from + 1, m + 1, k);
            lemma_nesting_unfold_front(code, from, k);
            assert(nesting(code, from, k) >= 0);
        };
        lemma_balanced_run(code, with_output, inputs, m + 1);
        let n2 = choose|n: nat|
            #[trigger] run(resting_state((m + 1) as nat), code, with_output, inputs, n)
                == RunResult::Halted(resting_state(code.len()));
        assert(run(s, code, with_output, inputs, n2 + 1) == RunResult::Halted(
            resting_state(code.len()),
        ));
    }
}

/// Balanced loops entered over a zero cell never run their bodies: a source
/// of nothing but balanced brackets, interpreted from a fresh state, halts
/// with the tape, the data pointer, the loop stack and the output untouched
/// and the instruction pointer one past the last close bracket.
pub proof fn lemma_balanced_brackets_skip(
    code: Seq<char>,
    with_output: bool,
    inputs: Seq<Option<char>>,
)
    requires
        only_brackets(code),
        balanced(code),
    ensures
        exists|n: nat|
            #[trigger] run(initial_state(), code, with_output, inputs, n) == RunResult::Halted(
                resting_state(code.len()),
            ),
{
    assert(initial_state() =~= resting_state(0));
    lemma_balanced_run(code, with_output, inputs, 0);
}

/// A `[` dispatched over a zero cell moves the instruction pointer to
/// exactly one past the matching `]` and changes nothing else: the loop
/// body never executes.
pub proof fn lemma_skip_lands_past_match(
    s: StateModel,
    code: Seq<char>,
    with_output: bool,
    input: Option<char>,
    m: int,
)
    requires
        s.instruction_pointer < code.len(),
        code[s.instruction_pointer as int] == '[',
        s.memory[s.pointer as int] == 0,
        find_match(code, s.instruction_pointer as int + 1, 1) == Some(m),
    ensures
        step(s, code, with_output, input) == Ok::<StateModel, InterpreterError>(
            StateModel { instruction_pointer: (m + 1) as nat, ..s },
        ),
{
}

/// A source of `n` increments.
pub open spec fn increment_code(n: nat) -> Seq<char> {
    Seq::new(n, |i: int| '+')
}

/// The fresh state after `count` increments of cell 0, with the instruction
/// pointer at `ip`.
pub open spec fn incremented_state(count: nat, ip: nat) -> StateModel {
    StateModel {
        memory: initial_state().memory.update(0, count as u8),
        instruction_pointer: ip,
        ..initial_state()
    }
}

/// Running a stretch of `+` characters: each one raises cell 0 by one and
/// advances the instruction pointer, as long as the count stays within a
/// byte.
proof fn lemma_plus_segment(
    code: Seq<char>,
    from: nat,
    to: nat,
    with_output: bool,
    inputs: Seq<Option<char>>,
)
    requires
        from <= to <= code.len(),
        to <= 255,
        forall|i: int| from <= i < to ==> code[i] == '+',
    ensures
        run(incremented_state(from, from), code, with_output, inputs, (to - from) as nat)
            == RunResult::Going(incremented_state(to, to), inputs),
    decreases to - from,
{
    if from < to {
        let s = incremented_state(from, from);
        let s2 = StateModel {
            memory: s.memory.update(0, (from + 1) as u8),
            instruction_pointer: (from + 1) as nat,
            ..s
        };
        assert(s.memory[0] == from as u8);
        assert(s2.memory =~= incremented_state((from + 1) as nat, (from + 1) as nat).memory);
        assert(s2 =~= incremented_state((from + 1) as nat, (from + 1) as nat));
        assert(step(s, code, with_output, None) == Ok::<StateModel, InterpreterError>(s2));
        lemma_plus_segment(code, (from + 1) as nat, to, with_output, inputs);
        assert(run(s, code, with_output, inputs, (to - from) as nat) == RunResult::Going(
            incremented_state(to, to),
            inputs,
        ));
    }
}

/// `n` increments applied to a fresh cell leave the cell holding exactly
/// `n`, for every count a byte can hold.
pub proof fn lemma_increments_count(n: nat, with_output: bool, inputs: Seq<Option<char>>)
    requires
        n <= 255,
    ensures
        run(initial_state(), increment_code(n), with_output, inputs, n + 1) == RunResult::Halted(
            incremented_state(n, n),
        ),
        incremented_state(n, n).memory[0] == n as u8,
{
    let code = increment_code(n);
    assert(initial_state().memory[0] == 0u8);
    assert(initial_state().memory =~= incremented_state(0, 0).memory);
    assert(initial_state() =~= incremented_state(0, 0));
    lemma_plus_segment(code, 0, n, with_output, inputs);
    lemma_run_compose(initial_state(), code, with_output, inputs, n, 1);
    assert(run(incremented_state(n, n), code, with_output, inputs, 1) == RunResult::Halted(
        incremented_state(n, n),
    ));
}

/// One more increment past 255 is a fatal cell overflow: cells do not wrap.
pub proof fn lemma_increment_overflow(with_output: bool, inputs: Seq<Option<char>>)
    ensures
        run(initial_state(), increment_code(256), with_output, inputs, 256) == RunResult::Failed(
            InterpreterError::CellOverflow,
        ),
{
    let code = increment_code(256);
    assert(initial_state().memory[0] == 0u8);
    assert(initial_state().memory =~= incremented_state(0, 0).memory);
    assert(initial_state() =~= incremented_state(0, 0));
    lemma_plus_segment(code, 0, 255, with_output, inputs);
    lemma_run_compose(initial_state(), code, with_output, inputs, 255, 1);
    let s = incremented_state(255, 255);
    assert(s.memory[0] == 255u8);
    assert(run(s, code, with_output, inputs, 1) == RunResult::Failed(
        InterpreterError::CellOverflow,
    ));
}

/// A source that pumps a fresh cell to a character code and emits it.
pub open spec fn echo_code(n: nat) -> Seq<char> {
    increment_code(n).push('.')
}

/// Round trip through the output boundary: pumping a cell to a character
/// code and emitting it with `.` accumulates exactly that character — the
/// cell value reinterpreted as a character code — in the inspectable
/// output.
pub proof fn lemma_echo_round_trip(n: nat, inputs: Seq<Option<char>>)
    requires
        n <= 255,
    ensures
        ({
            let ending = StateModel {
                output: seq![(n as u8) as char],
                instruction_pointer: n + 1,
                ..incremented_state(n, n)
            };
            run(initial_state(), echo_code(n), true, inputs, n + 2) == RunResult::Halted(ending)
        }),
{
    let code = echo_code(n);
    let s = incremented_state(n, n);
    let ending = StateModel { output: seq![(n as u8) as char], instruction_pointer: n + 1, ..s };
    assert(code.len() == n + 1);
    assert(code[n as int] == '.');
    assert forall|i: int| 0 <= i < n implies code[i] == '+' by {
        assert(code[i] == increment_code(n)[i]);
    };
    assert(initial_state().memory[0] == 0u8);
    assert(initial_state().memory =~= incremented_state(0, 0).memory);
    assert(initial_state() =~= incremented_state(0, 0));
    lemma_plus_segment(code, 0, n, true, inputs);
    lemma_run_compose(initial_state(), code, true, inputs, n, 2);
    assert(s.memory[0] == n as u8);
    assert(s.output.push((n as u8) as char) =~= seq![(n as u8) as char]);
    assert(step(s, code, true, None) == Ok::<StateModel, InterpreterError>(ending));
    reveal_with_fuel(run, 3);
    assert(run(s, code, true, inputs, 2) == RunResult::Halted(ending));
}

/// Pointer escapes are fatal: `<` at cell 0 underflows, and `>` that would
/// bring the pointer to the boundary — one short of the last index —
/// overflows.
pub proof fn lemma_pointer_escape_fails(
    s: StateModel,
    code: Seq<char>,
    with_output: bool,
    input: Option<char>,
)
    requires
        s.instruction_pointer < code.len(),
    ensures
        (code[s.instruction_pointer as int] == '<' && s.pointer == 0) ==> step(
            s,
            code,
            with_output,
            input,
        ) == Err::<StateModel, InterpreterError>(InterpreterError::PointerUnderflow),
        (code[s.instruction_pointer as int] == '>' && s.pointer + 2 >= s.memory.len()) ==> step(
            s,
            code,
            with_output,
            input,
        ) == Err::<StateModel, InterpreterError>(InterpreterError::PointerOverflow),
{
}

/// `]` dispatched with an empty loop stack is a fatal unmatched close
/// bracket.
pub proof fn lemma_unmatched_close_fails(
    s: StateModel,
    code: Seq<char>,
    with_output: bool,
    input: Option<char>,
)
    requires
        s.instruction_pointer < code.len(),
        code[s.instruction_pointer as int] == ']',
        s.loop_stack.len() == 0,
    ensures
        step(s, code, with_output, input) == Err::<StateModel, InterpreterError>(
            InterpreterError::UnmatchedCloseBracket,
        ),
{
}

/// A `[` over a zero cell whose nesting depth never falls back to zero
/// before the source ends sends the skip scan off the end: a fatal
/// unterminated open bracket.
pub proof fn lemma_unterminated_open_fails(
    s: StateModel,
    code: Seq<char>,
    with_output: bool,
    input: Option<char>,
)
    requires
        s.instruction_pointer < code.len(),
        code[s.instruction_pointer as int] == '[',
        s.memory[s.pointer as int] == 0,
        forall|k: int|
            s.instruction_pointer + 1 <= k <= code.len() ==> 1 + #[trigger] nesting(
                code,
                s.instruction_pointer as int + 1,
                k,
            ) >= 1,
    ensures
        step(s, code, with_output, input) == Err::<StateModel, InterpreterError>(
            InterpreterError::UnterminatedOpenBracket,
        ),
{
    lemma_find_match_exhausted(code, s.instruction_pointer as int + 1, 1);
}

/// A source with no `,` reads nothing: whatever input lines are offered,
/// the run passes through the same states and ends the same way.
pub proof fn lemma_run_ignores_inputs(
    s: StateModel,
    code: Seq<char>,
    with_output: bool,
    inputs1: Seq<Option<char>>,
    inputs2: Seq<Option<char>>,
    n: nat,
)
    requires
        forall|i: int| 0 <= i < code.len() ==> code[i] != ',',
    ensures
        run(s, code, with_output, inputs1, n) matches RunResult::Halted(h) ==> run(
            s,
            code,
            with_output,
            inputs2,
            n,
        ) == RunResult::Halted(h),
        run(s, code, with_output, inputs1, n) matches RunResult::Failed(e) ==> run(
            s,
            code,
            with_output,
            inputs2,
            n,
        ) == RunResult::Failed(e),
        run(s, code, with_output, inputs1, n) matches RunResult::Going(s2, rest) ==> (run(
            s,
            code,
            with_output,
            inputs2,
            n,
        ) matches RunResult::Going(s3, rest2) && s3 == s2),
    decreases n,
{
    if n > 0 && s.instruction_pointer < code.len() {
        match step(s, code, with_output, None) {
            Ok(s2) => {
                lemma_run_ignores_inputs(s2, code, with_output, inputs1, inputs2, (n - 1) as nat);
            },
            Err(_) => {},
        }
    }
}

} // verus!
