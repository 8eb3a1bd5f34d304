use vstd::prelude::*;

verus! {

/// Number of byte cells on the tape.
pub const MEMORY_SIZE: usize = 5000;

/// The reason a run stopped before the instruction pointer left the source.
///
/// Every invariant violation is fatal and non-recoverable; the kinds are
/// distinguished so that callers and tests can tell which invariant failed.
#[derive(Clone, Copy, Debug, PartialEq, Eq)]
pub enum InterpreterError {
    /// `<` was executed while the data pointer was already at cell 0.
    PointerUnderflow,
    /// `>` would have brought the data pointer to the last cell, which the
    /// boundary check keeps one short of the last index.
    PointerOverflow,
    /// `-` was executed while the current cell held 0; cells do not wrap.
    CellUnderflow,
    /// `+` was executed while the current cell held 255; cells do not wrap.
    CellOverflow,
    /// `]` was executed while the loop stack was empty.
    UnmatchedCloseBracket,
    /// A skip scan started by `[` ran off the end of the source.
    UnterminatedOpenBracket,
    /// `,` read a line that produced no characters.
    EmptyInputLine,
}

/// Mathematical model of one interpreter state.
#[verifier::ext_equal]
pub ghost struct StateModel {
    /// The tape: a fixed-length sequence of byte cells.
    pub memory: Seq<u8>,
    /// Index of the currently active memory cell.
    pub pointer: nat,
    /// Index of the next source character to execute.
    pub instruction_pointer: nat,
    /// Saved instruction-pointer checkpoints, one per open loop.
    pub loop_stack: Seq<usize>,
    /// Every character produced by `.` while accumulation was enabled.
    pub output: Seq<char>,
}

/// The running interpreter's state, mutated in place by every instruction.
pub struct Program {
    /// The memory of the program.
    pub memory: Vec<u8>,
    /// The pointer to the current memory cell.
    pub pointer: usize,
    /// The pointer to the current instruction.
    pub instruction_pointer: usize,
    /// The stack of loop pointers.
    pub loop_stack: Vec<usize>,
    /// The output of the program.
    pub output: Vec<char>,
}

impl View for Program {
    type V = StateModel;

    open spec fn view(&self) -> StateModel {
        StateModel {
            memory: self.memory@,
            pointer: self.pointer as nat,
            instruction_pointer: self.instruction_pointer as nat,
            loop_stack: self.loop_stack@,
            output: self.output@,
        }
    }
}

/// The state invariant: the tape never changes length, and the data pointer
/// stays strictly below the last cell, which `>` refuses to enter.
pub open spec fn state_inv(s: StateModel) -> bool {
    &&& s.memory.len() == MEMORY_SIZE
    &&& s.pointer + 1 < s.memory.len()
}

/// The state every run starts from: an all-zero tape, both pointers at 0,
/// no open loops and no output.
pub open spec fn initial_state() -> StateModel {
    StateModel {
        memory: Seq::new(MEMORY_SIZE as nat, |i: int| 0u8),
        pointer: 0,
        instruction_pointer: 0,
        loop_stack: Seq::empty(),
        output: Seq::empty(),
    }
}

/// The initial state with the instruction pointer moved to `ip`: what a run
/// looks like while it has not yet touched the tape or produced output.
pub open spec fn resting_state(ip: nat) -> StateModel {
    StateModel { instruction_pointer: ip, ..initial_state() }
}

impl Program {
    /// Well-formedness: the modelled state satisfies the state invariant.
    pub open spec fn wf(&self) -> bool {
        state_inv(self@)
    }

    /// A fresh program state for one interpretation run.
    pub fn new() -> (result: Self)
        ensures
            result@ == initial_state(),
            result.wf(),
    {
        let mut memory: Vec<u8> = Vec::new();
        let mut i: usize = 0;
        while i < MEMORY_SIZE
            invariant
                i <= MEMORY_SIZE,
                memory@.len() == i,
                forall|k: int| 0 <= k < i ==> memory@[k] == 0u8,
            decreases MEMORY_SIZE - i,
        {
            memory.push(0);
            i = i + 1;
        }
        let result = Program {
            memory,
            pointer: 0,
            instruction_pointer: 0,
            loop_stack: Vec::new(),
            output: Vec::new(),
        };
        proof {
            assert(result@.memory =~= initial_state().memory);
            assert(result@ =~= initial_state());
        }
        result
    }
}

} // verus!
