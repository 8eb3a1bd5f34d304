use std::io::Write;

use vstd::prelude::*;

verus! {

/// Sends one character to the live output sink.
/// Relies on std::io::Stdout and the write macro: the character goes to
/// standard output; a failed write is ignored, as the sink is unbuffered
/// best-effort.
#[verifier::external_body]
pub(crate) fn emit_character(c: char) {
    let mut sink = std::io::stdout();
    let _ = write!(sink, "{}", c);
}

/// Reads one line from the external input source and hands back its first
/// character, if the line produced any; the rest of the line is discarded.
/// Relies on std::io::Stdin::read_line; a read error counts as a line with
/// no characters. Nothing is promised of the result: it depends on what the
/// environment supplies.
#[verifier::external_body]
pub(crate) fn read_line_first_char() -> (first: Option<char>) {
    let mut line = String::new();
    match std::io::stdin().read_line(&mut line) {
        Ok(_) => line.chars().next(),
        Err(_) => None,
    }
}

} // verus!
