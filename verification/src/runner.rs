//! Running a whole program, and what is kept of it afterwards.

use vstd::prelude::*;
use vstd::string::*;
use crate::error::{lemma_texts_differ, ForthError};
use crate::interpreter::Interpreter;
use crate::machine::Machine;
use crate::parser::lex;
use crate::program::{canonical, run_all, Run, World};
use crate::text::{chars_of, count_of, decimal, parse_count, push_decimal};

verus! {

/// What a finished run hands to its caller.
pub struct Report {
    /// Everything the program wrote, then the text of the failure that
    /// stopped it, if one did.
    pub output: String,
    /// The values that are kept of the stack, the oldest first.
    pub stack: Vec<i16>,
}

/// The state in which every program starts: nothing on the stack, nothing
/// defined, nothing written.
pub open spec fn fresh(capacity: nat) -> World {
    World {
        machine: Machine { stack: Seq::empty(), capacity, output: Seq::empty() },
        dict: Map::empty(),
    }
}

/// What the caller is shown of a run: the output, and behind it the text
/// of the failure.
pub open spec fn shown(r: Run) -> Seq<char> {
    match r.error {
        Some(e) => r.world.machine.output + e.text(),
        None => r.world.machine.output,
    }
}

/// What is kept of the stack: all of it after a run without failure and
/// after an overflow, nothing after any other failure.
pub open spec fn kept(r: Run) -> Seq<i16> {
    match r.error {
        None => r.world.machine.stack,
        Some(ForthError::StackOverflow) => r.world.machine.stack,
        Some(_) => Seq::empty(),
    }
}

/// Runs a program from source text on a new interpreter whose stack holds
/// up to `stack_size` values.
pub fn run_program(code: &str, stack_size: usize) -> (report: Report)
    ensures
        report.output@ == shown(run_all(canonical(lex(code@)), fresh(stack_size as nat))),
        report.stack@ == kept(run_all(canonical(lex(code@)), fresh(stack_size as nat))),
{
    let ghost r = run_all(canonical(lex(code@)), fresh(stack_size as nat));
    let mut interpreter = Interpreter::new(stack_size);
    match interpreter.parse_line(code) {
        Ok(()) => Report {
            output: interpreter.output().to_string(),
            stack: interpreter.stack_to_vec(),
        },
        Err(e) => {
            proof {
                lemma_texts_differ(r.error->0, ForthError::StackOverflow);
            }
            let mut output = interpreter.output().to_string();
            output.append(e.as_str());
            let stack = if e.as_str().eq("stack-overflow") {
                interpreter.stack_to_vec()
            } else {
                Vec::new()
            };
            Report { output, stack }
        },
    }
}

/// The text that stores a stack: each value in decimal on a line of its
/// own, the oldest first.
pub open spec fn stack_lines(stack: Seq<i16>) -> Seq<char>
    decreases stack.len(),
{
    if stack.len() == 0 {
        Seq::empty()
    } else {
        stack_lines(stack.drop_last()) + decimal(stack.last() as int).push('\n')
    }
}

/// Writes a stack down as text, one value per line.
pub fn render_stack(stack: &Vec<i16>) -> (text: String)
    ensures
        text@ == stack_lines(stack@),
{
    let mut text = String::new();
    let mut i: usize = 0;
    while i < stack.len()
        invariant
            i <= stack.len(),
            text@ == stack_lines(stack@.take(i as int)),
        decreases stack.len() - i,
    {
        push_decimal(&mut text, stack[i]);
        text.push('\n');
        assert(stack@.take(i + 1).drop_last() =~= stack@.take(i as int));
        i += 1;
    }
    assert(stack@.take(stack.len() as int) =~= stack@);
    text
}

/// The size of the stack in bytes where none is asked for.
pub const DEFAULT_STACK_BYTES: usize = 131072;

/// The number of bytes that one value on the stack takes.
pub const CELL_BYTES: usize = 2;

/// Whether `prefix` stands at the beginning of `s`.
pub open spec fn begins_with(s: Seq<char>, prefix: Seq<char>) -> bool {
    prefix.len() <= s.len() && s.subrange(0, prefix.len() as int) == prefix
}

/// The part of a stack-size parameter that holds the number: what follows
/// `stack-size=`, or all of it where it does not begin so.
pub open spec fn budget_text(param: Seq<char>) -> Seq<char> {
    if begins_with(param, "stack-size="@) {
        param.subrange("stack-size="@.len() as int, param.len() as int)
    } else {
        param
    }
}

/// The number of bytes that a stack-size parameter asks for: its number,
/// or the default where there is no parameter or it holds no number.
pub open spec fn budget_of(param: Option<Seq<char>>) -> usize {
    match param {
        Some(text) => match count_of(budget_text(text)) {
            Some(bytes) => bytes,
            None => DEFAULT_STACK_BYTES,
        },
        None => DEFAULT_STACK_BYTES,
    }
}

/// Tells whether `prefix` stands at the beginning of `chars`.
pub fn starts_with(chars: &Vec<char>, prefix: &Vec<char>) -> (r: bool)
    ensures
        r == begins_with(chars@, prefix@),
{
    if prefix.len() > chars.len() {
        return false;
    }
    let mut i: usize = 0;
    while i < prefix.len()
        invariant
            i <= prefix.len() <= chars.len(),
            chars@.subrange(0, i as int) == prefix@.subrange(0, i as int),
        decreases prefix.len() - i,
    {
        if chars[i] != prefix[i] {
            return false;
        }
        i += 1;
    }
    assert(prefix@.subrange(0, prefix.len() as int) =~= prefix@);
    true
}

/// The number of values that the stack may hold, from the parameter that
/// gives its size in bytes: `stack-size=N` or `N` alone.
pub fn stack_capacity(param: Option<&str>) -> (capacity: usize)
    ensures
        capacity == budget_of(
            match param {
                Some(text) => Some(text@),
                None => None,
            },
        ) / CELL_BYTES,
{
    let bytes: usize = match param {
        Some(text) => {
            let chars = chars_of(text);
            let prefix = chars_of("stack-size=");
            let from: usize = if starts_with(&chars, &prefix) {
                prefix.len()
            } else {
                assert(chars@.subrange(0, chars@.len() as int) =~= chars@);
                0
            };
            match parse_count(&chars, from) {
                Some(n) => n,
                None => DEFAULT_STACK_BYTES,
            }
        },
        None => DEFAULT_STACK_BYTES,
    };
    bytes / CELL_BYTES
}

} // verus!
