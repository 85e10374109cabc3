//! What running a word means: the effect of every operation on the stack
//! and on the output, as functions on plain values.

use vstd::prelude::*;
use crate::error::ForthError;
use crate::text::decimal;
use crate::word::Code;

verus! {

/// The state that running code works on.
pub struct Machine {
    /// The values on the stack, the oldest first.
    pub stack: Seq<i16>,
    /// The largest number of values the stack may hold.
    pub capacity: nat,
    /// Everything written so far.
    pub output: Seq<char>,
}

/// Where a run came to rest: the state it left, and the failure that
/// stopped it, if one did.
pub struct Step {
    pub machine: Machine,
    pub error: Option<ForthError>,
}

impl Machine {
    /// The stack is within its capacity.
    pub open spec fn wf(self) -> bool {
        self.stack.len() <= self.capacity
    }

    /// The same machine with another stack.
    pub open spec fn with_stack(self, stack: Seq<i16>) -> Machine {
        Machine { stack, ..self }
    }

    /// The machine after `text` was written.
    pub open spec fn print(self, text: Seq<char>) -> Machine {
        Machine { output: self.output + text, ..self }
    }

    /// Coming to rest here without a failure.
    pub open spec fn done(self) -> Step {
        Step { machine: self, error: None }
    }

    /// Coming to rest here with a failure.
    pub open spec fn fail(self, error: ForthError) -> Step {
        Step { machine: self, error: Some(error) }
    }

    /// The value `depth` places below the top.
    pub open spec fn top(self, depth: int) -> i16 {
        self.stack[self.stack.len() - 1 - depth]
    }

    /// The machine without the `count` topmost values.
    pub open spec fn without(self, count: int) -> Machine {
        self.with_stack(self.stack.take(self.stack.len() - count))
    }

    /// Pushing a value: a full stack stays as it is.
    pub open spec fn push(self, value: i16) -> Step {
        if self.stack.len() < self.capacity {
            self.with_stack(self.stack.push(value)).done()
        } else {
            self.fail(ForthError::StackOverflow)
        }
    }

    /// Running out of values while taking them off one by one: the stack
    /// is empty by then.
    pub open spec fn underflow(self) -> Step {
        self.with_stack(Seq::empty()).fail(ForthError::StackUnderflow)
    }
}

/// The built-in operations.
#[derive(Clone, Copy, Debug, PartialEq, Eq)]
pub enum Builtin {
    Add,
    Sub,
    Mul,
    Div,
    Dup,
    Swap,
    Drop,
    Rot,
    Over,
    Not,
    Emit,
    And,
    Or,
    Equals,
    LessThan,
    GreaterThan,
    Cr,
    Dot,
}

/// The operation that an upper-case name stands for.
pub open spec fn builtin_of(name: Seq<char>) -> Option<Builtin> {
    if name == "+"@ {
        Some(Builtin::Add)
    } else if name == "-"@ {
        Some(Builtin::Sub)
    } else if name == "*"@ {
        Some(Builtin::Mul)
    } else if name == "/"@ {
        Some(Builtin::Div)
    } else if name == "DUP"@ {
        Some(Builtin::Dup)
    } else if name == "SWAP"@ {
        Some(Builtin::Swap)
    } else if name == "DROP"@ {
        Some(Builtin::Drop)
    } else if name == "ROT"@ {
        Some(Builtin::Rot)
    } else if name == "OVER"@ {
        Some(Builtin::Over)
    } else if name == "NOT"@ {
        Some(Builtin::Not)
    } else if name == "EMIT"@ {
        Some(Builtin::Emit)
    } else if name == "AND"@ {
        Some(Builtin::And)
    } else if name == "OR"@ {
        Some(Builtin::Or)
    } else if name == "="@ {
        Some(Builtin::Equals)
    } else if name == "<"@ {
        Some(Builtin::LessThan)
    } else if name == ">"@ {
        Some(Builtin::GreaterThan)
    } else if name == "CR"@ {
        Some(Builtin::Cr)
    } else if name == "."@ {
        Some(Builtin::Dot)
    } else {
        None
    }
}

/// Every built-in operation is found under its own name: no name in the
/// table hides another.
pub proof fn lemma_builtin_names()
    ensures
        builtin_of("+"@) == Some(Builtin::Add),
        builtin_of("-"@) == Some(Builtin::Sub),
        builtin_of("*"@) == Some(Builtin::Mul),
        builtin_of("/"@) == Some(Builtin::Div),
        builtin_of("DUP"@) == Some(Builtin::Dup),
        builtin_of("SWAP"@) == Some(Builtin::Swap),
        builtin_of("DROP"@) == Some(Builtin::Drop),
        builtin_of("ROT"@) == Some(Builtin::Rot),
        builtin_of("OVER"@) == Some(Builtin::Over),
        builtin_of("NOT"@) == Some(Builtin::Not),
        builtin_of("EMIT"@) == Some(Builtin::Emit),
        builtin_of("AND"@) == Some(Builtin::And),
        builtin_of("OR"@) == Some(Builtin::Or),
        builtin_of("="@) == Some(Builtin::Equals),
        builtin_of("<"@) == Some(Builtin::LessThan),
        builtin_of(">"@) == Some(Builtin::GreaterThan),
        builtin_of("CR"@) == Some(Builtin::Cr),
        builtin_of("."@) == Some(Builtin::Dot),
{
    reveal_strlit("+");
    reveal_strlit("-");
    reveal_strlit("*");
    reveal_strlit("/");
    reveal_strlit("DUP");
    reveal_strlit("SWAP");
    reveal_strlit("DROP");
    reveal_strlit("ROT");
    reveal_strlit("OVER");
    reveal_strlit("NOT");
    reveal_strlit("EMIT");
    reveal_strlit("AND");
    reveal_strlit("OR");
    reveal_strlit("=");
    reveal_strlit("<");
    reveal_strlit(">");
    reveal_strlit("CR");
    reveal_strlit(".");
    assert("-"@.len() == 1 && "-"@[0] == '-');
    assert("*"@.len() == 1 && "*"@[0] == '*');
    assert("/"@.len() == 1 && "/"@[0] == '/');
    assert("DUP"@.len() == 3 && "DUP"@[0] == 'D' && "DUP"@[1] == 'U');
    assert("SWAP"@.len() == 4 && "SWAP"@[0] == 'S' && "SWAP"@[1] == 'W');
    assert("DROP"@.len() == 4 && "DROP"@[0] == 'D' && "DROP"@[1] == 'R');
    assert("ROT"@.len() == 3 && "ROT"@[0] == 'R' && "ROT"@[1] == 'O');
    assert("OVER"@.len() == 4 && "OVER"@[0] == 'O' && "OVER"@[1] == 'V');
    assert("NOT"@.len() == 3 && "NOT"@[0] == 'N' && "NOT"@[1] == 'O');
    assert("EMIT"@.len() == 4 && "EMIT"@[0] == 'E' && "EMIT"@[1] == 'M');
    assert("AND"@.len() == 3 && "AND"@[0] == 'A' && "AND"@[1] == 'N');
    assert("OR"@.len() == 2 && "OR"@[0] == 'O' && "OR"@[1] == 'R');
    assert("="@.len() == 1 && "="@[0] == '=');
    assert("<"@.len() == 1 && "<"@[0] == '<');
    assert(">"@.len() == 1 && ">"@[0] == '>');
    assert("CR"@.len() == 2 && "CR"@[0] == 'C' && "CR"@[1] == 'R');
    assert("."@.len() == 1 && "."@[0] == '.');
}

impl Builtin {
    /// Looks an upper-case name up among the built-in operations.
    pub fn from_name(name: &str) -> (r: Option<Builtin>)
        ensures
            r == builtin_of(name@),
    {
        if name.eq("+") {
            Some(Builtin::Add)
        } else if name.eq("-") {
            Some(Builtin::Sub)
        } else if name.eq("*") {
            Some(Builtin::Mul)
        } else if name.eq("/") {
            Some(Builtin::Div)
        } else if name.eq("DUP") {
            Some(Builtin::Dup)
        } else if name.eq("SWAP") {
            Some(Builtin::Swap)
        } else if name.eq("DROP") {
            Some(Builtin::Drop)
        } else if name.eq("ROT") {
            Some(Builtin::Rot)
        } else if name.eq("OVER") {
            Some(Builtin::Over)
        } else if name.eq("NOT") {
            Some(Builtin::Not)
        } else if name.eq("EMIT") {
            Some(Builtin::Emit)
        } else if name.eq("AND") {
            Some(Builtin::And)
        } else if name.eq("OR") {
            Some(Builtin::Or)
        } else if name.eq("=") {
            Some(Builtin::Equals)
        } else if name.eq("<") {
            Some(Builtin::LessThan)
        } else if name.eq(">") {
            Some(Builtin::GreaterThan)
        } else if name.eq("CR") {
            Some(Builtin::Cr)
        } else if name.eq(".") {
            Some(Builtin::Dot)
        } else {
            None
        }
    }
}

/// The canonical truth values: -1 for true, 0 for false.
pub open spec fn truth(b: bool) -> i16 {
    if b {
        -1i16
    } else {
        0i16
    }
}

/// The absolute value.
pub open spec fn magnitude(a: i16) -> int {
    if a < 0 {
        -(a as int)
    } else {
        a as int
    }
}

/// Division that rounds towards zero. The one quotient that does not fit,
/// of the smallest value by -1, wraps to the smallest value.
pub open spec fn quotient(a: i16, b: i16) -> i16
    recommends
        b != 0,
{
    let q = magnitude(a) / magnitude(b);
    if (a < 0) != (b < 0) {
        (-q) as i16
    } else if q > i16::MAX {
        i16::MIN
    } else {
        q as i16
    }
}

/// Whether an operation takes two values and gives one.
pub open spec fn is_binary(op: Builtin) -> bool {
    match op {
        Builtin::Add
        | Builtin::Sub
        | Builtin::Mul
        | Builtin::Div
        | Builtin::Equals
        | Builtin::LessThan
        | Builtin::GreaterThan
        | Builtin::And
        | Builtin::Or => true,
        _ => false,
    }
}

/// What an operation on two values gives, `a` being the value below `b`.
pub open spec fn binary_value(op: Builtin, a: i16, b: i16) -> i16
    recommends
        is_binary(op),
        op == Builtin::Div ==> b != 0,
{
    match op {
        Builtin::Add => a.wrapping_add(b),
        Builtin::Sub => a.wrapping_sub(b),
        Builtin::Mul => a.wrapping_mul(b),
        Builtin::Div => quotient(a, b),
        Builtin::Equals => truth(a == b),
        Builtin::LessThan => truth(a < b),
        Builtin::GreaterThan => truth(a > b),
        Builtin::And => truth(a != 0 && b != 0),
        Builtin::Or => truth(a != 0 || b != 0),
        _ => 0,
    }
}

/// Taking two values off and pushing what the operation makes of them.
pub open spec fn binary(op: Builtin, m: Machine) -> Step
    recommends
        is_binary(op),
{
    if m.stack.len() < 2 {
        m.underflow()
    } else {
        m.with_stack(m.without(2).stack.push(binary_value(op, m.top(1), m.top(0)))).done()
    }
}

/// Division: the divisor is taken off and tested before the dividend is
/// touched.
pub open spec fn divide(m: Machine) -> Step {
    if m.stack.len() == 0 {
        m.fail(ForthError::StackUnderflow)
    } else if m.top(0) == 0 {
        m.without(1).fail(ForthError::DivisionByZero)
    } else {
        binary(Builtin::Div, m)
    }
}

/// Whether a value is the code point of a character.
pub open spec fn is_code_point(code: i16) -> bool {
    code >= 0
}

/// The effect of a built-in operation.
pub open spec fn apply(op: Builtin, m: Machine) -> Step {
    let n = m.stack.len();
    match op {
        Builtin::Div => divide(m),
        Builtin::Dup => if n == 0 {
            m.fail(ForthError::StackUnderflow)
        } else {
            m.push(m.top(0))
        },
        Builtin::Drop => if n == 0 {
            m.fail(ForthError::StackUnderflow)
        } else {
            m.without(1).done()
        },
        Builtin::Swap => if n < 2 {
            m.underflow()
        } else {
            m.with_stack(m.without(2).stack.push(m.top(0)).push(m.top(1))).done()
        },
        Builtin::Over => if n < 2 {
            m.underflow()
        } else {
            m.push(m.top(1))
        },
        Builtin::Rot => if n < 3 {
            m.underflow()
        } else {
            m.with_stack(m.without(3).stack.push(m.top(1)).push(m.top(0)).push(m.top(2))).done()
        },
        Builtin::Not => if n == 0 {
            m.fail(ForthError::StackUnderflow)
        } else {
            m.with_stack(m.without(1).stack.push(truth(m.top(0) == 0))).done()
        },
        Builtin::Emit => if n == 0 {
            m.fail(ForthError::StackUnderflow)
        } else if !is_code_point(m.top(0)) {
            m.without(1).fail(ForthError::InvalidCharacter)
        } else {
            m.without(1).print(seq![m.top(0) as char, ' ']).done()
        },
        Builtin::Dot => if n == 0 {
            m.fail(ForthError::StackUnderflow)
        } else {
            m.without(1).print(decimal(m.top(0) as int).push(' ')).done()
        },
        Builtin::Cr => m.print(seq!['\n']).done(),
        _ => binary(op, m),
    }
}

/// The effect of running one compiled word.
pub open spec fn eval(code: Code, m: Machine) -> Step
    decreases code, 0nat,
{
    match code {
        Code::Number(n) => m.push(n),
        Code::Words(body) => eval_seq(body, 0, m),
        Code::Builtin(name) => match builtin_of(name) {
            Some(op) => apply(op, m),
            None => m.fail(ForthError::InvalidWord),
        },
        Code::Text(text) => m.print(text).done(),
        Code::If { on_true, on_false } => if m.stack.len() == 0 {
            m.fail(ForthError::StackUnderflow)
        } else if m.top(0) != 0 {
            eval_seq(on_true, 0, m.without(1))
        } else {
            match on_false {
                Some(body) => eval_seq(body, 0, m.without(1)),
                None => m.without(1).done(),
            }
        },
    }
}

/// The effect of running the words of a body from position `from` on: one
/// after the other, up to the first that fails.
pub open spec fn eval_seq(body: Seq<Code>, from: int, m: Machine) -> Step
    decreases body, body.len() - from,
{
    if 0 <= from < body.len() {
        let first = eval(body[from], m);
        if first.error is Some {
            first
        } else {
            eval_seq(body, from + 1, first.machine)
        }
    } else {
        m.done()
    }
}

/// `NOT` is a negation of truth values, not of bits: applied twice to any
/// value but zero it gives the canonical true, -1, and applied twice to
/// zero it gives zero.
pub proof fn lemma_not_not(m: Machine)
    requires
        m.stack.len() > 0,
    ensures
        apply(Builtin::Not, m).error is None,
        apply(Builtin::Not, apply(Builtin::Not, m).machine) == m.with_stack(
            m.without(1).stack.push(truth(m.top(0) != 0)),
        ).done(),
        m.top(0) != 0 ==> apply(Builtin::Not, apply(Builtin::Not, m).machine).machine.top(0) == -1,
{
    let once = apply(Builtin::Not, m).machine;
    let twice = apply(Builtin::Not, once).machine;
    assert(twice.stack =~= m.without(1).stack.push(truth(m.top(0) != 0)));
}

/// `ROT` three times in a row puts the stack back as it was, whatever its
/// three topmost values are.
pub proof fn lemma_rot_three_times(m: Machine)
    requires
        m.stack.len() >= 3,
    ensures
        apply(Builtin::Rot, m).error is None,
        apply(Builtin::Rot, apply(Builtin::Rot, m).machine).error is None,
        apply(Builtin::Rot, apply(Builtin::Rot, apply(Builtin::Rot, m).machine).machine)
            == m.done(),
{
    let once = apply(Builtin::Rot, m).machine;
    let twice = apply(Builtin::Rot, once).machine;
    let thrice = apply(Builtin::Rot, twice).machine;
    assert(thrice.stack =~= m.stack);
}

} // verus!
