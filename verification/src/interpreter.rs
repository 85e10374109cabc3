//! The interpreter: a stack, a dictionary and the text written so far.

use vstd::prelude::*;
use vstd::string::*;
use std::rc::Rc;
use crate::dictionary::Dictionary;
use crate::error::{reports, ForthError};
use crate::machine::{
    apply, binary, binary_value, eval, eval_seq, is_binary, magnitude, Builtin, Machine, Step,
};
use crate::parser::{lex, lexemes, tokenize, Token};
use crate::program::{
    canonical, canonical_lexeme, compile, compile_one, compiled_next, define_at, definition_end,
    find_branches, is_mark, is_name, lemma_find_branches, next_position, resolve,
    resolve_lexeme, run, run_all, scan_branches, step, Branches, Run, World,
};
use crate::stack::Stack;
use crate::text::{chars_of, number_of, parse_number, push_decimal, uppercase};
use crate::word::{codes, Code, Word};

verus! {

/// An interpreter for one program: its stack, its dictionary and what the
/// program has written.
pub struct Interpreter {
    stack: Stack,
    dict: Dictionary,
    output: String,
}

/// Whether a call that began in `before` has had exactly the effect `step`:
/// it left that machine, kept the dictionary, and reports that outcome.
pub open spec fn stepped<T>(before: World, after: World, r: Result<T, String>, step: Step) -> bool {
    &&& after.machine.stack =~= step.machine.stack
    &&& after.machine.output =~= step.machine.output
    &&& after.machine.capacity == step.machine.capacity
    &&& after.dict == before.dict
    &&& reports(r, step.error)
}

/// Whether a call that began in some world has had exactly the effect
/// `run`: it left that world and reports that outcome.
pub open spec fn ran<T>(after: World, r: Result<T, String>, run: Run) -> bool {
    &&& after.machine.stack =~= run.world.machine.stack
    &&& after.machine.output =~= run.world.machine.output
    &&& after.machine.capacity == run.world.machine.capacity
    &&& after.dict =~= run.world.dict
    &&& reports(r, run.error)
}

/// Whether a compilation has given exactly `expected`: words with those
/// codes, or the text of that failure.
pub open spec fn compiled(
    r: Result<Vec<Rc<Word>>, String>,
    expected: Result<Seq<Code>, ForthError>,
) -> bool {
    match expected {
        Ok(body) => r is Ok && codes(r->Ok_0@) =~= body,
        Err(e) => r is Err && r->Err_0@ == e.text(),
    }
}

/// What has been compiled so far, put in front of what the rest compiles
/// to.
pub open spec fn extended(done: Seq<Code>, rest: Result<Seq<Code>, ForthError>) -> Result<
    Seq<Code>,
    ForthError,
> {
    match rest {
        Ok(r) => Ok(done + r),
        Err(e) => Err(e),
    }
}

/// Tells whether a token is the word with this exact text.
pub fn token_is_mark(token: &Token, text: &str) -> (r: bool)
    ensures
        r == is_mark(token@, text@),
{
    match token {
        Token::Word(w) => w.as_str().eq(text),
        _ => false,
    }
}

/// Puts every word among the tokens in upper case and leaves numbers and
/// string literals as they are.
pub fn canonicalize(tokens: &Vec<Token>) -> (r: Vec<Token>)
    ensures
        lexemes(r@) == canonical(lexemes(tokens@)),
{
    let mut out: Vec<Token> = Vec::new();
    let mut i: usize = 0;
    while i < tokens.len()
        invariant
            i <= tokens.len(),
            lexemes(out@) =~= canonical(lexemes(tokens@)).take(i as int),
        decreases tokens.len() - i,
    {
        let token = match &tokens[i] {
            Token::Number(n) => Token::Number(*n),
            Token::Word(w) => Token::Word(w.as_str().to_uppercase()),
            Token::StringLiteral(text) => Token::StringLiteral(text.clone()),
        };
        let ghost all = canonical(lexemes(tokens@));
        out.push(token);
        assert(all.take(i + 1) =~= all.take(i as int).push(all[i as int]));
        i += 1;
    }
    out
}

/// Finds the `ELSE`, if there is one, and the `THEN` of the conditional
/// whose first branch begins at `lo`, among the tokens before `hi`.
pub fn locate_branches(tokens: &Vec<Token>, lo: usize, hi: usize) -> (r: Option<
    (Option<usize>, usize),
>)
    requires
        lo <= hi <= tokens.len(),
    ensures
        match r {
            Some((else_at, then_at)) => {
                &&& find_branches(lexemes(tokens@), lo as int, hi as int) == Some(
                    Branches {
                        else_at: match else_at {
                            Some(e) => Some(e as int),
                            None => None,
                        },
                        then_at: then_at as int,
                    },
                )
                &&& lo <= then_at < hi
                &&& else_at is Some ==> lo <= else_at->0 < then_at
            },
            None => find_branches(lexemes(tokens@), lo as int, hi as int) is None,
        },
{
    let ghost toks = lexemes(tokens@);
    let mut i: usize = lo;
    let mut inner: usize = 0;
    let mut else_at: Option<usize> = None;
    let ghost mut marked: Option<int> = None;
    while i < hi
        invariant
            lo <= i <= hi <= tokens.len(),
            toks == lexemes(tokens@),
            inner <= i - lo,
            marked == match else_at {
                Some(e) => Some(e as int),
                None => None,
            },
            else_at is Some ==> lo <= else_at->0 < i,
            find_branches(toks, lo as int, hi as int) == scan_branches(
                toks,
                i as int,
                hi as int,
                (inner + 1) as nat,
                marked,
            ),
        decreases hi - i,
    {
        if token_is_mark(&tokens[i], "IF") {
            inner += 1;
        } else if token_is_mark(&tokens[i], "THEN") {
            if inner == 0 {
                proof {
                    lemma_find_branches(toks, lo as int, hi as int);
                }
                return Some((else_at, i));
            }
            inner -= 1;
        } else if inner == 0 && else_at.is_none() && token_is_mark(&tokens[i], "ELSE") {
            else_at = Some(i);
            proof {
                marked = Some(i as int);
            }
        }
        i += 1;
    }
    None
}

/// Finds the first `;` at or after `from` and before `hi`; hands back `hi`
/// if there is none.
pub fn locate_definition_end(tokens: &Vec<Token>, from: usize, hi: usize) -> (end: usize)
    requires
        from <= hi <= tokens.len(),
    ensures
        end == definition_end(lexemes(tokens@), from as int, hi as int),
        from <= end <= hi,
{
    let ghost toks = lexemes(tokens@);
    let mut i: usize = from;
    while i < hi
        invariant
            from <= i <= hi <= tokens.len(),
            toks == lexemes(tokens@),
            definition_end(toks, from as int, hi as int) == definition_end(
                toks,
                i as int,
                hi as int,
            ),
        decreases hi - i,
    {
        if token_is_mark(&tokens[i], ";") {
            return i;
        }
        i += 1;
    }
    i
}

/// What an operation on two values gives, `a` being the value below `b`.
pub fn binary_result(op: Builtin, a: i16, b: i16) -> (r: i16)
    requires
        is_binary(op),
        op == Builtin::Div ==> b != 0,
    ensures
        r == binary_value(op, a, b),
{
    match op {
        Builtin::Add => a.wrapping_add(b),
        Builtin::Sub => a.wrapping_sub(b),
        Builtin::Mul => a.wrapping_mul(b),
        Builtin::Div => {
            let x: i32 = if a < 0 {
                -(a as i32)
            } else {
                a as i32
            };
            let y: i32 = if b < 0 {
                -(b as i32)
            } else {
                b as i32
            };
            let q: i32 = x / y;
            assert(0 <= q <= 32768) by (nonlinear_arith)
                requires
                    0 <= x <= 32768,
                    1 <= y,
                    q == x / y,
            ;
            if (a < 0) != (b < 0) {
                (-q) as i16
            } else if q > 32767 {
                i16::MIN
            } else {
                q as i16
            }
        },
        Builtin::Equals => if a == b {
            -1
        } else {
            0
        },
        Builtin::LessThan => if a < b {
            -1
        } else {
            0
        },
        Builtin::GreaterThan => if a > b {
            -1
        } else {
            0
        },
        Builtin::And => if a != 0 && b != 0 {
            -1
        } else {
            0
        },
        Builtin::Or => if a != 0 || b != 0 {
            -1
        } else {
            0
        },
        _ => 0,
    }
}

impl View for Interpreter {
    type V = World;

    closed spec fn view(&self) -> World {
        World {
            machine: Machine {
                stack: self.stack@,
                capacity: self.stack.capacity(),
                output: self.output@,
            },
            dict: self.dict@,
        }
    }
}

impl Interpreter {
    /// The invariant of the type: the stack and the dictionary keep theirs.
    pub closed spec fn wf(&self) -> bool {
        self.stack.wf() && self.dict.wf()
    }

    /// An interpreter that keeps its invariant has its stack within its
    /// capacity.
    pub proof fn lemma_bounded(&self)
        requires
            self.wf(),
        ensures
            self@.machine.wf(),
    {
        self.stack.lemma_within_capacity();
    }

    /// An interpreter with an empty stack for up to `stack_size` values, no
    /// user-defined words and nothing written.
    pub fn new(stack_size: usize) -> (interpreter: Self)
        ensures
            interpreter.wf(),
            interpreter@.machine.stack == Seq::<i16>::empty(),
            interpreter@.machine.capacity == stack_size,
            interpreter@.machine.output == Seq::<char>::empty(),
            interpreter@.dict == Map::<Seq<char>, Code>::empty(),
    {
        Interpreter { stack: Stack::new(stack_size), dict: Dictionary::new(), output: String::new() }
    }

    /// The values on the stack, the oldest first.
    pub fn stack_to_vec(&self) -> (v: Vec<i16>)
        ensures
            v@ == self@.machine.stack,
    {
        self.stack.snapshot()
    }

    /// Everything written so far.
    pub fn output(&self) -> (s: &str)
        ensures
            s@ == self@.machine.output,
    {
        self.output.as_str()
    }

    /// Takes two values off and pushes what `op` makes of them.
    fn apply_binary_op(&mut self, op: Builtin) -> (r: Result<(), String>)
        requires
            old(self).wf(),
            is_binary(op),
            op != Builtin::Div,
        ensures
            final(self).wf(),
            stepped(old(self)@, final(self)@, r, binary(op, old(self)@.machine)),
    {
        proof {
            self.stack.lemma_within_capacity();
        }
        let b = self.stack.pop()?;
        let a = self.stack.pop()?;
        self.stack.push(binary_result(op, a, b))
    }

    /// Exchanges the two topmost values.
    fn handle_swap(&mut self) -> (r: Result<(), String>)
        requires
            old(self).wf(),
        ensures
            final(self).wf(),
            stepped(old(self)@, final(self)@, r, apply(Builtin::Swap, old(self)@.machine)),
    {
        proof {
            self.stack.lemma_within_capacity();
        }
        let b = self.stack.pop()?;
        let a = self.stack.pop()?;
        self.stack.push(b)?;
        self.stack.push(a)
    }

    /// Divides the value below the top by the top, which must not be zero.
    fn handle_division(&mut self) -> (r: Result<(), String>)
        requires
            old(self).wf(),
        ensures
            final(self).wf(),
            stepped(old(self)@, final(self)@, r, apply(Builtin::Div, old(self)@.machine)),
    {
        proof {
            self.stack.lemma_within_capacity();
        }
        let b = self.stack.pop()?;
        if b == 0 {
            return Err(ForthError::DivisionByZero.message());
        }
        let a = self.stack.pop()?;
        self.stack.push(binary_result(Builtin::Div, a, b))
    }

    /// Pushes the top value once more.
    fn handle_dup(&mut self) -> (r: Result<(), String>)
        requires
            old(self).wf(),
        ensures
            final(self).wf(),
            stepped(old(self)@, final(self)@, r, apply(Builtin::Dup, old(self)@.machine)),
    {
        let value = self.stack.peek()?;
        self.stack.push(value)
    }

    /// Takes the top value off.
    fn handle_drop(&mut self) -> (r: Result<(), String>)
        requires
            old(self).wf(),
        ensures
            final(self).wf(),
            stepped(old(self)@, final(self)@, r, apply(Builtin::Drop, old(self)@.machine)),
    {
        self.stack.pop()?;
        Ok(())
    }

    /// Brings the third value from the top to the top.
    fn handle_rot(&mut self) -> (r: Result<(), String>)
        requires
            old(self).wf(),
        ensures
            final(self).wf(),
            stepped(old(self)@, final(self)@, r, apply(Builtin::Rot, old(self)@.machine)),
    {
        proof {
            self.stack.lemma_within_capacity();
        }
        let c = self.stack.pop()?;
        let b = self.stack.pop()?;
        let a = self.stack.pop()?;
        self.stack.push(b)?;
        self.stack.push(c)?;
        self.stack.push(a)
    }

    /// Replaces the top value by its negation as a truth value.
    fn handle_not(&mut self) -> (r: Result<(), String>)
        requires
            old(self).wf(),
        ensures
            final(self).wf(),
            stepped(old(self)@, final(self)@, r, apply(Builtin::Not, old(self)@.machine)),
    {
        proof {
            self.stack.lemma_within_capacity();
        }
        let a = self.stack.pop()?;
        let result: i16 = if a == 0 {
            -1
        } else {
            0
        };
        self.stack.push(result)
    }

    /// Takes the top value off and writes the character with that code
    /// point, then a space.
    fn handle_emit(&mut self) -> (r: Result<(), String>)
        requires
            old(self).wf(),
        ensures
            final(self).wf(),
            stepped(old(self)@, final(self)@, r, apply(Builtin::Emit, old(self)@.machine)),
    {
        let code = self.stack.pop()?;
        if code < 0 {
            return Err(ForthError::InvalidCharacter.message());
        }
        match char::from_u32(code as u32) {
            Some(c) => {
                self.output.push(c);
                self.output.push(' ');
                Ok(())
            },
            None => Err(ForthError::InvalidCharacter.message()),
        }
    }

    /// Replaces the two topmost values by the truth of both.
    fn handle_and(&mut self) -> (r: Result<(), String>)
        requires
            old(self).wf(),
        ensures
            final(self).wf(),
            stepped(old(self)@, final(self)@, r, apply(Builtin::And, old(self)@.machine)),
    {
        self.apply_binary_op(Builtin::And)
    }

    /// Replaces the two topmost values by the truth of either.
    fn handle_or(&mut self) -> (r: Result<(), String>)
        requires
            old(self).wf(),
        ensures
            final(self).wf(),
            stepped(old(self)@, final(self)@, r, apply(Builtin::Or, old(self)@.machine)),
    {
        self.apply_binary_op(Builtin::Or)
    }

    /// Replaces the two topmost values by the truth of their equality.
    fn handle_equals(&mut self) -> (r: Result<(), String>)
        requires
            old(self).wf(),
        ensures
            final(self).wf(),
            stepped(old(self)@, final(self)@, r, apply(Builtin::Equals, old(self)@.machine)),
    {
        self.apply_binary_op(Builtin::Equals)
    }

    /// Replaces the two topmost values by the truth of the lower being
    /// less than the upper.
    fn handle_less_than(&mut self) -> (r: Result<(), String>)
        requires
            old(self).wf(),
        ensures
            final(self).wf(),
            stepped(old(self)@, final(self)@, r, apply(Builtin::LessThan, old(self)@.machine)),
    {
        self.apply_binary_op(Builtin::LessThan)
    }

    /// Replaces the two topmost values by the truth of the lower being
    /// greater than the upper.
    fn handle_greater_than(&mut self) -> (r: Result<(), String>)
        requires
            old(self).wf(),
        ensures
            final(self).wf(),
            stepped(old(self)@, final(self)@, r, apply(Builtin::GreaterThan, old(self)@.machine)),
    {
        self.apply_binary_op(Builtin::GreaterThan)
    }

    /// Pushes the value below the top once more.
    fn handle_over(&mut self) -> (r: Result<(), String>)
        requires
            old(self).wf(),
        ensures
            final(self).wf(),
            stepped(old(self)@, final(self)@, r, apply(Builtin::Over, old(self)@.machine)),
    {
        proof {
            self.stack.lemma_within_capacity();
        }
        let b = self.stack.pop()?;
        let a = self.stack.pop()?;
        self.stack.push(a)?;
        self.stack.push(b)?;
        self.stack.push(a)
    }

    /// Takes the top value off and writes it in decimal, then a space.
    fn handle_dot(&mut self) -> (r: Result<(), String>)
        requires
            old(self).wf(),
        ensures
            final(self).wf(),
            stepped(old(self)@, final(self)@, r, apply(Builtin::Dot, old(self)@.machine)),
    {
        let value = self.stack.pop()?;
        push_decimal(&mut self.output, value);
        self.output.push(' ');
        Ok(())
    }

    /// Writes the text of a string literal.
    fn handle_dot_quote(&mut self, literal: &str)
        requires
            old(self).wf(),
        ensures
            final(self).wf(),
            final(self)@.dict == old(self)@.dict,
            final(self)@.machine == old(self)@.machine.print(literal@),
    {
        self.output.append(literal);
    }

    /// Runs the built-in operation with the given upper-case name.
    pub fn run_builtin(&mut self, op: &str) -> (r: Result<(), String>)
        requires
            old(self).wf(),
        ensures
            final(self).wf(),
            stepped(old(self)@, final(self)@, r, eval(Code::Builtin(op@), old(self)@.machine)),
    {
        match Builtin::from_name(op) {
            Some(Builtin::Add) => self.apply_binary_op(Builtin::Add),
            Some(Builtin::Sub) => self.apply_binary_op(Builtin::Sub),
            Some(Builtin::Mul) => self.apply_binary_op(Builtin::Mul),
            Some(Builtin::Div) => self.handle_division(),
            Some(Builtin::Dup) => self.handle_dup(),
            Some(Builtin::Swap) => self.handle_swap(),
            Some(Builtin::Drop) => self.handle_drop(),
            Some(Builtin::Rot) => self.handle_rot(),
            Some(Builtin::Over) => self.handle_over(),
            Some(Builtin::Not) => self.handle_not(),
            Some(Builtin::Emit) => self.handle_emit(),
            Some(Builtin::And) => self.handle_and(),
            Some(Builtin::Or) => self.handle_or(),
            Some(Builtin::Equals) => self.handle_equals(),
            Some(Builtin::LessThan) => self.handle_less_than(),
            Some(Builtin::GreaterThan) => self.handle_greater_than(),
            Some(Builtin::Cr) => {
                self.output.push('\n');
                Ok(())
            },
            Some(Builtin::Dot) => self.handle_dot(),
            None => Err(ForthError::InvalidWord.message()),
        }
    }

    /// Pushes a number.
    fn run_number(&mut self, n: i16) -> (r: Result<(), String>)
        requires
            old(self).wf(),
        ensures
            final(self).wf(),
            stepped(old(self)@, final(self)@, r, old(self)@.machine.push(n)),
    {
        self.stack.push(n)
    }

    /// Runs one compiled word.
    pub fn run_word(&mut self, word: &Rc<Word>) -> (r: Result<(), String>)
        requires
            old(self).wf(),
        ensures
            final(self).wf(),
            stepped(old(self)@, final(self)@, r, eval(word@, old(self)@.machine)),
        decreases word,
    {
        match &**word {
            Word::Number(n) => self.run_number(*n),
            Word::Words(words) => self.run_words(words),
            Word::Builtin(op) => self.run_builtin(op.as_str()),
            Word::StringLiteral(s) => {
                self.handle_dot_quote(s.as_str());
                Ok(())
            },
            Word::If { true_branch, false_branch } => {
                let cond = self.stack.pop()?;
                if cond != 0 {
                    self.run_words(true_branch)
                } else {
                    match false_branch {
                        Some(words) => self.run_words(words),
                        None => Ok(()),
                    }
                }
            },
        }
    }

    /// Runs compiled words in turn, up to the first that fails.
    pub fn run_words(&mut self, words: &Vec<Rc<Word>>) -> (r: Result<(), String>)
        requires
            old(self).wf(),
        ensures
            final(self).wf(),
            stepped(old(self)@, final(self)@, r, eval_seq(codes(words@), 0, old(self)@.machine)),
        decreases words,
    {
        let ghost body = codes(words@);
        let mut i: usize = 0;
        while i < words.len()
            invariant
                i <= words.len(),
                self.wf(),
                body == codes(words@),
                self@.dict == old(self)@.dict,
                eval_seq(body, 0, old(self)@.machine) == eval_seq(body, i as int, self@.machine),
            decreases words.len() - i,
        {
            self.run_word(&words[i])?;
            i += 1;
        }
        Ok(())
    }

    /// Defines a word: binds the upper-case form of `name` to the given
    /// body, in place of any word that this name had. A name that reads as
    /// a number is turned down, and nothing changes.
    pub fn define(&mut self, name: &str, body: Vec<Rc<Word>>) -> (r: Result<(), String>)
        requires
            old(self).wf(),
        ensures
            final(self).wf(),
            final(self)@.machine == old(self)@.machine,
            number_of(name@) is Some ==> final(self)@.dict == old(self)@.dict && reports(
                r,
                Some(ForthError::InvalidWord),
            ),
            number_of(name@) is None ==> r is Ok && final(self)@.dict == old(self)@.dict.insert(
                uppercase(name@),
                Code::Words(codes(body@)),
            ),
    {
        let chars = chars_of(name);
        assert(chars@.subrange(0, chars@.len() as int) == name@);
        if parse_number(&chars, 0, chars.len()).is_some() {
            return Err(ForthError::InvalidWord.message());
        }
        self.end_definition(name.to_uppercase(), body);
        Ok(())
    }

    /// Looks a word up by name, in whatever case the name is written: the
    /// user's word of that name, else the built-in operation of that name.
    pub fn lookup(&self, name: &str) -> (r: Option<Rc<Word>>)
        ensures
            match resolve(self@.dict, uppercase(name@)) {
                Some(code) => r is Some && r->0@ == code,
                None => r is None,
            },
    {
        self.resolve_name(name.to_uppercase().as_str())
    }

    /// Resolves a name: to the user's word of that name, else to the
    /// built-in operation of that name.
    pub fn resolve_name(&self, name: &str) -> (r: Option<Rc<Word>>)
        ensures
            match resolve(self@.dict, name@) {
                Some(code) => r is Some && r->0@ == code,
                None => r is None,
            },
    {
        match self.dict.lookup(name) {
            Some(word) => Some(word),
            None => match Builtin::from_name(name) {
                Some(_) => Some(Rc::new(Word::Builtin(name.to_string()))),
                None => None,
            },
        }
    }

    /// Resolves a token that stands outside any construct to a word.
    pub fn resolve_token(&self, token: &Token) -> (r: Result<Rc<Word>, String>)
        ensures
            match resolve_lexeme(self@.dict, token@) {
                Ok(code) => r is Ok && r->Ok_0@ == code,
                Err(e) => r is Err && r->Err_0@ == e.text(),
            },
    {
        match token {
            Token::Number(n) => Ok(Rc::new(Word::Number(*n))),
            Token::StringLiteral(text) => Ok(Rc::new(Word::StringLiteral(text.clone()))),
            Token::Word(w) => match self.resolve_name(w.as_str()) {
                Some(word) => Ok(word),
                None => Err(ForthError::UnknownWord.message()),
            },
        }
    }

    /// Compiles the conditional whose `IF` stands at `pos`.
    fn compile_if(&self, tokens: &Vec<Token>, pos: usize, hi: usize) -> (r: Result<
        Rc<Word>,
        String,
    >)
        requires
            pos < hi <= tokens.len(),
            is_mark(tokens@[pos as int]@, "IF"@),
            !is_mark(tokens@[pos as int]@, ":"@),
        ensures
            match compile_one(self@.dict, lexemes(tokens@), pos as int, hi as int) {
                Ok(code) => r is Ok && r->Ok_0@ == code,
                Err(e) => r is Err && r->Err_0@ == e.text(),
            },
        decreases hi - pos, 0nat,
    {
        match locate_branches(tokens, pos + 1, hi) {
            None => Err(ForthError::MissingThen.message()),
            Some((else_at, then_at)) => {
                let true_end: usize = match else_at {
                    Some(e) => e,
                    None => then_at,
                };
                let true_branch = self.compile_until(tokens, pos + 1, true_end)?;
                let false_branch = match else_at {
                    Some(e) => Some(self.compile_until(tokens, e + 1, then_at)?),
                    None => None,
                };
                Ok(Rc::new(Word::If { true_branch, false_branch }))
            },
        }
    }

    /// Compiles the construct that begins at `pos` inside a definition.
    fn compile_token(&self, tokens: &Vec<Token>, pos: usize, hi: usize) -> (r: Result<
        (Rc<Word>, usize),
        String,
    >)
        requires
            pos < hi <= tokens.len(),
        ensures
            match compile_one(self@.dict, lexemes(tokens@), pos as int, hi as int) {
                Ok(code) => r is Ok && r->Ok_0.0@ == code && r->Ok_0.1 == compiled_next(
                    lexemes(tokens@),
                    pos as int,
                    hi as int,
                ) && pos < r->Ok_0.1 <= hi,
                Err(e) => r is Err && r->Err_0@ == e.text(),
            },
        decreases hi - pos, 1nat,
    {
        if token_is_mark(&tokens[pos], ":") {
            Err(ForthError::NestedDefinition.message())
        } else if token_is_mark(&tokens[pos], "IF") {
            let word = self.compile_if(tokens, pos, hi)?;
            match locate_branches(tokens, pos + 1, hi) {
                Some((_, then_at)) => Ok((word, then_at + 1)),
                None => Err(ForthError::MissingThen.message()),
            }
        } else {
            let word = self.resolve_token(&tokens[pos])?;
            Ok((word, pos + 1))
        }
    }

    /// Compiles the tokens from `lo` up to `hi` inside a definition.
    fn compile_until(&self, tokens: &Vec<Token>, lo: usize, hi: usize) -> (r: Result<
        Vec<Rc<Word>>,
        String,
    >)
        requires
            lo <= hi <= tokens.len(),
        ensures
            compiled(r, compile(self@.dict, lexemes(tokens@), lo as int, hi as int)),
        decreases hi - lo, 2nat,
    {
        let ghost toks = lexemes(tokens@);
        let ghost dict = self@.dict;
        let mut words: Vec<Rc<Word>> = Vec::new();
        let mut pos: usize = lo;
        while pos < hi
            invariant
                lo <= pos <= hi <= tokens.len(),
                toks == lexemes(tokens@),
                dict == self@.dict,
                compile(dict, toks, lo as int, hi as int) == extended(
                    codes(words@),
                    compile(dict, toks, pos as int, hi as int),
                ),
            decreases hi - pos,
        {
            let ghost done = codes(words@);
            let (word, next) = self.compile_token(tokens, pos, hi)?;
            words.push(word);
            proof {
                let rest = compile(dict, toks, next as int, hi as int);
                assert(codes(words@) =~= done.push(word@));
                if rest is Ok {
                    assert(done + (seq![word@] + rest->Ok_0) =~= done.push(word@) + rest->Ok_0);
                }
            }
            pos = next;
        }
        Ok(words)
    }

    /// Begins a definition: tests the token behind the `:` and hands back
    /// the name that it gives.
    fn start_definition(&self, tokens: &Vec<Token>, pos: usize, hi: usize) -> (r: Result<
        String,
        String,
    >)
        requires
            pos <= hi <= tokens.len(),
        ensures
            match r {
                Ok(name) => pos < hi && is_name(tokens@[pos as int]@) && name@
                    == tokens@[pos as int]@->Word_0,
                Err(e) => !(pos < hi && is_name(tokens@[pos as int]@)) && e@
                    == ForthError::InvalidWord.text(),
            },
    {
        if pos >= hi {
            return Err(ForthError::InvalidWord.message());
        }
        match &tokens[pos] {
            Token::Word(w) => {
                let chars = chars_of(w.as_str());
                assert(chars@.subrange(0, chars@.len() as int) == w@);
                if parse_number(&chars, 0, chars.len()).is_some() {
                    Err(ForthError::InvalidWord.message())
                } else {
                    Ok(w.clone())
                }
            },
            _ => Err(ForthError::InvalidWord.message()),
        }
    }

    /// Ends a definition: binds the name to the compiled body.
    fn end_definition(&mut self, name: String, words: Vec<Rc<Word>>)
        requires
            old(self).wf(),
        ensures
            final(self).wf(),
            final(self)@.machine == old(self)@.machine,
            final(self)@.dict == old(self)@.dict.insert(name@, Code::Words(codes(words@))),
    {
        self.dict.define(name, Rc::new(Word::Words(words)));
    }

    /// Runs the conditional whose `IF` stands at `pos`.
    fn handle_if(&mut self, tokens: &Vec<Token>, pos: usize, hi: usize) -> (r: Result<usize, String>)
        requires
            old(self).wf(),
            pos < hi <= tokens.len(),
            is_mark(tokens@[pos as int]@, "IF"@),
            !is_mark(tokens@[pos as int]@, ":"@),
            !is_mark(tokens@[pos as int]@, ";"@),
        ensures
            final(self).wf(),
            ran(final(self)@, r, step(lexemes(tokens@), pos as int, hi as int, old(self)@)),
            r is Ok ==> r->Ok_0 == next_position(lexemes(tokens@), pos as int, hi as int) && pos
                < r->Ok_0 <= hi,
        decreases hi - pos, 0nat,
    {
        match locate_branches(tokens, pos + 1, hi) {
            None => Err(ForthError::MissingThen.message()),
            Some((else_at, then_at)) => {
                let cond = self.stack.pop()?;
                if cond != 0 {
                    let true_end: usize = match else_at {
                        Some(e) => e,
                        None => then_at,
                    };
                    self.run_range(tokens, pos + 1, true_end)?;
                } else {
                    match else_at {
                        Some(e) => {
                            self.run_range(tokens, e + 1, then_at)?;
                        },
                        None => {},
                    }
                }
                Ok(then_at + 1)
            },
        }
    }

    /// Runs the definition whose `:` stands at `pos`.
    fn handle_definition(&mut self, tokens: &Vec<Token>, pos: usize, hi: usize) -> (r: Result<
        usize,
        String,
    >)
        requires
            old(self).wf(),
            pos < hi <= tokens.len(),
        ensures
            final(self).wf(),
            ran(final(self)@, r, define_at(lexemes(tokens@), pos as int, hi as int, old(self)@)),
            r is Ok ==> r->Ok_0 == definition_end(lexemes(tokens@), pos + 2, hi as int) + 1 && pos
                < r->Ok_0 <= hi,
    {
        let name = self.start_definition(tokens, pos + 1, hi)?;
        let end = locate_definition_end(tokens, pos + 2, hi);
        if end >= hi {
            return Err(ForthError::InvalidWord.message());
        }
        let words = self.compile_until(tokens, pos + 2, end)?;
        self.end_definition(name, words);
        Ok(end + 1)
    }

    /// Runs the construct that begins at `pos`, outside any definition, and
    /// hands back the position behind it.
    fn process_token(&mut self, tokens: &Vec<Token>, pos: usize, hi: usize) -> (r: Result<
        usize,
        String,
    >)
        requires
            old(self).wf(),
            pos < hi <= tokens.len(),
        ensures
            final(self).wf(),
            ran(final(self)@, r, step(lexemes(tokens@), pos as int, hi as int, old(self)@)),
            r is Ok ==> r->Ok_0 == next_position(lexemes(tokens@), pos as int, hi as int) && pos
                < r->Ok_0 <= hi,
        decreases hi - pos, 1nat,
    {
        if token_is_mark(&tokens[pos], ":") {
            self.handle_definition(tokens, pos, hi)
        } else if token_is_mark(&tokens[pos], ";") {
            Err(ForthError::InvalidWord.message())
        } else if token_is_mark(&tokens[pos], "IF") {
            self.handle_if(tokens, pos, hi)
        } else {
            let word = self.resolve_token(&tokens[pos])?;
            self.run_word(&word)?;
            Ok(pos + 1)
        }
    }

    /// Runs the tokens from `lo` up to `hi`, outside any definition.
    fn run_range(&mut self, tokens: &Vec<Token>, lo: usize, hi: usize) -> (r: Result<(), String>)
        requires
            old(self).wf(),
            lo <= hi <= tokens.len(),
        ensures
            final(self).wf(),
            ran(final(self)@, r, run(lexemes(tokens@), lo as int, hi as int, old(self)@)),
        decreases hi - lo, 2nat,
    {
        let ghost toks = lexemes(tokens@);
        let mut pos: usize = lo;
        while pos < hi
            invariant
                lo <= pos <= hi <= tokens.len(),
                self.wf(),
                toks == lexemes(tokens@),
                run(toks, lo as int, hi as int, old(self)@) == run(
                    toks,
                    pos as int,
                    hi as int,
                    self@,
                ),
            decreases hi - pos,
        {
            pos = self.process_token(tokens, pos, hi)?;
        }
        Ok(())
    }

    /// Runs a program that is given as tokens whose words stand in upper
    /// case already; names are matched letter for letter.
    ///
    /// Numbers are pushed and string literals written. `:` begins a
    /// definition, which binds the name behind it to the tokens up to the
    /// next `;`, compiled against the words known at that moment. `IF` takes
    /// the top of the stack and runs the tokens up to its `ELSE` or `THEN` if
    /// that value is not zero, and those between its `ELSE` and `THEN`
    /// otherwise. Every other word runs the user's word of its name, else the
    /// built-in operation of that name. The first failure ends the run and
    /// leaves the state as it then is.
    pub fn run_tokens(&mut self, tokens: &Vec<Token>) -> (r: Result<(), String>)
        requires
            old(self).wf(),
        ensures
            final(self).wf(),
            ran(final(self)@, r, run_all(lexemes(tokens@), old(self)@)),
    {
        self.run_range(tokens, 0, tokens.len())
    }

    /// Runs a program that is given as source text: splits it into tokens,
    /// puts their words in upper case and runs them. The stack, the
    /// dictionary and the output carry over from one call to the next.
    pub fn parse_line(&mut self, line: &str) -> (r: Result<(), String>)
        requires
            old(self).wf(),
        ensures
            final(self).wf(),
            ran(final(self)@, r, run_all(canonical(lex(line@)), old(self)@)),
    {
        let tokens = canonicalize(&tokenize(line));
        self.run_tokens(&tokens)
    }
}

} // verus!
