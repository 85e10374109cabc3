//! What running a sequence of tokens means: definitions, conditionals and
//! the resolution of words, as functions on plain values.
//!
//! Names are matched letter for letter here. Words are put in upper case
//! once, before anything is run (see [`canonical`]), and that is all there
//! is to the language's indifference to case.

use vstd::prelude::*;
use crate::error::ForthError;
use crate::machine::{builtin_of, eval, eval_seq, Machine, Step};
use crate::parser::Lexeme;
use crate::text::{number_of, uppercase};
use crate::word::Code;

verus! {

/// A lexeme in the form in which it is run: a word in upper case, anything
/// else as it is.
pub open spec fn canonical_lexeme(l: Lexeme) -> Lexeme {
    match l {
        Lexeme::Word(w) => Lexeme::Word(uppercase(w)),
        other => other,
    }
}

/// The lexemes in the form in which they are run, one for one.
pub open spec fn canonical(toks: Seq<Lexeme>) -> Seq<Lexeme> {
    toks.map_values(|l: Lexeme| canonical_lexeme(l))
}

/// Everything an interpreter holds, as plain values.
pub struct World {
    /// The stack and the output.
    pub machine: Machine,
    /// The user-defined words by their names.
    pub dict: Map<Seq<char>, Code>,
}

/// Where the run of a program came to rest: the state it left, and the
/// failure that stopped it, if one did.
pub struct Run {
    pub world: World,
    pub error: Option<ForthError>,
}

impl World {
    /// Coming to rest here without a failure.
    pub open spec fn done(self) -> Run {
        Run { world: self, error: None }
    }

    /// Coming to rest here with a failure.
    pub open spec fn fail(self, error: ForthError) -> Run {
        Run { world: self, error: Some(error) }
    }

    /// The same dictionary beside another machine.
    pub open spec fn with_machine(self, machine: Machine) -> World {
        World { machine, ..self }
    }

    /// The world after `name` was bound to `code`.
    pub open spec fn define(self, name: Seq<char>, code: Code) -> World {
        World { dict: self.dict.insert(name, code), ..self }
    }
}

/// Whether a lexeme is the word with this exact text.
pub open spec fn is_mark(l: Lexeme, text: Seq<char>) -> bool {
    l is Word && l->Word_0 == text
}

/// Whether a lexeme can name a definition: a word that is no number.
pub open spec fn is_name(l: Lexeme) -> bool {
    l is Word && number_of(l->Word_0) is None
}

/// The places that delimit a conditional: its `ELSE`, if it has one, and
/// its `THEN`.
pub struct Branches {
    pub else_at: Option<int>,
    pub then_at: int,
}

impl Branches {
    /// Where the branch for a true condition ends.
    pub open spec fn true_end(self) -> int {
        match self.else_at {
            Some(e) => e,
            None => self.then_at,
        }
    }

    /// Whether the places lie in order between `lo` and `hi`.
    pub open spec fn within(self, lo: int, hi: int) -> bool {
        &&& lo <= self.then_at < hi
        &&& self.else_at is Some ==> lo <= self.else_at->0 < self.then_at
    }
}

/// The search for the `ELSE` and `THEN` of a conditional, from position `i`
/// on, `depth` conditionals being open there. An `IF` opens one more, a
/// `THEN` closes the innermost, and the first `ELSE` of the outermost is
/// kept, so that an inner conditional never lends its `THEN` to an outer
/// one. `None` if the tokens end before the outermost is closed.
pub open spec fn scan_branches(
    toks: Seq<Lexeme>,
    i: int,
    hi: int,
    depth: nat,
    else_at: Option<int>,
) -> Option<Branches>
    decreases hi - i,
{
    if i < 0 || i >= hi || hi > toks.len() {
        None
    } else if is_mark(toks[i], "IF"@) {
        scan_branches(toks, i + 1, hi, depth + 1, else_at)
    } else if is_mark(toks[i], "THEN"@) {
        if depth <= 1 {
            Some(Branches { else_at, then_at: i })
        } else {
            scan_branches(toks, i + 1, hi, (depth - 1) as nat, else_at)
        }
    } else if is_mark(toks[i], "ELSE"@) && depth <= 1 && else_at is None {
        scan_branches(toks, i + 1, hi, depth, Some(i))
    } else {
        scan_branches(toks, i + 1, hi, depth, else_at)
    }
}

/// The `ELSE` and `THEN` that belong to an `IF` whose branch begins at
/// `lo`, among the tokens before `hi`.
pub open spec fn find_branches(toks: Seq<Lexeme>, lo: int, hi: int) -> Option<Branches> {
    scan_branches(toks, lo, hi, 1, None)
}

/// What the search finds lies behind where it began, in order.
pub proof fn lemma_scan_branches(
    toks: Seq<Lexeme>,
    lo: int,
    i: int,
    hi: int,
    depth: nat,
    else_at: Option<int>,
)
    requires
        lo <= i,
        else_at is Some ==> lo <= else_at->0 < i,
    ensures
        scan_branches(toks, i, hi, depth, else_at) is Some ==> scan_branches(
            toks,
            i,
            hi,
            depth,
            else_at,
        )->0.within(lo, hi),
    decreases hi - i,
{
    if i < 0 || i >= hi || hi > toks.len() {
    } else if is_mark(toks[i], "IF"@) {
        lemma_scan_branches(toks, lo, i + 1, hi, depth + 1, else_at);
    } else if is_mark(toks[i], "THEN"@) {
        if depth > 1 {
            lemma_scan_branches(toks, lo, i + 1, hi, (depth - 1) as nat, else_at);
        }
    } else if is_mark(toks[i], "ELSE"@) && depth <= 1 && else_at is None {
        lemma_scan_branches(toks, lo, i + 1, hi, depth, Some(i));
    } else {
        lemma_scan_branches(toks, lo, i + 1, hi, depth, else_at);
    }
}

/// The delimiters of a conditional lie in order behind its `IF`.
pub proof fn lemma_find_branches(toks: Seq<Lexeme>, lo: int, hi: int)
    ensures
        find_branches(toks, lo, hi) is Some ==> find_branches(toks, lo, hi)->0.within(lo, hi),
{
    lemma_scan_branches(toks, lo, lo, hi, 1, None);
}

/// Whether a lexeme closes a conditional.
pub open spec fn closes(l: Lexeme) -> bool {
    !is_mark(l, "IF"@) && is_mark(l, "THEN"@)
}

/// Whether a lexeme parts the two branches of a conditional.
pub open spec fn divides(l: Lexeme) -> bool {
    !is_mark(l, "IF"@) && !is_mark(l, "THEN"@) && is_mark(l, "ELSE"@)
}

/// How many conditionals that were opened from `lo` on are still open
/// before position `i`: every `IF` counts one up, every `THEN` one down.
pub open spec fn open_conditionals(toks: Seq<Lexeme>, lo: int, i: int) -> int
    decreases i - lo,
{
    if i <= lo {
        0
    } else if is_mark(toks[i - 1], "IF"@) {
        open_conditionals(toks, lo, i - 1) + 1
    } else if is_mark(toks[i - 1], "THEN"@) {
        open_conditionals(toks, lo, i - 1) - 1
    } else {
        open_conditionals(toks, lo, i - 1)
    }
}

/// Whether no `THEN` from `lo` up to `i` stands where no inner conditional
/// is open.
pub open spec fn none_closes(toks: Seq<Lexeme>, lo: int, i: int) -> bool {
    forall|j: int| lo <= j < i && closes(#[trigger] toks[j]) ==> open_conditionals(toks, lo, j) > 0
}

/// Whether no `ELSE` from `lo` up to `i` stands where no inner conditional
/// is open.
pub open spec fn none_divides(toks: Seq<Lexeme>, lo: int, i: int) -> bool {
    forall|j: int|
        lo <= j < i && divides(#[trigger] toks[j]) ==> open_conditionals(toks, lo, j) != 0
}

/// Whether the places are those of the conditional whose first branch
/// begins at `lo`: its `THEN` is the first at which every conditional
/// opened in between is closed again, and its `ELSE` is the first before
/// that `THEN` that belongs to no inner conditional.
pub open spec fn delimits(toks: Seq<Lexeme>, lo: int, hi: int, b: Branches) -> bool {
    &&& lo <= b.then_at < hi
    &&& closes(toks[b.then_at])
    &&& open_conditionals(toks, lo, b.then_at) == 0
    &&& none_closes(toks, lo, b.then_at)
    &&& match b.else_at {
        Some(e) => {
            &&& lo <= e < b.then_at
            &&& divides(toks[e])
            &&& open_conditionals(toks, lo, e) == 0
            &&& none_divides(toks, lo, e)
        },
        None => none_divides(toks, lo, b.then_at),
    }
}

proof fn lemma_scan_delimits(
    toks: Seq<Lexeme>,
    lo: int,
    i: int,
    hi: int,
    depth: nat,
    else_at: Option<int>,
)
    requires
        0 <= lo <= i <= hi <= toks.len(),
        depth >= 1,
        depth == 1 + open_conditionals(toks, lo, i),
        none_closes(toks, lo, i),
        match else_at {
            Some(e) => {
                &&& lo <= e < i
                &&& divides(toks[e])
                &&& open_conditionals(toks, lo, e) == 0
                &&& none_divides(toks, lo, e)
            },
            None => none_divides(toks, lo, i),
        },
    ensures
        match scan_branches(toks, i, hi, depth, else_at) {
            Some(b) => delimits(toks, lo, hi, b),
            None => none_closes(toks, lo, hi),
        },
    decreases hi - i,
{
    if i >= hi {
    } else if is_mark(toks[i], "IF"@) {
        lemma_scan_delimits(toks, lo, i + 1, hi, depth + 1, else_at);
    } else if is_mark(toks[i], "THEN"@) {
        if depth > 1 {
            lemma_scan_delimits(toks, lo, i + 1, hi, (depth - 1) as nat, else_at);
        }
    } else if is_mark(toks[i], "ELSE"@) && depth <= 1 && else_at is None {
        lemma_scan_delimits(toks, lo, i + 1, hi, depth, Some(i));
    } else {
        lemma_scan_delimits(toks, lo, i + 1, hi, depth, else_at);
    }
}

/// A conditional ends at its own `THEN`: the places that the search gives
/// are those that [`delimits`] describes, and where it gives none, every
/// `THEN` behind the `IF` closes an inner conditional.
pub proof fn lemma_find_branches_delimits(toks: Seq<Lexeme>, lo: int, hi: int)
    requires
        0 <= lo,
        hi <= toks.len(),
    ensures
        match find_branches(toks, lo, hi) {
            Some(b) => delimits(toks, lo, hi, b),
            None => none_closes(toks, lo, hi),
        },
{
    if lo <= hi {
        lemma_scan_delimits(toks, lo, lo, hi, 1, None);
    }
}

/// The first position at or after `i` and before `hi` that holds the word
/// `;`, or `hi` if there is none.
pub open spec fn definition_end(toks: Seq<Lexeme>, i: int, hi: int) -> int
    decreases hi - i,
{
    if 0 <= i < hi && hi <= toks.len() && !is_mark(toks[i], ";"@) {
        definition_end(toks, i + 1, hi)
    } else {
        i
    }
}

/// Where [`definition_end`] points: at the first `;` from `i` on.
pub proof fn lemma_definition_end(toks: Seq<Lexeme>, i: int, hi: int)
    requires
        0 <= i <= hi <= toks.len(),
    ensures
        i <= definition_end(toks, i, hi) <= hi,
        definition_end(toks, i, hi) < hi ==> is_mark(toks[definition_end(toks, i, hi)], ";"@),
    decreases hi - i,
{
    if i < hi && !is_mark(toks[i], ";"@) {
        lemma_definition_end(toks, i + 1, hi);
    }
}

/// The code that a name stands for: the user's word of that name, else the
/// built-in operation of that name.
pub open spec fn resolve(dict: Map<Seq<char>, Code>, name: Seq<char>) -> Option<Code> {
    if dict.contains_key(name) {
        Some(dict[name])
    } else if builtin_of(name) is Some {
        Some(Code::Builtin(name))
    } else {
        None
    }
}

/// The code that a token outside any construct stands for, at this moment.
pub open spec fn resolve_lexeme(dict: Map<Seq<char>, Code>, l: Lexeme) -> Result<Code, ForthError> {
    match l {
        Lexeme::Number(n) => Ok(Code::Number(n)),
        Lexeme::Literal(text) => Ok(Code::Text(text)),
        Lexeme::Word(w) => match resolve(dict, w) {
            Some(code) => Ok(code),
            None => Err(ForthError::UnknownWord),
        },
    }
}

/// Where the construct that begins at `lo` inside a definition ends: behind
/// the `THEN` of a conditional, behind the token otherwise.
pub open spec fn compiled_next(toks: Seq<Lexeme>, lo: int, hi: int) -> int {
    if is_mark(toks[lo], ":"@) {
        lo + 1
    } else if is_mark(toks[lo], "IF"@) {
        match find_branches(toks, lo + 1, hi) {
            Some(b) => b.then_at + 1,
            None => lo + 1,
        }
    } else {
        lo + 1
    }
}

/// A code put in front of what follows it, if what follows compiles.
pub open spec fn prepended(first: Code, rest: Result<Seq<Code>, ForthError>) -> Result<
    Seq<Code>,
    ForthError,
> {
    match rest {
        Ok(r) => Ok(seq![first] + r),
        Err(e) => Err(e),
    }
}

/// The code of the construct that begins at `lo` inside a definition. Words
/// are resolved against the dictionary as it is now, so a later definition
/// leaves the code untouched.
pub open spec fn compile_one(dict: Map<Seq<char>, Code>, toks: Seq<Lexeme>, lo: int, hi: int) -> Result<
    Code,
    ForthError,
>
    decreases hi - lo, 0nat,
{
    if lo < 0 || lo >= hi || hi > toks.len() {
        Err(ForthError::InvalidWord)
    } else if is_mark(toks[lo], ":"@) {
        Err(ForthError::NestedDefinition)
    } else if is_mark(toks[lo], "IF"@) {
        match find_branches(toks, lo + 1, hi) {
            None => Err(ForthError::MissingThen),
            Some(b) => {
                proof {
                    lemma_find_branches(toks, lo + 1, hi);
                }
                match compile(dict, toks, lo + 1, b.true_end()) {
                    Err(e) => Err(e),
                    Ok(on_true) => match b.else_at {
                        None => Ok(Code::If { on_true, on_false: None }),
                        Some(e) => match compile(dict, toks, e + 1, b.then_at) {
                            Err(e) => Err(e),
                            Ok(on_false) => Ok(Code::If { on_true, on_false: Some(on_false) }),
                        },
                    },
                }
            },
        }
    } else {
        resolve_lexeme(dict, toks[lo])
    }
}

/// The codes of the tokens from `lo` up to `hi` inside a definition, or the
/// first failure among them.
pub open spec fn compile(dict: Map<Seq<char>, Code>, toks: Seq<Lexeme>, lo: int, hi: int) -> Result<
    Seq<Code>,
    ForthError,
>
    decreases hi - lo, 1nat,
{
    if lo < 0 || lo >= hi || hi > toks.len() {
        Ok(Seq::empty())
    } else {
        match compile_one(dict, toks, lo, hi) {
            Err(e) => Err(e),
            Ok(code) => {
                proof {
                    lemma_find_branches(toks, lo + 1, hi);
                }
                prepended(code, compile(dict, toks, compiled_next(toks, lo, hi), hi))
            },
        }
    }
}

/// Where the construct that begins at `lo` outside any definition ends:
/// behind the `;` of a definition, behind the `THEN` of a conditional,
/// behind the token otherwise.
pub open spec fn next_position(toks: Seq<Lexeme>, lo: int, hi: int) -> int {
    if is_mark(toks[lo], ":"@) {
        definition_end(toks, lo + 2, hi) + 1
    } else if is_mark(toks[lo], ";"@) {
        lo + 1
    } else if is_mark(toks[lo], "IF"@) {
        match find_branches(toks, lo + 1, hi) {
            Some(b) => b.then_at + 1,
            None => lo + 1,
        }
    } else {
        lo + 1
    }
}

/// Every construct ends behind where it begins.
pub proof fn lemma_next_position(toks: Seq<Lexeme>, lo: int, hi: int)
    requires
        0 <= lo < hi <= toks.len(),
    ensures
        lo < next_position(toks, lo, hi),
        lo < compiled_next(toks, lo, hi) <= hi,
{
    lemma_find_branches(toks, lo + 1, hi);
    if lo + 2 <= hi {
        lemma_definition_end(toks, lo + 2, hi);
    }
}

/// The effect of a definition whose `:` stands at `lo`: the name behind it
/// is bound to the code of the tokens up to the next `;`. A definition
/// without a name, with a number for a name or without a `;` is an invalid
/// word; one whose body does not compile fails as its body does. Either way
/// nothing is bound.
pub open spec fn define_at(toks: Seq<Lexeme>, lo: int, hi: int, w: World) -> Run {
    if lo + 1 >= hi || !is_name(toks[lo + 1]) {
        w.fail(ForthError::InvalidWord)
    } else {
        let end = definition_end(toks, lo + 2, hi);
        if end >= hi {
            w.fail(ForthError::InvalidWord)
        } else {
            match compile(w.dict, toks, lo + 2, end) {
                Err(e) => w.fail(e),
                Ok(body) => w.define(toks[lo + 1]->Word_0, Code::Words(body)).done(),
            }
        }
    }
}

/// The number of tokens from `lo` up to `hi`.
pub open spec fn span(lo: int, hi: int) -> nat {
    if lo <= hi {
        (hi - lo) as nat
    } else {
        0
    }
}

/// The effect of the construct that begins at `lo`, outside any
/// definition. A conditional is located first and its condition taken
/// then, so an `IF` without `THEN` fails with the stack untouched.
pub open spec fn step(toks: Seq<Lexeme>, lo: int, hi: int, w: World) -> Run
    decreases span(lo, hi), 0nat,
{
    if lo < 0 || lo >= hi || hi > toks.len() {
        w.done()
    } else if is_mark(toks[lo], ":"@) {
        define_at(toks, lo, hi, w)
    } else if is_mark(toks[lo], ";"@) {
        w.fail(ForthError::InvalidWord)
    } else if is_mark(toks[lo], "IF"@) {
        match find_branches(toks, lo + 1, hi) {
            None => w.fail(ForthError::MissingThen),
            Some(b) => {
                proof {
                    lemma_find_branches(toks, lo + 1, hi);
                }
                if w.machine.stack.len() == 0 {
                    w.fail(ForthError::StackUnderflow)
                } else {
                    let taken = w.with_machine(w.machine.without(1));
                    if w.machine.top(0) != 0 {
                        run(toks, lo + 1, b.true_end(), taken)
                    } else {
                        match b.else_at {
                            Some(e) => run(toks, e + 1, b.then_at, taken),
                            None => taken.done(),
                        }
                    }
                }
            },
        }
    } else {
        match resolve_lexeme(w.dict, toks[lo]) {
            Err(e) => w.fail(e),
            Ok(code) => {
                let s = eval(code, w.machine);
                Run { world: w.with_machine(s.machine), error: s.error }
            },
        }
    }
}

/// The effect of the tokens from `lo` up to `hi`, outside any definition:
/// one construct after the other, up to the first that fails.
pub open spec fn run(toks: Seq<Lexeme>, lo: int, hi: int, w: World) -> Run
    decreases span(lo, hi), 1nat,
{
    if lo < 0 || lo >= hi || hi > toks.len() {
        w.done()
    } else {
        let first = step(toks, lo, hi, w);
        if first.error is Some {
            first
        } else {
            proof {
                lemma_next_position(toks, lo, hi);
            }
            run(toks, next_position(toks, lo, hi), hi, first.world)
        }
    }
}

/// The effect of a whole program.
pub open spec fn run_all(toks: Seq<Lexeme>, w: World) -> Run {
    run(toks, 0, toks.len() as int, w)
}

/// Whether no token from `lo` up to `hi` begins or ends a definition.
pub open spec fn free_of_definitions(toks: Seq<Lexeme>, lo: int, hi: int) -> bool {
    forall|i: int|
        lo <= i < hi ==> !is_mark(#[trigger] toks[i], ":"@) && !is_mark(toks[i], ";"@)
}

/// The run that leaves the dictionary alone and does to the machine what
/// `s` says.
pub open spec fn lifted(w: World, s: Step) -> Run {
    Run { world: w.with_machine(s.machine), error: s.error }
}

proof fn lemma_eval_seq_shift(first: Code, rest: Seq<Code>, k: int, m: Machine)
    requires
        0 <= k <= rest.len(),
    ensures
        eval_seq(seq![first] + rest, k + 1, m) == eval_seq(rest, k, m),
    decreases rest.len() - k,
{
    if k < rest.len() {
        let f = eval(rest[k], m);
        if f.error is None {
            lemma_eval_seq_shift(first, rest, k + 1, f.machine);
        }
    }
}

/// Tokens mean the same whether they are run as they stand or compiled
/// first and run then: where a stretch of tokens holds no definition and
/// compiles, running it has the effect of running its code. (Where it does
/// not compile, running it may still go well, for a branch that is not
/// taken is not looked at.)
pub proof fn lemma_compiled_runs_alike(toks: Seq<Lexeme>, lo: int, hi: int, w: World)
    requires
        0 <= lo <= hi <= toks.len(),
        free_of_definitions(toks, lo, hi),
        compile(w.dict, toks, lo, hi) is Ok,
    ensures
        run(toks, lo, hi, w) == lifted(
            w,
            eval_seq(compile(w.dict, toks, lo, hi)->Ok_0, 0, w.machine),
        ),
    decreases hi - lo,
{
    let m = w.machine;
    if lo < hi {
        lemma_next_position(toks, lo, hi);
        lemma_find_branches(toks, lo + 1, hi);
        let next = compiled_next(toks, lo, hi);
        let code = compile_one(w.dict, toks, lo, hi)->Ok_0;
        let rest = compile(w.dict, toks, next, hi)->Ok_0;
        let first = step(toks, lo, hi, w);
        assert(first == lifted(w, eval(code, m))) by {
            if is_mark(toks[lo], "IF"@) {
                let b = find_branches(toks, lo + 1, hi)->0;
                if m.stack.len() > 0 {
                    let taken = w.with_machine(m.without(1));
                    if m.top(0) != 0 {
                        lemma_compiled_runs_alike(toks, lo + 1, b.true_end(), taken);
                    } else if b.else_at is Some {
                        lemma_compiled_runs_alike(toks, b.else_at->0 + 1, b.then_at, taken);
                    }
                }
            }
        }
        if first.error is None {
            lemma_compiled_runs_alike(toks, next, hi, first.world);
            lemma_eval_seq_shift(code, rest, 0, first.world.machine);
        }
    }
}

} // verus!
