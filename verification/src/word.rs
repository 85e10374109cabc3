//! Compiled words: what a definition body is made of.

use vstd::prelude::*;
use std::rc::Rc;

verus! {

/// A compiled word. Bodies are shared, never copied: a word that is used in
/// many definitions exists once.
#[derive(Debug, Clone, PartialEq)]
pub enum Word {
    /// Pushes the number.
    Number(i16),
    /// Runs the words in turn.
    Words(Vec<Rc<Word>>),
    /// Runs the built-in operation of this name.
    Builtin(String),
    /// Writes the text to the output.
    StringLiteral(String),
    /// Takes the top of the stack and runs one of the two branches.
    If { true_branch: Vec<Rc<Word>>, false_branch: Option<Vec<Rc<Word>>> },
}

/// What a compiled word stands for: the same tree over plain values.
pub enum Code {
    Number(i16),
    Words(Seq<Code>),
    Builtin(Seq<char>),
    Text(Seq<char>),
    If { on_true: Seq<Code>, on_false: Option<Seq<Code>> },
}

/// The codes of a sequence of shared words, one for one.
pub open spec fn codes(words: Seq<Rc<Word>>) -> Seq<Code>
    decreases words,
{
    Seq::new(
        words.len(),
        |i: int|
            if 0 <= i < words.len() {
                (*words[i]).code()
            } else {
                Code::Number(0)
            },
    )
}

impl Word {
    /// What this word stands for.
    pub open spec fn code(self) -> Code
        decreases self,
    {
        match self {
            Word::Number(n) => Code::Number(n),
            Word::Words(words) => Code::Words(codes(words@)),
            Word::Builtin(name) => Code::Builtin(name@),
            Word::StringLiteral(text) => Code::Text(text@),
            Word::If { true_branch, false_branch } => Code::If {
                on_true: codes(true_branch@),
                on_false: match false_branch {
                    Some(words) => Some(codes(words@)),
                    None => None,
                },
            },
        }
    }
}

impl View for Word {
    type V = Code;

    open spec fn view(&self) -> Code {
        self.code()
    }
}

/// `Rc::clone` of the standard library: a second handle to the same word.
#[verifier::external_body]
pub(crate) fn share(word: &Rc<Word>) -> (r: Rc<Word>)
    ensures
        r == *word,
{
    Rc::clone(word)
}

} // verus!
