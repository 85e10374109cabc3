//! Splitting source text into tokens.

use vstd::prelude::*;
use vstd::string::*;
use crate::text::{chars_of, is_space, is_whitespace, number_of, parse_number, text_of};

verus! {

/// One lexical unit of a program.
#[derive(Debug, Clone, PartialEq)]
pub enum Token {
    /// A signed 16-bit literal.
    Number(i16),
    /// A bare word, with the casing it has in the source.
    Word(String),
    /// The text between `."` and the closing `"`.
    StringLiteral(String),
}

/// What a token stands for: the same three kinds over plain values.
pub enum Lexeme {
    Number(i16),
    Word(Seq<char>),
    Literal(Seq<char>),
}

impl View for Token {
    type V = Lexeme;

    open spec fn view(&self) -> Lexeme {
        match self {
            Token::Number(n) => Lexeme::Number(*n),
            Token::Word(s) => Lexeme::Word(s@),
            Token::StringLiteral(s) => Lexeme::Literal(s@),
        }
    }
}

/// The lexemes of a sequence of tokens, one for one.
pub open spec fn lexemes(tokens: Seq<Token>) -> Seq<Lexeme> {
    tokens.map_values(|t: Token| t@)
}

/// Whether a string literal opens at position `i`: a dot, a double quote
/// and a space, in this order.
pub open spec fn opens_literal(s: Seq<char>, i: int) -> bool {
    i + 2 < s.len() && s[i] == '.' && s[i + 1] == '"' && s[i + 2] == ' '
}

/// The first position at or after `i` that holds a double quote, or the
/// end of the text if there is none.
pub open spec fn quote_end(s: Seq<char>, i: int) -> int
    decreases s.len() - i,
{
    if 0 <= i < s.len() && s[i] != '"' {
        quote_end(s, i + 1)
    } else {
        i
    }
}

/// The first position at or after `i` that holds white space, or the end
/// of the text if there is none.
pub open spec fn word_end(s: Seq<char>, i: int) -> int
    decreases s.len() - i,
{
    if 0 <= i < s.len() && !is_space(s[i]) {
        word_end(s, i + 1)
    } else {
        i
    }
}

/// Where [`quote_end`] points: at the first double quote from `i` on.
pub proof fn lemma_quote_end(s: Seq<char>, i: int)
    requires
        0 <= i <= s.len(),
    ensures
        i <= quote_end(s, i) <= s.len(),
        quote_end(s, i) < s.len() ==> s[quote_end(s, i)] == '"',
        forall|k: int| i <= k < quote_end(s, i) ==> s[k] != '"',
    decreases s.len() - i,
{
    if i < s.len() && s[i] != '"' {
        lemma_quote_end(s, i + 1);
    }
}

/// Where [`word_end`] points: at the first white space from `i` on.
pub proof fn lemma_word_end(s: Seq<char>, i: int)
    requires
        0 <= i <= s.len(),
    ensures
        i <= word_end(s, i) <= s.len(),
        i < s.len() && !is_space(s[i]) ==> i < word_end(s, i),
        word_end(s, i) < s.len() ==> is_space(s[word_end(s, i)]),
        forall|k: int| i <= k < word_end(s, i) ==> !is_space(s[k]),
    decreases s.len() - i,
{
    if i < s.len() && !is_space(s[i]) {
        lemma_word_end(s, i + 1);
    }
}

/// A run of characters without white space is a number if it reads as one,
/// and a word otherwise.
pub open spec fn classify(text: Seq<char>) -> Lexeme {
    match number_of(text) {
        Some(n) => Lexeme::Number(n),
        None => Lexeme::Word(text),
    }
}

/// A lexeme put in front of what follows it, if anything valid follows.
pub open spec fn followed(first: Lexeme, rest: Option<Seq<Lexeme>>) -> Option<Seq<Lexeme>> {
    match rest {
        Some(r) => Some(seq![first] + r),
        None => None,
    }
}

/// The lexemes of the text from position `i` on, before adjacent literals
/// are joined; `None` if a string literal is left open.
pub open spec fn scan(s: Seq<char>, i: int) -> Option<Seq<Lexeme>>
    decreases s.len() - i,
{
    if i < 0 || i >= s.len() {
        Some(Seq::empty())
    } else if is_space(s[i]) {
        scan(s, i + 1)
    } else if opens_literal(s, i) {
        let end = quote_end(s, i + 3);
        if end >= s.len() {
            None
        } else {
            proof {
                lemma_quote_end(s, i + 3);
            }
            followed(Lexeme::Literal(s.subrange(i + 3, end)), scan(s, end + 1))
        }
    } else {
        let end = word_end(s, i);
        proof {
            lemma_word_end(s, i);
        }
        followed(classify(s.subrange(i, end)), scan(s, end))
    }
}

/// Two literals joined into one, with a single space between them.
pub open spec fn joined(a: Seq<char>, b: Seq<char>) -> Seq<char> {
    a.push(' ') + b
}

/// The lexemes with every run of adjacent literals joined into one literal.
pub open spec fn merged(ts: Seq<Lexeme>) -> Seq<Lexeme>
    decreases ts.len(),
{
    if ts.len() == 0 {
        Seq::empty()
    } else {
        let init = merged(ts.drop_last());
        if ts.last() is Literal && init.len() > 0 && init.last() is Literal {
            init.drop_last().push(
                Lexeme::Literal(joined(init.last()->Literal_0, ts.last()->Literal_0)),
            )
        } else {
            init.push(ts.last())
        }
    }
}

/// The lexemes of a source text. A text with a string literal that is
/// never closed has none at all.
pub open spec fn lex(s: Seq<char>) -> Seq<Lexeme> {
    match scan(s, 0) {
        Some(ts) => merged(ts),
        None => Seq::empty(),
    }
}

/// What has been scanned so far, put in front of what the rest scans to.
pub open spec fn continued(done: Seq<Lexeme>, rest: Option<Seq<Lexeme>>) -> Option<Seq<Lexeme>> {
    match rest {
        Some(r) => Some(done + r),
        None => None,
    }
}

/// Reads the literal that begins at `start`: hands back the position of
/// its closing quote, or the length of the text if it is never closed.
pub fn read_quoted_literal(chars: &Vec<char>, start: usize) -> (end: usize)
    requires
        start <= chars.len(),
    ensures
        end == quote_end(chars@, start as int),
        start <= end <= chars.len(),
{
    let mut i: usize = start;
    while i < chars.len() && chars[i] != '"'
        invariant
            start <= i <= chars.len(),
            quote_end(chars@, start as int) == quote_end(chars@, i as int),
        decreases chars.len() - i,
    {
        i += 1;
    }
    i
}

/// Reads the run of characters without white space that begins at `start`:
/// hands back the position just behind it.
pub fn read_word(chars: &Vec<char>, start: usize) -> (end: usize)
    requires
        start <= chars.len(),
    ensures
        end == word_end(chars@, start as int),
        start <= end <= chars.len(),
{
    let mut i: usize = start;
    while i < chars.len() && !is_whitespace(chars[i])
        invariant
            start <= i <= chars.len(),
            word_end(chars@, start as int) == word_end(chars@, i as int),
        decreases chars.len() - i,
    {
        i += 1;
    }
    i
}

/// Splits the characters into tokens, without joining adjacent literals.
/// `None` if a string literal is left open.
pub fn scan_tokens(chars: &Vec<char>) -> (r: Option<Vec<Token>>)
    ensures
        match r {
            Some(tokens) => scan(chars@, 0) == Some(lexemes(tokens@)),
            None => scan(chars@, 0) is None,
        },
{
    let mut tokens: Vec<Token> = Vec::new();
    let mut i: usize = 0;
    while i < chars.len()
        invariant
            i <= chars.len(),
            scan(chars@, 0) == continued(lexemes(tokens@), scan(chars@, i as int)),
        decreases chars.len() - i,
    {
        if is_whitespace(chars[i]) {
            i += 1;
        } else if chars.len() - i > 2 && chars[i] == '.' && chars[i + 1] == '"' && chars[i + 2]
            == ' ' {
            let start: usize = i + 3;
            let end: usize = read_quoted_literal(chars, start);
            if end >= chars.len() {
                return None;
            }
            let literal = text_of(chars, start, end);
            tokens.push(Token::StringLiteral(literal));
            i = end + 1;
        } else {
            let end: usize = read_word(chars, i);
            proof {
                lemma_word_end(chars@, i as int);
            }
            match parse_number(chars, i, end) {
                Some(n) => {
                    tokens.push(Token::Number(n));
                },
                None => {
                    let word = text_of(chars, i, end);
                    tokens.push(Token::Word(word));
                },
            }
            i = end;
        }
    }
    Some(tokens)
}

/// Joins every run of adjacent string literals into one literal, its parts
/// separated by single spaces.
pub fn merge_literals(tokens: Vec<Token>) -> (r: Vec<Token>)
    ensures
        lexemes(r@) == merged(lexemes(tokens@)),
{
    let mut out: Vec<Token> = Vec::new();
    let mut i: usize = 0;
    let ghost all = lexemes(tokens@);
    while i < tokens.len()
        invariant
            i <= tokens.len(),
            all == lexemes(tokens@),
            lexemes(out@) == merged(all.take(i as int)),
        decreases tokens.len() - i,
    {
        assert(all.take(i + 1).drop_last() == all.take(i as int));
        let last_is_literal = out.len() > 0 && match &out[out.len() - 1] {
            Token::StringLiteral(_) => true,
            _ => false,
        };
        match &tokens[i] {
            Token::StringLiteral(b) => {
                if last_is_literal {
                    match out.pop() {
                        Some(Token::StringLiteral(a)) => {
                            let mut both = a;
                            both.push(' ');
                            both.append(b.as_str());
                            out.push(Token::StringLiteral(both));
                        },
                        _ => {},
                    }
                } else {
                    out.push(Token::StringLiteral(b.clone()));
                }
            },
            Token::Word(w) => {
                out.push(Token::Word(w.clone()));
            },
            Token::Number(n) => {
                out.push(Token::Number(*n));
            },
        }
        i += 1;
    }
    assert(all.take(tokens.len() as int) == all);
    out
}

/// Splits a source text into tokens.
///
/// Runs of white space separate tokens. A dot, a double quote and a space
/// open a string literal, which holds every character up to the next double
/// quote as it stands. Any other run of characters is a number if it reads
/// as a signed 16-bit literal, and a word otherwise. Adjacent string
/// literals are joined by single spaces. A text whose last string literal
/// is never closed gives no tokens at all.
pub fn tokenize(input: &str) -> (tokens: Vec<Token>)
    ensures
        lexemes(tokens@) == lex(input@),
{
    let chars = chars_of(input);
    match scan_tokens(&chars) {
        Some(tokens) => merge_literals(tokens),
        None => Vec::new(),
    }
}

/// The source text of a string literal with the given payload.
pub open spec fn quoted(payload: Seq<char>) -> Seq<char> {
    seq!['.', '"', ' '] + payload + seq!['"']
}

proof fn lemma_quote_end_at(s: Seq<char>, i: int, j: int)
    requires
        0 <= i <= j < s.len(),
        s[j] == '"',
        forall|k: int| i <= k < j ==> s[k] != '"',
    ensures
        quote_end(s, i) == j,
    decreases j - i,
{
    if i < j {
        lemma_quote_end_at(s, i + 1, j);
    }
}

/// A string literal comes back as it was written: whatever stands between
/// the opening and the closing quote, runs of spaces among it, is the
/// payload of the one token that the text gives.
pub proof fn lemma_literal_round_trip(payload: Seq<char>)
    requires
        forall|i: int| 0 <= i < payload.len() ==> payload[i] != '"',
    ensures
        lex(quoted(payload)) == seq![Lexeme::Literal(payload)],
{
    let s = quoted(payload);
    let n = payload.len() as int;
    lemma_quote_end_at(s, 3, n + 3);
    assert(s.subrange(3, n + 3) == payload);
    assert(scan(s, n + 4) == Some(Seq::<Lexeme>::empty()));
    let one = seq![Lexeme::Literal(payload)];
    assert(merged(one.drop_last()) == Seq::<Lexeme>::empty());
}

/// Whether no word among the lexemes reads as a number.
pub open spec fn words_are_not_numbers(ts: Seq<Lexeme>) -> bool {
    forall|i: int| 0 <= i < ts.len() && ts[i] is Word ==> number_of(#[trigger] ts[i]->Word_0) is None
}

proof fn lemma_scan_words(s: Seq<char>, i: int)
    ensures
        scan(s, i) is Some ==> words_are_not_numbers(scan(s, i)->0),
    decreases s.len() - i,
{
    if i < 0 || i >= s.len() {
    } else if is_space(s[i]) {
        lemma_scan_words(s, i + 1);
    } else if opens_literal(s, i) {
        let end = quote_end(s, i + 3);
        if end < s.len() {
            lemma_quote_end(s, i + 3);
            lemma_scan_words(s, end + 1);
        }
    } else {
        let end = word_end(s, i);
        lemma_word_end(s, i);
        lemma_scan_words(s, end);
    }
}

proof fn lemma_merged_words(ts: Seq<Lexeme>)
    requires
        words_are_not_numbers(ts),
    ensures
        words_are_not_numbers(merged(ts)),
    decreases ts.len(),
{
    if ts.len() > 0 {
        let front = ts.drop_last();
        lemma_merged_words(front);
    }
}

/// Numbers come first: no word that `lex` hands out reads as a signed
/// 16-bit literal.
pub proof fn lemma_words_are_not_numbers(s: Seq<char>)
    ensures
        words_are_not_numbers(lex(s)),
{
    lemma_scan_words(s, 0);
    if scan(s, 0) is Some {
        lemma_merged_words(scan(s, 0)->0);
    }
}

} // verus!
