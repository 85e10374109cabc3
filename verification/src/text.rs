//! Characters, number literals and decimal rendering.

use vstd::prelude::*;

verus! {

/// `String::push` of the standard library: the string grows by exactly the
/// given character, at its end.
pub assume_specification[ String::push ](s: &mut String, c: char)
    ensures
        final(s)@ == old(s)@.push(c),
;

/// Equality of string slices in the standard library: two slices are equal
/// exactly when they hold the same characters in the same order.
pub assume_specification[ <str as PartialEq>::eq ](a: &str, b: &str) -> (r: bool)
    ensures
        r == (a@ == b@),
;

/// `char::from_u32` of the standard library: a number is turned into the
/// character with that code point; the surrogate range and everything above
/// `0x10FFFF` have no character.
pub assume_specification[ char::from_u32 ](i: u32) -> (r: Option<char>)
    ensures
        r == if i <= 0xD7FF || (0xE000 <= i && i <= 0x10FFFF) {
            Some(i as char)
        } else {
            None
        },
;

/// The upper-case form of a text, as the Unicode tables define it.
/// Nothing is claimed about which characters it holds.
pub uninterp spec fn uppercase(s: Seq<char>) -> Seq<char>;

/// `str::to_uppercase` of the standard library: the result depends on the
/// characters of the argument alone; it is named [`uppercase`].
pub assume_specification[ str::to_uppercase ](s: &str) -> (r: String)
    ensures
        r@ == uppercase(s@),
;

/// The characters with the Unicode property `White_Space`.
pub open spec fn is_space(c: char) -> bool {
    let u = c as u32;
    ||| 0x09 <= u <= 0x0D
    ||| u == 0x20
    ||| u == 0x85
    ||| u == 0xA0
    ||| u == 0x1680
    ||| 0x2000 <= u <= 0x200A
    ||| u == 0x2028
    ||| u == 0x2029
    ||| u == 0x202F
    ||| u == 0x205F
    ||| u == 0x3000
}

/// Tells whether a character separates tokens.
pub fn is_whitespace(c: char) -> (r: bool)
    ensures
        r == is_space(c),
{
    let u: u32 = c as u32;
    (0x09 <= u && u <= 0x0D) || u == 0x20 || u == 0x85 || u == 0xA0 || u == 0x1680 || (0x2000 <= u
        && u <= 0x200A) || u == 0x2028 || u == 0x2029 || u == 0x202F || u == 0x205F || u == 0x3000
}

/// The characters of a string slice, one element per `char`.
pub fn chars_of(s: &str) -> (v: Vec<char>)
    ensures
        v@ == s@,
{
    let mut v: Vec<char> = Vec::new();
    for c in it: s.chars()
        invariant
            v@ == it.seq().take(it.index()),
    {
        v.push(c);
    }
    v
}

/// The text held by `chars` between two positions, as an owned string.
pub fn text_of(chars: &Vec<char>, from: usize, to: usize) -> (s: String)
    requires
        from <= to <= chars.len(),
    ensures
        s@ == chars@.subrange(from as int, to as int),
{
    let mut s = String::new();
    let mut i: usize = from;
    while i < to
        invariant
            from <= i <= to <= chars.len(),
            s@ == chars@.subrange(from as int, i as int),
        decreases to - i,
    {
        s.push(chars[i]);
        i += 1;
    }
    s
}

/// Whether a character is one of the ten decimal digits.
pub open spec fn is_digit(c: char) -> bool {
    '0' <= c <= '9'
}

/// The number that a decimal digit denotes.
pub open spec fn digit_value(c: char) -> int {
    c as int - '0' as int
}

/// Whether a text holds decimal digits only.
pub open spec fn all_digits(s: Seq<char>) -> bool {
    forall|i: int| 0 <= i < s.len() ==> is_digit(#[trigger] s[i])
}

/// The number that a run of decimal digits denotes, most significant first.
pub open spec fn digits_value(s: Seq<char>) -> int
    decreases s.len(),
{
    if s.len() == 0 {
        0
    } else {
        digits_value(s.drop_last()) * 10 + digit_value(s.last())
    }
}

/// Whether a text begins with a sign.
pub open spec fn has_sign(s: Seq<char>) -> bool {
    s.len() > 0 && (s[0] == '-' || s[0] == '+')
}

/// The digits of a number literal: the text without its sign.
pub open spec fn unsigned_part(s: Seq<char>) -> Seq<char> {
    if has_sign(s) {
        s.subrange(1, s.len() as int)
    } else {
        s
    }
}

/// The value a text would have as a number literal, whatever its size.
pub open spec fn literal_value(s: Seq<char>) -> int {
    if s.len() > 0 && s[0] == '-' {
        -digits_value(unsigned_part(s))
    } else {
        digits_value(unsigned_part(s))
    }
}

/// The meaning of a text as a signed 16-bit literal: an optional `+` or
/// `-`, then at least one decimal digit, the value within the 16-bit range.
pub open spec fn number_of(s: Seq<char>) -> Option<i16> {
    let digits = unsigned_part(s);
    if digits.len() > 0 && all_digits(digits) && i16::MIN <= literal_value(s) <= i16::MAX {
        Some(literal_value(s) as i16)
    } else {
        None
    }
}

/// A run of digits denotes no negative number, and no smaller one than
/// the run without its last digit.
pub proof fn lemma_digits_value_bounds(s: Seq<char>)
    requires
        all_digits(s),
    ensures
        0 <= digits_value(s),
        s.len() > 0 ==> digits_value(s.drop_last()) <= digits_value(s),
    decreases s.len(),
{
    if s.len() > 0 {
        lemma_digits_value_bounds(s.drop_last());
    }
}

/// Reads the text between two positions as a run of decimal digits.
/// Hands back its value where that is below `limit`, and `limit` where it
/// is not; `None` where the text is empty or holds anything but digits.
pub fn parse_digits(chars: &Vec<char>, from: usize, to: usize, limit: u128) -> (r: Option<u128>)
    requires
        from <= to <= chars.len(),
        limit <= 0xFFFF_FFFF_FFFF_FFFF_FFFF,
    ensures
        match r {
            Some(v) => {
                let s = chars@.subrange(from as int, to as int);
                &&& s.len() > 0
                &&& all_digits(s)
                &&& digits_value(s) < limit ==> v == digits_value(s)
                &&& digits_value(s) >= limit ==> v == limit
            },
            None => {
                let s = chars@.subrange(from as int, to as int);
                !(s.len() > 0 && all_digits(s))
            },
        },
{
    let ghost s = chars@.subrange(from as int, to as int);
    if from == to {
        return None;
    }
    let mut acc: u128 = 0;
    let mut i: usize = from;
    while i < to
        invariant
            from <= i <= to <= chars.len(),
            limit <= 0xFFFF_FFFF_FFFF_FFFF_FFFF,
            s == chars@.subrange(from as int, to as int),
            all_digits(s.take(i - from)),
            acc <= limit,
            digits_value(s.take(i - from)) < limit ==> acc == digits_value(s.take(i - from)),
            digits_value(s.take(i - from)) >= limit ==> acc == limit,
        decreases to - i,
    {
        let c = chars[i];
        let ghost before = s.take(i - from);
        let ghost after = s.take(i - from + 1);
        assert(after.drop_last() == before);
        if !(c >= '0' && c <= '9') {
            assert(!is_digit(s[i - from]));
            return None;
        }
        proof {
            lemma_digits_value_bounds(before);
        }
        let d: u128 = (c as u32 - '0' as u32) as u128;
        let next: u128 = acc * 10 + d;
        acc = if next > limit {
            limit
        } else {
            next
        };
        i += 1;
    }
    assert(s.take(to - from) == s);
    Some(acc)
}

/// Reads the text between two positions as a signed 16-bit literal.
pub fn parse_number(chars: &Vec<char>, from: usize, to: usize) -> (r: Option<i16>)
    requires
        from <= to <= chars.len(),
    ensures
        r == number_of(chars@.subrange(from as int, to as int)),
{
    let ghost s = chars@.subrange(from as int, to as int);
    if from == to {
        return None;
    }
    let negative = chars[from] == '-';
    let start: usize = if chars[from] == '-' || chars[from] == '+' {
        from + 1
    } else {
        from
    };
    assert(unsigned_part(s) == chars@.subrange(start as int, to as int));
    match parse_digits(chars, start, to, 40000) {
        None => None,
        Some(magnitude) => {
            if negative {
                if magnitude <= 32768 {
                    let v: i32 = -(magnitude as i32);
                    Some(v as i16)
                } else {
                    None
                }
            } else {
                if magnitude <= 32767 {
                    Some(magnitude as i16)
                } else {
                    None
                }
            }
        },
    }
}

/// The meaning of a text as a count that fits the machine: an optional
/// `+`, then at least one decimal digit, the value no larger than the
/// largest `usize`.
pub open spec fn count_of(s: Seq<char>) -> Option<usize> {
    let digits = if s.len() > 0 && s[0] == '+' {
        s.subrange(1, s.len() as int)
    } else {
        s
    };
    if digits.len() > 0 && all_digits(digits) && digits_value(digits) <= usize::MAX {
        Some(digits_value(digits) as usize)
    } else {
        None
    }
}

/// Reads the text from a position on as a count that fits the machine.
pub fn parse_count(chars: &Vec<char>, from: usize) -> (r: Option<usize>)
    requires
        from <= chars.len(),
    ensures
        r == count_of(chars@.subrange(from as int, chars@.len() as int)),
{
    let to: usize = chars.len();
    let ghost s = chars@.subrange(from as int, to as int);
    if from == to {
        return None;
    }
    let start: usize = if chars[from] == '+' {
        from + 1
    } else {
        from
    };
    assert(s.subrange(1, s.len() as int) == chars@.subrange(from + 1, to as int));
    match parse_digits(chars, start, to, 0x1_0000_0000_0000_0000) {
        None => None,
        Some(value) => {
            if value <= usize::MAX as u128 {
                Some(value as usize)
            } else {
                None
            }
        },
    }
}

/// The character that shows one decimal digit.
pub open spec fn digit_char(d: int) -> char {
    (d + '0' as int) as char
}

/// The decimal digits of a natural number, without leading zeros.
pub open spec fn decimal_digits(n: nat) -> Seq<char>
    decreases n,
{
    if n < 10 {
        seq![digit_char(n as int)]
    } else {
        decimal_digits(n / 10).push(digit_char((n % 10) as int))
    }
}

/// The decimal text of an integer: a `-` for negative values, then digits.
pub open spec fn decimal(v: int) -> Seq<char> {
    if v < 0 {
        seq!['-'] + decimal_digits((-v) as nat)
    } else {
        decimal_digits(v as nat)
    }
}

fn push_digits(out: &mut String, n: u32)
    ensures
        final(out)@ == old(out)@ + decimal_digits(n as nat),
    decreases n,
{
    if n >= 10 {
        push_digits(out, n / 10);
    }
    let d: u8 = (n % 10) as u8;
    let c: char = (48u8 + d) as char;
    out.push(c);
}

/// Appends the decimal text of `v` to `out`.
pub fn push_decimal(out: &mut String, v: i16)
    ensures
        final(out)@ == old(out)@ + decimal(v as int),
{
    if v < 0 {
        out.push('-');
        let magnitude: u32 = (-(v as i32)) as u32;
        push_digits(out, magnitude);
    } else {
        push_digits(out, v as u32);
    }
}

} // verus!
