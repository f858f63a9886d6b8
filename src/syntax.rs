//! The grammar of the nested byte-list text, as spec functions over characters.
//!
//! ```text
//! group     := "[" (byteList ("," byteList)*)? "]"
//! byteList  := "[" (uint8 ("," uint8)*)? "]"
//! uint8     := one or more decimal digits whose value is at most 255
//! ```
//!
//! Each parse function takes the text and a position and returns the value read
//! with the position just past it, or the error with the position where the
//! text stopped matching the grammar.
use vstd::prelude::*;

verus! {

/// Why a text does not match the grammar, and where.
#[derive(Debug, Clone, Copy, PartialEq, Eq, Structural)]
pub enum ParseError {
    /// A byte list is malformed: a missing bracket or separator, or an element
    /// that is not a decimal number in 0..=255.
    MalformedByteList { offset: usize },
    /// The outer list of byte lists is malformed.
    MalformedInput { offset: usize },
}

impl ParseError {
    /// The position at which the text stopped matching the grammar.
    pub fn offset(&self) -> (r: usize)
        ensures
            r == self.spec_offset(),
    {
        match self {
            ParseError::MalformedByteList { offset } => *offset,
            ParseError::MalformedInput { offset } => *offset,
        }
    }

    pub open spec fn spec_offset(&self) -> usize {
        match self {
            ParseError::MalformedByteList { offset } => *offset,
            ParseError::MalformedInput { offset } => *offset,
        }
    }
}

/// The outcome of reading a `T` from some position: the value and the position
/// just past it, or an error.
pub type Parsed<T> = Result<(T, int), ParseError>;

pub open spec fn is_digit(c: char) -> bool {
    '0' <= c && c <= '9'
}

pub open spec fn digit_value(c: char) -> nat {
    (c as u32 - '0' as u32) as nat
}

/// The value of a run of decimal digits, most significant first.
pub open spec fn decimal_value(d: Seq<char>) -> nat
    decreases d.len(),
{
    if d.len() == 0 {
        0
    } else {
        decimal_value(d.drop_last()) * 10 + digit_value(d.last())
    }
}

/// The position just past the run of digits that starts at `i`.
pub open spec fn digits_end(s: Seq<char>, i: int) -> int
    decreases s.len() - i,
{
    if 0 <= i < s.len() && is_digit(s[i]) {
        digits_end(s, i + 1)
    } else {
        i
    }
}

/// The run of digits from `i` ends within the text, at a non-digit.
pub proof fn lemma_digits_end_bounds(s: Seq<char>, i: int)
    requires
        0 <= i <= s.len(),
    ensures
        i <= digits_end(s, i) <= s.len(),
        forall|k: int| i <= k < digits_end(s, i) ==> is_digit(#[trigger] s[k]),
        digits_end(s, i) < s.len() ==> !is_digit(s[digits_end(s, i)]),
    decreases s.len() - i,
{
    if i < s.len() && is_digit(s[i]) {
        lemma_digits_end_bounds(s, i + 1);
    }
}

/// `digits_end` from a later point of the same run of digits.
pub proof fn lemma_digits_end_step(s: Seq<char>, i: int, k: int)
    requires
        0 <= i <= k <= s.len(),
        forall|m: int| i <= m < k ==> is_digit(#[trigger] s[m]),
    ensures
        digits_end(s, i) == digits_end(s, k),
    decreases k - i,
{
    if i < k {
        lemma_digits_end_step(s, i + 1, k);
    }
}

/// An unsigned 8-bit literal at `i`: at least one digit, value at most 255.
pub open spec fn byte_literal(s: Seq<char>, i: int) -> Option<(u8, int)> {
    let j = digits_end(s, i);
    let v = decimal_value(s.subrange(i, j));
    if i < j && v <= 255 {
        Some((v as u8, j))
    } else {
        None
    }
}

pub open spec fn char_at(s: Seq<char>, i: int, c: char) -> bool {
    0 <= i < s.len() && s[i] == c
}

/// Puts `acc` in front of what a successful parse read.
pub open spec fn prepend<T>(acc: Seq<T>, r: Parsed<Seq<T>>) -> Parsed<Seq<T>> {
    match r {
        Ok((vs, k)) => Ok((acc + vs, k)),
        Err(e) => Err(e),
    }
}

/// The elements of a non-empty byte list, from its first element at `i` to
/// just past its closing bracket.
pub open spec fn byte_items(s: Seq<char>, i: int) -> Parsed<Seq<u8>>
    decreases s.len() - i,
{
    match byte_literal(s, i) {
        None => Err(ParseError::MalformedByteList { offset: i as usize }),
        Some((v, j)) => if char_at(s, j, ',') {
            prepend(seq![v], byte_items(s, j + 1))
        } else if char_at(s, j, ']') {
            Ok((seq![v], j + 1))
        } else {
            Err(ParseError::MalformedByteList { offset: j as usize })
        },
    }
}

/// A byte list `[v0,v1,...]` that starts at `i`.
pub open spec fn byte_list(s: Seq<char>, i: int) -> Parsed<Seq<u8>> {
    if !char_at(s, i, '[') {
        Err(ParseError::MalformedByteList { offset: i as usize })
    } else if char_at(s, i + 1, ']') {
        Ok((seq![], i + 2))
    } else {
        byte_items(s, i + 1)
    }
}

/// A successful byte-list read ends past where it began.
pub proof fn lemma_byte_items_advance(s: Seq<char>, i: int)
    ensures
        byte_items(s, i) is Ok ==> byte_items(s, i)->Ok_0.1 > i,
    decreases s.len() - i,
{
    if let Some((v, j)) = byte_literal(s, i) {
        if char_at(s, j, ',') {
            lemma_byte_items_advance(s, j + 1);
        }
    }
}

pub proof fn lemma_byte_list_advance(s: Seq<char>, i: int)
    ensures
        byte_list(s, i) is Ok ==> byte_list(s, i)->Ok_0.1 > i,
{
    lemma_byte_items_advance(s, i + 1);
}

/// The byte lists of a non-empty group, from its first element at `i` to just
/// past its closing bracket. An error inside a byte list is passed on as it is.
pub open spec fn group_items(s: Seq<char>, i: int) -> Parsed<Seq<Seq<u8>>>
    decreases s.len() - i,
{
    match byte_list(s, i) {
        Err(e) => Err(e),
        Ok((v, j)) => {
            proof {
                lemma_byte_list_advance(s, i);
            }
            if char_at(s, j, ',') {
                prepend(seq![v], group_items(s, j + 1))
            } else if char_at(s, j, ']') {
                Ok((seq![v], j + 1))
            } else {
                Err(ParseError::MalformedInput { offset: j as usize })
            }
        },
    }
}

/// A group `[list0,list1,...]` of byte lists that starts at `i`.
pub open spec fn group(s: Seq<char>, i: int) -> Parsed<Seq<Seq<u8>>> {
    if !char_at(s, i, '[') {
        Err(ParseError::MalformedInput { offset: i as usize })
    } else if char_at(s, i + 1, ']') {
        Ok((seq![], i + 2))
    } else {
        group_items(s, i + 1)
    }
}

} // verus!
