//! The canonical text of a byte list, `[v0,v1,...]` with each value in decimal
//! without leading zeros, and the law that reading it gives the bytes back.
use vstd::prelude::*;
use crate::syntax::{
    byte_items, byte_list, byte_literal, char_at, decimal_value, digit_value, digits_end, is_digit,
    lemma_digits_end_step, ParseError,
};

verus! {

pub open spec fn digit_char(d: nat) -> char {
    seq!['0', '1', '2', '3', '4', '5', '6', '7', '8', '9'][d as int]
}

/// `v` in decimal, without leading zeros.
pub open spec fn decimal_text(v: nat) -> Seq<char>
    decreases v,
{
    if v < 10 {
        seq![digit_char(v)]
    } else {
        decimal_text(v / 10).push(digit_char(v % 10))
    }
}

/// The elements of `b` in decimal, separated by commas.
pub open spec fn byte_items_text(b: Seq<u8>) -> Seq<char>
    decreases b.len(),
{
    if b.len() == 0 {
        seq![]
    } else if b.len() == 1 {
        decimal_text(b[0] as nat)
    } else {
        decimal_text(b[0] as nat) + seq![','] + byte_items_text(b.drop_first())
    }
}

/// The text `[v0,v1,...]` of `b`.
pub open spec fn byte_list_text(b: Seq<u8>) -> Seq<char> {
    seq!['['] + byte_items_text(b) + seq![']']
}

proof fn lemma_digit_char(d: nat)
    requires
        d < 10,
    ensures
        is_digit(digit_char(d)),
        digit_value(digit_char(d)) == d,
{
}

proof fn lemma_decimal_text(v: nat)
    ensures
        decimal_text(v).len() > 0,
        decimal_value(decimal_text(v)) == v,
        forall|k: int| 0 <= k < decimal_text(v).len() ==> is_digit(#[trigger] decimal_text(v)[k]),
    decreases v,
{
    if v < 10 {
        lemma_digit_char(v);
        assert(decimal_text(v).drop_last() =~= Seq::<char>::empty());
        assert(decimal_value(decimal_text(v)) == decimal_value(Seq::<char>::empty()) * 10
            + digit_value(digit_char(v)));
    } else {
        lemma_decimal_text(v / 10);
        lemma_digit_char(v % 10);
        assert(decimal_text(v).drop_last() =~= decimal_text(v / 10));
        assert(v == (v / 10) * 10 + v % 10);
        assert(decimal_value(decimal_text(v)) == decimal_value(decimal_text(v / 10)) * 10
            + digit_value(digit_char(v % 10)));
    }
}

/// A decimal literal of `v` at `i`, followed by a non-digit or the end, is read
/// as `v`.
proof fn lemma_literal_read(s: Seq<char>, i: int, v: nat)
    requires
        0 <= i,
        i + decimal_text(v).len() <= s.len(),
        s.subrange(i, i + decimal_text(v).len()) == decimal_text(v),
        i + decimal_text(v).len() < s.len() ==> !is_digit(s[i + decimal_text(v).len()]),
        v <= 255,
    ensures
        byte_literal(s, i) == Some((v as u8, i + decimal_text(v).len())),
{
    let d = decimal_text(v);
    let j = i + d.len();
    lemma_decimal_text(v);
    assert forall|m: int| i <= m < j implies is_digit(#[trigger] s[m]) by {
        assert(s[m] == s.subrange(i, j)[m - i]);
    }
    lemma_digits_end_step(s, i, j);
    assert(digits_end(s, j) == j);
}

/// The items of a non-empty `b` followed by `]` read as `b`.
proof fn lemma_items_read(pre: Seq<char>, b: Seq<u8>, post: Seq<char>)
    requires
        b.len() > 0,
        post.len() > 0,
        post[0] == ']',
    ensures
        byte_items(pre + byte_items_text(b) + post, pre.len() as int) == Ok::<
            (Seq<u8>, int),
            ParseError,
        >((b, (pre.len() + byte_items_text(b).len() + 1) as int)),
    decreases b.len(),
{
    let s = pre + byte_items_text(b) + post;
    let i = pre.len() as int;
    let d = decimal_text(b[0] as nat);
    let j = i + d.len();
    if b.len() == 1 {
        assert(s.subrange(i, j) =~= d);
        assert(s[j] == ']');
        lemma_literal_read(s, i, b[0] as nat);
        assert(seq![b[0]] =~= b);
    } else {
        let rest = b.drop_first();
        let pre2 = pre + d + seq![','];
        assert(s =~= pre2 + byte_items_text(rest) + post);
        assert(s.subrange(i, j) =~= d);
        assert(s[j] == ',');
        lemma_literal_read(s, i, b[0] as nat);
        lemma_items_read(pre2, rest, post);
        assert(seq![b[0]] + rest =~= b);
    }
}

/// For every byte sequence `b`, reading the text `[v0,v1,...]` of `b` gives `b`
/// back and stops just past the closing bracket.
pub proof fn lemma_byte_list_round_trip(b: Seq<u8>)
    ensures
        byte_list(byte_list_text(b), 0) == Ok::<(Seq<u8>, int), ParseError>(
            (b, byte_list_text(b).len() as int),
        ),
{
    let s = byte_list_text(b);
    if b.len() == 0 {
        assert(s =~= seq!['[', ']']);
        assert(b =~= seq![]);
    } else {
        lemma_decimal_text(b[0] as nat);
        lemma_items_read(seq!['['], b, seq![']']);
        assert(s[1] == decimal_text(b[0] as nat)[0]);
        assert(!char_at(s, 1, ']'));
    }
}

} // verus!
