//! Executable parsers for the grammar of `syntax`.
use vstd::prelude::*;
use crate::syntax::{
    byte_items, byte_list, byte_literal, decimal_value, digit_value, group, group_items, is_digit,
    lemma_byte_list_advance, lemma_digits_end_bounds, lemma_digits_end_step, prepend, ParseError,
    Parsed,
};

verus! {

/// The spec view of what an executable parser returns.
pub open spec fn parsed_bytes(r: Result<(Vec<u8>, usize), ParseError>) -> Parsed<Seq<u8>> {
    match r {
        Ok((v, k)) => Ok((v@, k as int)),
        Err(e) => Err(e),
    }
}

/// Reads the literal at `i` as `byte_literal` does. The running value is held
/// at 256 once it exceeds 255.
fn byte_literal_at(s: &[char], i: usize) -> (r: Option<(u8, usize)>)
    requires
        i <= s@.len(),
    ensures
        match r {
            Some((v, j)) => byte_literal(s@, i as int) == Some((v, j as int)),
            None => byte_literal(s@, i as int) is None,
        },
{
    let mut j: usize = i;
    let mut value: u32 = 0;
    while j < s.len() && '0' <= s[j] && s[j] <= '9'
        invariant
            i <= j <= s@.len(),
            forall|m: int| i <= m < j ==> is_digit(#[trigger] s@[m]),
            value == if decimal_value(s@.subrange(i as int, j as int)) > 255 {
                256
            } else {
                decimal_value(s@.subrange(i as int, j as int))
            },
        decreases s@.len() - j,
    {
        let d: u32 = (s[j] as u32) - ('0' as u32);
        proof {
            let next = s@.subrange(i as int, j + 1);
            assert(next.drop_last() =~= s@.subrange(i as int, j as int));
            assert(decimal_value(next) == decimal_value(s@.subrange(i as int, j as int)) * 10
                + digit_value(s@[j as int]));
        }
        if value > 255 {
            value = 256;
        } else {
            value = value * 10 + d;
            if value > 255 {
                value = 256;
            }
        }
        j = j + 1;
    }
    proof {
        lemma_digits_end_step(s@, i as int, j as int);
        lemma_digits_end_bounds(s@, j as int);
    }
    if i < j && value <= 255 {
        Some((value as u8, j))
    } else {
        None
    }
}

/// Reads a byte list `[v0,v1,...]` that starts at `start`.
pub fn certificate(s: &[char], start: usize) -> (r: Result<(Vec<u8>, usize), ParseError>)
    ensures
        parsed_bytes(r) == byte_list(s@, start as int),
{
    let mut out: Vec<u8> = Vec::new();
    if !(start < s.len() && s[start] == '[') {
        return Err(ParseError::MalformedByteList { offset: start });
    }
    if start + 1 < s.len() && s[start + 1] == ']' {
        return Ok((out, start + 2));
    }
    let mut i: usize = start + 1;
    loop
        invariant
            start < i <= s@.len(),
            byte_list(s@, start as int) == prepend(out@, byte_items(s@, i as int)),
        decreases s@.len() - i,
    {
        match byte_literal_at(s, i) {
            None => {
                return Err(ParseError::MalformedByteList { offset: i });
            },
            Some((v, j)) => {
                proof {
                    let rest = byte_items(s@, i as int);
                    assert(out@ + seq![v] =~= out@.push(v));
                    match byte_items(s@, j + 1) {
                        Ok((vs, k)) => {
                            assert(out@ + (seq![v] + vs) =~= out@.push(v) + vs);
                        },
                        Err(_) => {},
                    }
                }
                out.push(v);
                if j < s.len() && s[j] == ',' {
                    i = j + 1;
                } else if j < s.len() && s[j] == ']' {
                    return Ok((out, j + 1));
                } else {
                    return Err(ParseError::MalformedByteList { offset: j });
                }
            },
        }
    }
}

/// The spec view of what the group parser returns.
pub open spec fn parsed_group(r: Result<(Vec<Vec<u8>>, usize), ParseError>) -> Parsed<
    Seq<Seq<u8>>,
> {
    match r {
        Ok((v, k)) => Ok((v.deep_view(), k as int)),
        Err(e) => Err(e),
    }
}

/// Reads a group `[list0,list1,...]` of byte lists that starts at `start`.
pub fn certificates(s: &[char], start: usize) -> (r: Result<(Vec<Vec<u8>>, usize), ParseError>)
    ensures
        parsed_group(r) == group(s@, start as int),
{
    let mut out: Vec<Vec<u8>> = Vec::new();
    if !(start < s.len() && s[start] == '[') {
        return Err(ParseError::MalformedInput { offset: start });
    }
    if start + 1 < s.len() && s[start + 1] == ']' {
        proof {
            assert(out.deep_view() =~= Seq::<Seq<u8>>::empty());
        }
        return Ok((out, start + 2));
    }
    let mut i: usize = start + 1;
    loop
        invariant
            start < i <= s@.len(),
            group(s@, start as int) == prepend(out.deep_view(), group_items(s@, i as int)),
        decreases s@.len() - i,
    {
        let item = certificate(s, i);
        proof {
            lemma_byte_list_advance(s@, i as int);
        }
        match item {
            Err(e) => {
                return Err(e);
            },
            Ok((v, j)) => {
                let ghost old_out = out.deep_view();
                let ghost vv = v@;
                assert(v.deep_view() =~= vv);
                out.push(v);
                proof {
                    assert(out.deep_view()[out.len() - 1] == vv);
                    assert(out.deep_view() =~= old_out.push(vv));
                    assert(old_out + seq![vv] =~= old_out.push(vv));
                    match group_items(s@, j + 1) {
                        Ok((vs, k)) => {
                            assert(old_out + (seq![vv] + vs) =~= old_out.push(vv) + vs);
                        },
                        Err(_) => {},
                    }
                }
                if j < s.len() && s[j] == ',' {
                    i = j + 1;
                } else if j < s.len() && s[j] == ']' {
                    return Ok((out, j + 1));
                } else {
                    return Err(ParseError::MalformedInput { offset: j });
                }
            },
        }
    }
}

} // verus!
