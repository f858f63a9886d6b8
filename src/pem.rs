//! The PEM body of a byte sequence: its standard base64 text, cut into lines
//! of 64 characters, the last of which may be shorter.
use vstd::prelude::*;
use vstd::string::{StrSliceExecFns, StringExecFns};
use base64::Engine;

verus! {

/// The number of characters on each full PEM line.
pub const LINE_WIDTH: usize = 64;

/// The text that base64's standard engine (alphabet `A-Z a-z 0-9 + /`, with
/// `=` padding) makes of `b`.
pub uninterp spec fn base64_of(b: Seq<u8>) -> Seq<char>;

/// Relies on base64's `general_purpose::STANDARD.encode`: the result depends on
/// the bytes alone, and has four characters for each started group of three bytes
/// (`encoded_len` with padding). It panics only where that length overflows
/// `usize`, which no slice is long enough to cause.
#[verifier::external_body]
fn base64_encode(b: &[u8]) -> (r: String)
    ensures
        r@ == base64_of(b@),
        r@.len() == 4 * ((b@.len() + 2) / 3),
{
    base64::engine::general_purpose::STANDARD.encode(b)
}

/// `t` cut into lines of `LINE_WIDTH` characters; the last line holds what is
/// left, and an empty text gives no line at all.
pub open spec fn pem_chunks(t: Seq<char>) -> Seq<Seq<char>>
    decreases t.len(),
{
    if t.len() == 0 {
        seq![]
    } else if t.len() <= LINE_WIDTH {
        seq![t]
    } else {
        seq![t.take(LINE_WIDTH as int)] + pem_chunks(t.skip(LINE_WIDTH as int))
    }
}

/// Joining the lines gives the text back; every line is `LINE_WIDTH` long but
/// the last, which is not longer; and the count is the text's length divided
/// by `LINE_WIDTH`, rounded up.
pub proof fn lemma_pem_chunks(t: Seq<char>)
    ensures
        pem_chunks(t).flatten() == t,
        pem_chunks(t).len() == (t.len() + 63) / 64,
        forall|k: int|
            0 <= k < pem_chunks(t).len() ==> 0 < (#[trigger] pem_chunks(t)[k]).len() <= LINE_WIDTH,
        forall|k: int|
            0 <= k < pem_chunks(t).len() - 1 ==> (#[trigger] pem_chunks(t)[k]).len() == LINE_WIDTH,
    decreases t.len(),
{
    if t.len() == 0 {
    } else if t.len() <= LINE_WIDTH {
        seq![t].lemma_flatten_one_element();
    } else {
        let rest = t.skip(LINE_WIDTH as int);
        lemma_pem_chunks(rest);
        let c = pem_chunks(t);
        assert(c.drop_first() =~= pem_chunks(rest));
        assert(t.take(LINE_WIDTH as int) + rest =~= t);
        assert forall|k: int| 0 <= k < c.len() implies 0 < (#[trigger] c[k]).len() <= LINE_WIDTH by {
            if k > 0 {
                assert(c[k] == pem_chunks(rest)[k - 1]);
            }
        }
        assert forall|k: int| 0 <= k < c.len() - 1 implies (#[trigger] c[k]).len() == LINE_WIDTH by {
            if k > 0 {
                assert(c[k] == pem_chunks(rest)[k - 1]);
            }
        }
    }
}

/// For every byte sequence, the PEM lines joined are its standard base64 text,
/// no line is longer than 64 characters, and only the last may be shorter.
pub proof fn lemma_pem_lines_join_to_base64(b: Seq<u8>)
    ensures
        pem_chunks(base64_of(b)).flatten() == base64_of(b),
        forall|k: int|
            0 <= k < pem_chunks(base64_of(b)).len() ==> (#[trigger] pem_chunks(
                base64_of(b),
            )[k]).len() <= 64,
        forall|k: int|
            0 <= k < pem_chunks(base64_of(b)).len() - 1 ==> (#[trigger] pem_chunks(
                base64_of(b),
            )[k]).len() == 64,
{
    lemma_pem_chunks(base64_of(b));
}

/// Cuts `text` into PEM lines.
pub fn pem_lines(text: &str) -> (r: Vec<String>)
    ensures
        r.deep_view() == pem_chunks(text@),
{
    let n = text.unicode_len();
    let mut out: Vec<String> = Vec::new();
    let mut pos: usize = 0;
    proof {
        assert(text@.skip(0) =~= text@);
        assert(out.deep_view() + pem_chunks(text@) =~= pem_chunks(text@));
    }
    while pos < n
        invariant
            n == text@.len(),
            pos <= n,
            pem_chunks(text@) == out.deep_view() + pem_chunks(text@.skip(pos as int)),
        decreases n - pos,
    {
        let rest = Ghost(text@.skip(pos as int));
        let end: usize = if n - pos <= LINE_WIDTH {
            n
        } else {
            pos + LINE_WIDTH
        };
        let line = String::from_str(text.substring_char(pos, end));
        let ghost old_out = out.deep_view();
        proof {
            if n - pos <= LINE_WIDTH {
                assert(line@ =~= rest@);
                assert(pem_chunks(rest@) == seq![rest@]);
                assert(text@.skip(end as int) =~= Seq::<char>::empty());
                assert(pem_chunks(text@.skip(end as int)) =~= Seq::<Seq<char>>::empty());
            } else {
                assert(line@ =~= rest@.take(LINE_WIDTH as int));
                assert(rest@.skip(LINE_WIDTH as int) =~= text@.skip(end as int));
            }
        }
        out.push(line);
        proof {
            assert(out.deep_view() =~= old_out.push(line@));
            assert(old_out + pem_chunks(rest@) =~= out.deep_view() + pem_chunks(
                text@.skip(end as int),
            ));
        }
        pos = end;
    }
    proof {
        assert(text@.skip(pos as int) =~= Seq::<char>::empty());
        assert(out.deep_view() + seq![] =~= out.deep_view());
    }
    out
}

/// The PEM body of `binary`: its standard base64 text in lines of 64 characters.
pub fn binary_to_pem(binary: &[u8]) -> (r: Vec<String>)
    ensures
        r.deep_view() == pem_chunks(base64_of(binary@)),
        r@.len() == (4 * ((binary@.len() + 2) / 3) + 63) / 64,
{
    let text = base64_encode(binary);
    let lines = pem_lines(text.as_str());
    proof {
        lemma_pem_chunks(text@);
    }
    lines
}

} // verus!
