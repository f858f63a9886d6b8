//! The certificate report: strip whitespace, read the group of byte lists, and
//! for each certificate give its issuer, subject and PEM block.
use vstd::prelude::*;
use vstd::string::StringExecFns;
use x509_parser::certificate::X509Certificate;
use x509_parser::prelude::FromDer;
use crate::parser::certificates;
use crate::pem::{base64_of, binary_to_pem, pem_chunks};
use crate::syntax::group;

verus! {

/// Whether `c` has Unicode's `White_Space` property.
pub uninterp spec fn is_white_space(c: char) -> bool;

/// Relies on `char::is_whitespace`: the answer depends on the character alone.
#[verifier::external_body]
fn char_is_whitespace(c: char) -> (r: bool)
    ensures
        r == is_white_space(c),
{
    c.is_whitespace()
}

/// `text` with every whitespace character taken out.
pub open spec fn without_whitespace(text: Seq<char>) -> Seq<char> {
    text.filter(|c: char| !is_white_space(c))
}

/// The characters of `text` that are not whitespace, in order.
pub fn strip_whitespace(text: &str) -> (r: Vec<char>)
    ensures
        r@ == without_whitespace(text@),
{
    let mut out: Vec<char> = Vec::new();
    for c in it: text.chars()
        invariant
            it.seq() == text@,
            out@ == text@.take(it.index() as int).filter(|c: char| !is_white_space(c)),
    {
        proof {
            let pred = |c: char| !is_white_space(c);
            let seen = it.seq().take(it.index() as int);
            let next = it.seq().take(it.index() + 1);
            assert(next.drop_last() =~= seen);
            assert(next.last() == c);
            reveal(Seq::filter);
            assert(next.filter(pred) == if pred(c) {
                seen.filter(pred).push(c)
            } else {
                seen.filter(pred)
            });
        }
        if !char_is_whitespace(c) {
            out.push(c);
        }
    }
    proof {
        assert(text@.take(text@.len() as int) =~= text@);
    }
    out
}

/// Why no report can be made of a text.
#[derive(Debug, Clone, Copy, PartialEq, Eq, Structural)]
pub enum ReportError {
    /// The text, once stripped of whitespace, is not a group of byte lists; the
    /// offset counts characters of the stripped text.
    MalformedInput { offset: usize },
    /// The byte list at this index of the group is not a certificate.
    InvalidCertificate { index: usize },
}

/// The issuer and subject names, as text, that x509-parser reads from the DER
/// bytes `der`, or `None` where it does not read a certificate from them.
pub uninterp spec fn x509_names(der: Seq<u8>) -> Option<(Seq<char>, Seq<char>)>;

/// Relies on x509-parser's `X509Certificate::from_der`, and on the `Display` of
/// the issuer and subject names it reads: the outcome depends on the bytes alone.
#[verifier::external_body]
fn decode_names(der: &[u8]) -> (r: Option<(String, String)>)
    ensures
        match r {
            Some((issuer, subject)) => x509_names(der@) == Some((issuer@, subject@)),
            None => x509_names(der@) is None,
        },
{
    match X509Certificate::from_der(der) {
        Ok((_, cert)) => Some((cert.issuer().to_string(), cert.subject().to_string())),
        Err(_) => None,
    }
}

/// The report lines of one certificate: issuer, subject, and its PEM body
/// between the begin and end markers.
pub open spec fn block_lines(issuer: Seq<char>, subject: Seq<char>, pem: Seq<Seq<char>>) -> Seq<
    Seq<char>,
> {
    seq!["Issuer: "@ + issuer, "Subject: "@ + subject, "-----BEGIN CERTIFICATE-----"@] + pem
        + seq!["-----END CERTIFICATE-----"@]
}

/// The report lines of the first `n` certificates, or the index of the first of
/// them that is not a certificate.
pub open spec fn blocks_upto(certs: Seq<Seq<u8>>, n: int) -> Result<Seq<Seq<char>>, usize>
    decreases n,
{
    if n <= 0 {
        Ok(seq![])
    } else {
        match blocks_upto(certs, n - 1) {
            Err(k) => Err(k),
            Ok(lines) => match x509_names(certs[n - 1]) {
                None => Err((n - 1) as usize),
                Some((issuer, subject)) => Ok(
                    lines + block_lines(issuer, subject, pem_chunks(base64_of(certs[n - 1]))),
                ),
            },
        }
    }
}

/// Once a prefix fails, every longer prefix fails at the same index.
proof fn lemma_blocks_error_persists(certs: Seq<Seq<u8>>, n: int, m: int)
    requires
        0 <= n <= m,
        blocks_upto(certs, n) is Err,
    ensures
        blocks_upto(certs, m) == blocks_upto(certs, n),
    decreases m - n,
{
    if n < m {
        lemma_blocks_error_persists(certs, n, m - 1);
    }
}

/// The whole report of `text`: the lines of every certificate in order, or the
/// first failure.
pub open spec fn report_lines(text: Seq<char>) -> Result<Seq<Seq<char>>, ReportError> {
    match group(without_whitespace(text), 0) {
        Err(e) => Err(ReportError::MalformedInput { offset: e.spec_offset() }),
        Ok((certs, _)) => match blocks_upto(certs, certs.len() as int) {
            Ok(lines) => Ok(lines),
            Err(index) => Err(ReportError::InvalidCertificate { index }),
        },
    }
}

pub open spec fn report_view(r: Result<Vec<String>, ReportError>) -> Result<
    Seq<Seq<char>>,
    ReportError,
> {
    match r {
        Ok(lines) => Ok(lines.deep_view()),
        Err(e) => Err(e),
    }
}

fn line_with_label(label: &str, text: &str) -> (r: String)
    ensures
        r@ == label@ + text@,
{
    let mut line = String::from_str(label);
    line.append(text);
    line
}

/// The report lines of one certificate, from its issuer and subject names and
/// its PEM body.
pub fn certificate_block(issuer: &str, subject: &str, pem: &Vec<String>) -> (r: Vec<String>)
    ensures
        r.deep_view() == block_lines(issuer@, subject@, pem.deep_view()),
{
    let mut out: Vec<String> = Vec::new();
    out.push(line_with_label("Issuer: ", issuer));
    out.push(line_with_label("Subject: ", subject));
    out.push(String::from_str("-----BEGIN CERTIFICATE-----"));
    let ghost head = out.deep_view();
    for k in 0..pem.len()
        invariant
            out.deep_view() == head + pem.deep_view().take(k as int),
    {
        let ghost before = out.deep_view();
        out.push(pem[k].clone());
        proof {
            assert(out.deep_view() =~= before.push(pem[k as int]@));
            assert(pem.deep_view().take(k + 1) =~= pem.deep_view().take(k as int).push(
                pem[k as int]@,
            ));
        }
    }
    let ghost body = out.deep_view();
    out.push(String::from_str("-----END CERTIFICATE-----"));
    proof {
        assert(out.deep_view() =~= body.push("-----END CERTIFICATE-----"@));
        assert(pem.deep_view().take(pem.len() as int) =~= pem.deep_view());
        assert(out.deep_view() =~= block_lines(issuer@, subject@, pem.deep_view()));
    }
    out
}

/// Strips whitespace from `text`, reads it as a group of byte lists, and gives
/// for each certificate, in order, its issuer, subject and PEM block. Nothing is
/// given where the text is malformed or one of the lists is not a certificate.
pub fn report(text: &str) -> (r: Result<Vec<String>, ReportError>)
    ensures
        report_view(r) == report_lines(text@),
{
    let cleaned = strip_whitespace(text);
    let certs = match certificates(cleaned.as_slice(), 0) {
        Err(e) => {
            return Err(ReportError::MalformedInput { offset: e.offset() });
        },
        Ok((certs, _)) => certs,
    };
    let mut out: Vec<String> = Vec::new();
    assert(out.deep_view() =~= Seq::<Seq<char>>::empty());
    for idx in 0..certs.len()
        invariant
            group(without_whitespace(text@), 0) is Ok,
            group(without_whitespace(text@), 0)->Ok_0.0 == certs.deep_view(),
            blocks_upto(certs.deep_view(), idx as int) == Ok::<Seq<Seq<char>>, usize>(
                out.deep_view(),
            ),
    {
        let der = certs[idx].as_slice();
        proof {
            assert(certs.deep_view()[idx as int] =~= der@);
        }
        match decode_names(der) {
            None => {
                proof {
                    assert(blocks_upto(certs.deep_view(), idx + 1) == Err::<Seq<Seq<char>>, usize>(
                        idx,
                    ));
                    lemma_blocks_error_persists(certs.deep_view(), idx + 1, certs.len() as int);
                }
                return Err(ReportError::InvalidCertificate { index: idx });
            },
            Some((issuer, subject)) => {
                let pem = binary_to_pem(der);
                let mut block = certificate_block(issuer.as_str(), subject.as_str(), &pem);
                let ghost before = out.deep_view();
                let ghost added = block.deep_view();
                out.append(&mut block);
                proof {
                    assert(out.deep_view() =~= before + added);
                }
            },
        }
    }
    Ok(out)
}

} // verus!
