use cert_pem::parser::certificates;
use cert_pem::report::{certificate_block, report, strip_whitespace, ReportError};

/// A self-signed certificate for `CN=benno`, as decimal bytes over several lines.
const BENNO_DER: [&str; 15] = [
    "48, 130, 1, 81, 48, 129, 216, 160, 3, 2, 1, 2, 2, 9, 0, 181, 113, 146, 40, 76, 235, 77, 30, 48,\n",
    "10, 6, 8, 42, 134, 72, 206, 61, 4, 3, 2, 48, 16, 49, 14, 48, 12, 6, 3, 85, 4, 3, 12, 5,\n",
    "98, 101, 110, 110, 111, 48, 30, 23, 13, 49, 56, 49, 49, 49, 51, 48, 50, 53, 52, 52, 48, 90, 23, 13,\n",
    "49, 57, 49, 49, 49, 51, 48, 50, 53, 52, 52, 48, 90, 48, 16, 49, 14, 48, 12, 6, 3, 85, 4, 3,\n",
    "12, 5, 98, 101, 110, 110, 111, 48, 118, 48, 16, 6, 7, 42, 134, 72, 206, 61, 2, 1, 6, 5, 43, 129,\n",
    "4, 0, 34, 3, 98, 0, 4, 56, 107, 28, 181, 83, 48, 112, 187, 25, 60, 129, 252, 195, 115, 181, 58, 22,\n",
    "178, 205, 179, 150, 107, 209, 235, 101, 245, 165, 6, 129, 55, 167, 216, 132, 18, 68, 213, 118, 26, 209, 93, 130,\n",
    "213, 241, 134, 94, 63, 118, 49, 233, 220, 58, 213, 242, 125, 133, 113, 159, 224, 216, 211, 184, 50, 79, 254, 245,\n",
    "29, 13, 118, 76, 147, 158, 247, 76, 48, 143, 45, 191, 232, 221, 86, 214, 51, 175, 228, 120, 233, 133, 84, 252,\n",
    "37, 9, 85, 54, 160, 2, 248, 48, 10, 6, 8, 42, 134, 72, 206, 61, 4, 3, 2, 3, 104, 0, 48, 101,\n",
    "2, 48, 31, 205, 45, 109, 153, 159, 134, 72, 6, 151, 174, 195, 220, 124, 7, 117, 3, 220, 159, 89, 91, 65,\n",
    "242, 213, 177, 20, 211, 104, 218, 62, 255, 112, 189, 233, 185, 253, 175, 66, 121, 112, 87, 253, 1, 161, 150, 117,\n",
    "43, 130, 2, 49, 0, 218, 19, 65, 222, 154, 6, 41, 233, 19, 208, 205, 230, 253, 233, 173, 160, 142, 86, 132,\n",
    "111, 3, 114, 212, 31, 14, 239, 135, 196, 219, 133, 145, 94, 35, 148, 155, 135, 165, 159, 220, 6, 67, 114, 53,\n",
    "137, 94, 141, 181, 149\n",
];

const BENNO_PEM: [&str; 8] = [
    "MIIBUTCB2KADAgECAgkAtXGSKEzrTR4wCgYIKoZIzj0EAwIwEDEOMAwGA1UEAwwF",
    "YmVubm8wHhcNMTgxMTEzMDI1NDQwWhcNMTkxMTEzMDI1NDQwWjAQMQ4wDAYDVQQD",
    "DAViZW5ubzB2MBAGByqGSM49AgEGBSuBBAAiA2IABDhrHLVTMHC7GTyB/MNztToW",
    "ss2zlmvR62X1pQaBN6fYhBJE1XYa0V2C1fGGXj92MencOtXyfYVxn+DY07gyT/71",
    "HQ12TJOe90wwjy2/6N1W1jOv5HjphVT8JQlVNqAC+DAKBggqhkjOPQQDAgNoADBl",
    "AjAfzS1tmZ+GSAaXrsPcfAd1A9yfWVtB8tWxFNNo2j7/cL3puf2vQnlwV/0BoZZ1",
    "K4ICMQDaE0HemgYp6RPQzeb96a2gjlaEbwNy1B8O74fE24WRXiOUm4eln9wGQ3I1",
    "iV6NtZU=",
];

fn benno_text() -> String {
    BENNO_DER.concat()
}

fn lines(v: &[&str]) -> Vec<String> {
    v.iter().map(|s| s.to_string()).collect()
}

fn benno_block() -> Vec<String> {
    let mut out = lines(&["Issuer: CN=benno", "Subject: CN=benno", "-----BEGIN CERTIFICATE-----"]);
    out.extend(lines(&BENNO_PEM));
    out.push("-----END CERTIFICATE-----".to_string());
    out
}

#[test]
fn empty_group_gives_an_empty_report() {
    assert_eq!(report("[]"), Ok(vec![]));
    assert_eq!(report(" [ ]\n"), Ok(vec![]));
}

#[test]
fn bytes_that_are_not_a_certificate_fail_at_their_index() {
    assert_eq!(report("[[48,130,1,10]]"), Err(ReportError::InvalidCertificate { index: 0 }));
}

#[test]
fn a_later_bad_certificate_gives_no_report_at_all() {
    let text = format!("[[{}],[1,2,3]]", benno_text());
    assert_eq!(report(&text), Err(ReportError::InvalidCertificate { index: 1 }));
}

#[test]
fn malformed_text_is_malformed_input() {
    assert_eq!(report("[[1,2,]]"), Err(ReportError::MalformedInput { offset: 6 }));
    assert_eq!(report("[[1,256]]"), Err(ReportError::MalformedInput { offset: 4 }));
    assert_eq!(report("[1]"), Err(ReportError::MalformedInput { offset: 1 }));
    assert_eq!(report(""), Err(ReportError::MalformedInput { offset: 0 }));
}

#[test]
fn whitespace_between_tokens_is_ignored() {
    let compact: Vec<char> = "[[1,2],[3,4]]".chars().collect();
    assert_eq!(strip_whitespace("[ [1, 2] ,\n[3,4] ]"), compact);
    assert_eq!(
        certificates(&strip_whitespace("[ [1, 2] ,\n[3,4] ]"), 0),
        certificates(&compact, 0)
    );
}

#[test]
fn whitespace_inside_a_number_joins_its_digits() {
    let stripped = strip_whitespace("[[1 2]]");
    assert_eq!(certificates(&stripped, 0), Ok((vec![vec![12u8]], 6)));
}

#[test]
fn strip_keeps_other_characters_in_order() {
    let expected: Vec<char> = "ab,c".chars().collect();
    assert_eq!(strip_whitespace("\t a b\r\n,\u{3000}c "), expected);
    assert!(strip_whitespace(" \n\t").is_empty());
}

#[test]
fn block_frames_the_pem_lines() {
    let pem = lines(&["QUJD", "REVG"]);
    assert_eq!(
        certificate_block("CN=a", "CN=b", &pem),
        lines(&[
            "Issuer: CN=a",
            "Subject: CN=b",
            "-----BEGIN CERTIFICATE-----",
            "QUJD",
            "REVG",
            "-----END CERTIFICATE-----",
        ])
    );
}

#[test]
fn block_of_empty_pem_has_only_the_markers() {
    assert_eq!(
        certificate_block("I", "S", &vec![]),
        lines(&["Issuer: I", "Subject: S", "-----BEGIN CERTIFICATE-----", "-----END CERTIFICATE-----"])
    );
}

#[test]
fn one_certificate_report() {
    let text = format!("[\n  [{}]\n]\n", benno_text());
    assert_eq!(report(&text), Ok(benno_block()));
}

#[test]
fn two_certificates_report_in_order() {
    let text = format!("[[{}], [{}]]", benno_text(), benno_text());
    let mut expected = benno_block();
    expected.extend(benno_block());
    assert_eq!(report(&text), Ok(expected));
}
