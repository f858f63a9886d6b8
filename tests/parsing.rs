use cert_pem::parser::{certificate, certificates};
use cert_pem::syntax::ParseError;

fn chars(s: &str) -> Vec<char> {
    s.chars().collect()
}

#[test]
fn byte_list_reads_values_in_order() {
    assert_eq!(certificate(&chars("[12,34]"), 0), Ok((vec![12u8, 34], 7)));
}

#[test]
fn byte_list_from_an_offset() {
    assert_eq!(certificate(&chars("xx[5]"), 2), Ok((vec![5u8], 5)));
}

#[test]
fn empty_byte_list_is_empty() {
    assert_eq!(certificate(&chars("[]"), 0), Ok((vec![], 2)));
}

#[test]
fn empty_group_has_no_certificates() {
    assert_eq!(certificates(&chars("[]"), 0), Ok((vec![], 2)));
}

#[test]
fn group_of_two_lists() {
    assert_eq!(
        certificates(&chars("[[1,2],[3,4]]"), 0),
        Ok((vec![vec![1u8, 2], vec![3u8, 4]], 13))
    );
}

#[test]
fn group_keeps_duplicates_and_empty_lists() {
    assert_eq!(
        certificates(&chars("[[7],[],[7]]"), 0),
        Ok((vec![vec![7u8], vec![], vec![7u8]], 12))
    );
}

#[test]
fn trailing_comma_is_malformed() {
    assert_eq!(
        certificates(&chars("[[1,2,]]"), 0),
        Err(ParseError::MalformedByteList { offset: 6 })
    );
}

#[test]
fn value_out_of_range_is_malformed() {
    assert_eq!(
        certificates(&chars("[[1,256]]"), 0),
        Err(ParseError::MalformedByteList { offset: 4 })
    );
}

#[test]
fn largest_byte_and_leading_zeros() {
    assert_eq!(certificate(&chars("[255,0255,007,0]"), 0), Ok((vec![255u8, 255, 7, 0], 16)));
}

#[test]
fn long_literal_over_range_is_malformed() {
    assert_eq!(
        certificate(&chars("[1,2560]"), 0),
        Err(ParseError::MalformedByteList { offset: 3 })
    );
}

#[test]
fn non_digit_element_is_malformed() {
    assert_eq!(certificate(&chars("[a]"), 0), Err(ParseError::MalformedByteList { offset: 1 }));
    assert_eq!(certificate(&chars("[+1]"), 0), Err(ParseError::MalformedByteList { offset: 1 }));
}

#[test]
fn missing_bracket_or_separator_is_malformed() {
    assert_eq!(certificate(&chars("12]"), 0), Err(ParseError::MalformedByteList { offset: 0 }));
    assert_eq!(certificate(&chars("[1,2"), 0), Err(ParseError::MalformedByteList { offset: 4 }));
    assert_eq!(certificate(&chars("[1;2]"), 0), Err(ParseError::MalformedByteList { offset: 2 }));
    assert_eq!(certificate(&chars(""), 0), Err(ParseError::MalformedByteList { offset: 0 }));
}

#[test]
fn malformed_outer_group() {
    assert_eq!(certificates(&chars("x"), 0), Err(ParseError::MalformedInput { offset: 0 }));
    assert_eq!(certificates(&chars("[[1][2]]"), 0), Err(ParseError::MalformedInput { offset: 4 }));
    assert_eq!(certificates(&chars("[[1]"), 0), Err(ParseError::MalformedInput { offset: 4 }));
}

#[test]
fn error_inside_a_later_list_keeps_its_offset() {
    assert_eq!(
        certificates(&chars("[[1],[2,x]]"), 0),
        Err(ParseError::MalformedByteList { offset: 8 })
    );
}

#[test]
fn text_after_the_group_is_left_unread() {
    assert_eq!(certificates(&chars("[[1]]xyz"), 0), Ok((vec![vec![1u8]], 5)));
}

#[test]
fn rendered_byte_list_reads_back() {
    let cases: Vec<Vec<u8>> = vec![
        vec![],
        vec![0],
        vec![255],
        vec![0, 9, 10, 99, 100, 255],
        (0..=255u8).collect(),
    ];
    for b in cases {
        let items: Vec<String> = b.iter().map(|v| v.to_string()).collect();
        let text = format!("[{}]", items.join(","));
        let n = text.chars().count();
        assert_eq!(certificate(&chars(&text), 0), Ok((b, n)));
    }
}
