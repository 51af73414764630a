use plsfmt::model::FormatError;
use plsfmt::replacement::{replace, Replacement};

use proc_macro2::TokenStream;
use std::str::FromStr;

fn bytes(s: &str) -> Vec<u8> {
    s.as_bytes().to_vec()
}

#[test]
fn replace_none() {
    let content = "\r\naaa aa aaaa\r\nbbb bb\r\n        ";

    let res = replace(&bytes(content), vec![]).unwrap();
    assert_eq!(res, bytes(content));
}

#[test]
fn replace_single_line() {
    let content = "\r\naaa aa aaaa\r\nbbb bb\r\n        ";
    let tks: Vec<_> = TokenStream::from_str(content)
        .unwrap()
        .into_iter()
        .collect();

    let range = tks[1].span().byte_range();
    let res = replace(
        &bytes(content),
        vec![Replacement::new(
            range.start,
            range.end,
            "ccccc".to_ascii_lowercase().into_bytes(),
        )],
    )
    .unwrap();
    let expected = "\r\naaa ccccc aaaa\r\nbbb bb\r\n        ";
    assert_eq!(res, bytes(expected));
}

#[test]
fn replace_multi_line() {
    let content = "\r\naaa aa aaaa\r\nbbb bb\r\n        ";
    let tks: Vec<_> = TokenStream::from_str(content)
        .unwrap()
        .into_iter()
        .collect();

    let range = tks[1].span().join(tks[3].span()).unwrap().byte_range();
    let res = replace(
        &bytes(content),
        vec![Replacement::new(
            range.start,
            range.end,
            "ccccc".to_ascii_lowercase().into_bytes(),
        )],
    )
    .unwrap();
    let expected = "\r\naaa ccccc bb\r\n        ";
    assert_eq!(res, bytes(expected));
}

#[test]
fn replace_out_of_order_spans() {
    let content = "0123456789";
    let res = replace(
        &bytes(content),
        vec![
            Replacement::new(6, 8, bytes("YY")),
            Replacement::new(1, 3, bytes("X")),
        ],
    )
    .unwrap();
    assert_eq!(res, bytes("0X345YY89"));
}

#[test]
fn replace_overlapping_spans_rejected() {
    let content = "0123456789";
    let res = replace(
        &bytes(content),
        vec![
            Replacement::new(1, 5, bytes("a")),
            Replacement::new(4, 6, bytes("b")),
        ],
    );
    assert!(matches!(res, Err(FormatError::OverlappingReplacement)));
}

#[test]
fn replace_adjacent_spans() {
    let content = "0123456789";
    let res = replace(
        &bytes(content),
        vec![
            Replacement::new(2, 4, bytes("a")),
            Replacement::new(4, 6, bytes("b")),
        ],
    )
    .unwrap();
    assert_eq!(res, bytes("01ab6789"));
}

#[test]
fn replace_empty_span_inserts() {
    let content = "abcd";
    let res = replace(&bytes(content), vec![Replacement::new(2, 2, bytes("__"))]).unwrap();
    assert_eq!(res, bytes("ab__cd"));
}

#[test]
fn replace_whole_text() {
    let content = "abcd";
    let res = replace(&bytes(content), vec![Replacement::new(0, 4, bytes("e"))]).unwrap();
    assert_eq!(res, bytes("e"));
}
