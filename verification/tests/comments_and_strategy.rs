use plsfmt::comments::scan_comments;
use plsfmt::strategy::{FmtStrategy, Opts};

#[test]
fn scan_comments_finds_line_comments() {
    let src = "fn main() {} // hi\n// full line\nno comment here\n";
    let comments = scan_comments(src);
    assert_eq!(comments.len(), 2);
    assert_eq!(comments[0].position.line, 1);
    assert_eq!(comments[0].position.column, 13);
    assert_eq!(comments[0].comment, b"// hi".to_vec());
    assert_eq!(comments[1].position.line, 2);
    assert_eq!(comments[1].position.column, 0);
    assert_eq!(comments[1].comment, b"// full line".to_vec());
}

#[test]
fn scan_comments_strips_carriage_returns() {
    let src = "let x = 1; // a\r\n// b\r\n";
    let comments = scan_comments(src);
    assert_eq!(comments.len(), 2);
    assert_eq!(comments[0].position.line, 1);
    assert_eq!(comments[0].position.column, 11);
    assert_eq!(comments[0].comment, b"// a".to_vec());
    assert_eq!(comments[1].comment, b"// b".to_vec());
}

#[test]
fn scan_comments_empty_and_commentless() {
    assert_eq!(scan_comments("").len(), 0);
    assert_eq!(scan_comments("fn f() {}\nlet y = 2;\n").len(), 0);
    // A lone slash is no comment.
    assert_eq!(scan_comments("a / b\n").len(), 0);
}

#[test]
fn scan_comments_last_line_without_newline() {
    let comments = scan_comments("x\ny // tail");
    assert_eq!(comments.len(), 1);
    assert_eq!(comments[0].position.line, 2);
    assert_eq!(comments[0].position.column, 2);
    assert_eq!(comments[0].comment, b"// tail".to_vec());
}

#[test]
fn from_opts_without_packages_formats_root() {
    let opts = Opts { packages: vec![] };
    assert_eq!(FmtStrategy::from_opts(&opts), FmtStrategy::Root);
}

#[test]
fn from_opts_with_packages_formats_those() {
    let opts = Opts {
        packages: vec!["alpha".to_string(), "beta".to_string()],
    };
    assert_eq!(
        FmtStrategy::from_opts(&opts),
        FmtStrategy::Packages(vec!["alpha".to_string(), "beta".to_string()])
    );
}
