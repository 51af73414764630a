use plsfmt::algorithm::{BreakToken, Printer};

fn word(p: &mut Printer, s: &str) {
    p.word(s.as_bytes().to_vec());
}

fn blank(p: &mut Printer, n: usize) {
    let mut b = BreakToken::default();
    b.blank_space = n;
    p.scan_break(b);
}

fn out_of(p: Printer) -> String {
    String::from_utf8(p.eof()).unwrap()
}

#[test]
fn text_alone_is_copied() {
    let mut p = Printer::new();
    word(&mut p, "plain text, no groups");
    assert_eq!(out_of(p), "plain text, no groups");
}

#[test]
fn fitting_group_stays_flat() {
    let a = "a".repeat(40);
    let b = "b".repeat(40);
    let mut p = Printer::new();
    p.cbox(2);
    word(&mut p, &a);
    blank(&mut p, 1);
    word(&mut p, &b);
    p.end();
    // 40 + 1 + 40 = 81 <= 89: the breakable point emits its blank instead.
    assert_eq!(out_of(p), format!("{} {}", a, b));
}

#[test]
fn overfull_consistent_group_breaks_every_point() {
    let a = "a".repeat(40);
    let b = "b".repeat(30);
    let c = "c".repeat(30);
    let mut p = Printer::new();
    p.cbox(2);
    word(&mut p, &a);
    blank(&mut p, 1);
    word(&mut p, &b);
    blank(&mut p, 1);
    word(&mut p, &c);
    p.end();
    // 40 + 1 + 30 + 1 + 30 = 102 > 89: in a consistent group every
    // breakable point fires, indenting by the group's offset.
    assert_eq!(out_of(p), format!("{}\n  {}\n  {}", a, b, c));
}

#[test]
fn overfull_inconsistent_group_fills_greedily() {
    let a = "a".repeat(30);
    let b = "b".repeat(30);
    let c = "c".repeat(30);
    let mut p = Printer::new();
    p.ibox(4);
    word(&mut p, &a);
    blank(&mut p, 1);
    word(&mut p, &b);
    blank(&mut p, 1);
    word(&mut p, &c);
    p.end();
    // 92 > 89, so the group breaks; but each point decides alone: the
    // second word still fits on the first line, the third does not.
    assert_eq!(out_of(p), format!("{} {}\n    {}", a, b, c));
}

#[test]
fn never_break_overflows_rather_than_wrap() {
    let a = "a".repeat(50);
    let b = "b".repeat(50);
    let mut p = Printer::new();
    p.cbox(2);
    word(&mut p, &a);
    let mut br = BreakToken::default();
    br.blank_space = 1;
    br.never_break = true;
    p.scan_break(br);
    word(&mut p, &b);
    p.end();
    // The group is overfull, but a point marked never-break stays put.
    assert_eq!(out_of(p), format!("{} {}", a, b));
}

#[test]
fn group_of_one_breakable_point_vanishes() {
    let mut p = Printer::new();
    word(&mut p, "start");
    p.cbox(2);
    blank(&mut p, 1);
    p.end();
    word(&mut p, "end");
    assert_eq!(out_of(p), "startend");
}

#[test]
fn trailing_if_nonempty_break_is_dropped() {
    let mut p = Printer::new();
    p.cbox(2);
    word(&mut p, "lone");
    let mut br = BreakToken::default();
    br.blank_space = plsfmt::algorithm::SIZE_INFINITY;
    br.if_nonempty = true;
    p.scan_break(br);
    p.end();
    // A hard break guarded by if_nonempty vanishes when nothing follows it
    // in its group, so the group still fits on one line.
    assert_eq!(out_of(p), "lone");
}
