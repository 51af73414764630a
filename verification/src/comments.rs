use vstd::prelude::*;

use crate::model::{Comment, CommentV, Position};
use vstd::string::StringSliceAdditionalSpecFns;

verus! {

/// Index of the first newline byte at or after `j`, or the text's length.
pub open spec fn next_nl(s: Seq<u8>, j: int) -> int
    decreases s.len() - j,
{
    if j < 0 || j >= s.len() {
        s.len() as int
    } else if s[j] == 10 {
        j
    } else {
        next_nl(s, j + 1)
    }
}

pub proof fn lemma_next_nl_bounds(s: Seq<u8>, j: int)
    requires
        0 <= j <= s.len(),
    ensures
        j <= next_nl(s, j) <= s.len(),
    decreases s.len() - j,
{
    if j < s.len() && s[j] != 10 {
        lemma_next_nl_bounds(s, j + 1);
    }
}

/// The line starting at `pos`: up to the next newline, with a carriage
/// return before that newline stripped, as source lines are usually read.
pub open spec fn line_at(s: Seq<u8>, pos: int) -> Seq<u8> {
    let end = next_nl(s, pos);
    let raw = s.subrange(pos, end);
    if end < s.len() && raw.len() > 0 && raw.last() == 13 {
        raw.drop_last()
    } else {
        raw
    }
}

/// Byte index of the first `//` in `line` at or after `i`, if any.
pub open spec fn find_comment(line: Seq<u8>, i: int) -> Option<int>
    decreases line.len() - i,
{
    if i < 0 || i + 1 >= line.len() {
        None
    } else if line[i] == 47 && line[i + 1] == 47 {
        Some(i)
    } else {
        find_comment(line, i + 1)
    }
}

/// The comments of the text from byte `pos` on, with the line holding `pos`
/// numbered `line_no`: for each line holding a `//`, its position and the
/// text from the marker to the end of the line.
pub open spec fn scan_from(s: Seq<u8>, pos: int, line_no: int) -> Seq<CommentV>
    decreases s.len() + 1 - pos,
    via scan_from_decreases

{
    if pos < 0 || pos >= s.len() {
        Seq::empty()
    } else {
        let line = line_at(s, pos);
        let rest = scan_from(s, next_nl(s, pos) + 1, line_no + 1);
        match find_comment(line, 0) {
            Some(idx) => seq![
                CommentV { line: line_no, column: idx, text: line.subrange(idx, line.len() as int) },
            ] + rest,
            None => rest,
        }
    }
}

#[via_fn]
proof fn scan_from_decreases(s: Seq<u8>, pos: int, line_no: int) {
    if 0 <= pos < s.len() {
        lemma_next_nl_bounds(s, pos);
    }
}

/// Collect every line comment of the text: for each line that holds a `//`
/// marker, the 1-based line number, the byte column of the marker in the
/// line, and the text from the marker to the end of the line.
pub fn scan_comments(content: &str) -> (r: Vec<Comment>)
    requires
        content.spec_bytes().len() < usize::MAX,
    ensures
        r.deep_view() == scan_from(content.spec_bytes(), 0, 1),
{
    let bytes: Vec<u8> = vstd::slice::slice_to_vec(content.as_bytes());
    let ghost s = content.spec_bytes();
    let n = bytes.len();
    let mut out: Vec<Comment> = Vec::new();
    let mut pos: usize = 0;
    let mut line_no: usize = 1;
    proof {
        assert(out.deep_view() =~= Seq::<CommentV>::empty());
    }
    while pos < n
        invariant
            bytes@ == s,
            n == s.len(),
            n < usize::MAX,
            pos <= n + 1,
            1 <= line_no <= pos + 1,
            scan_from(s, 0, 1) == out.deep_view() + scan_from(s, pos as int, line_no as int),
        decreases n + 1 - pos,
    {
        // find the end of the current line
        let mut end: usize = pos;
        while end < n && bytes[end] != 10
            invariant
                bytes@ == s,
                n == s.len(),
                pos <= end <= n,
                next_nl(s, pos as int) == next_nl(s, end as int),
            decreases n - end,
        {
            end = end + 1;
        }
        proof {
            assert(next_nl(s, end as int) == end);
        }
        // strip a carriage return before the newline
        let mut line_end = end;
        if end < n && line_end > pos && bytes[line_end - 1] == 13 {
            line_end = line_end - 1;
        }
        let ghost line = line_at(s, pos as int);
        proof {
            assert(line =~= s.subrange(pos as int, line_end as int));
        }
        // search the line for a `//` marker
        let mut idx: usize = pos;
        let mut found = false;
        while !found && line_end - idx > 1
            invariant
                bytes@ == s,
                n == s.len(),
                pos <= idx <= line_end <= n,
                line == s.subrange(pos as int, line_end as int),
                found ==> (idx + 1 < line_end && line[idx - pos] == 47 && line[idx + 1 - pos]
                    == 47),
                find_comment(line, 0) == if found {
                    Some((idx - pos) as int)
                } else {
                    find_comment(line, (idx - pos) as int)
                },
            decreases line_end - idx + if found {
                0int
            } else {
                1int
            },
        {
            if bytes[idx] == 47 && bytes[idx + 1] == 47 {
                found = true;
            } else {
                idx = idx + 1;
            }
        }
        proof {
            if !found {
                assert(find_comment(line, (idx - pos) as int) is None);
            }
        }
        if found {
            let text_slice = vstd::slice::slice_subrange(bytes.as_slice(), idx, line_end);
            let text = vstd::slice::slice_to_vec(text_slice);
            let c = Comment::new(Position::new(line_no, idx - pos), text);
            proof {
                assert(c@.text =~= line.subrange((idx - pos) as int, line.len() as int));
            }
            let ghost prev = out.deep_view();
            out.push(c);
            proof {
                assert(out.deep_view() =~= prev + seq![c@]);
            }
        }
        proof {
            assert(scan_from(s, pos as int, line_no as int) == (match find_comment(line, 0) {
                Some(ci) => seq![
                    CommentV {
                        line: line_no as int,
                        column: ci,
                        text: line.subrange(ci, line.len() as int),
                    },
                ] + scan_from(s, end + 1, line_no as int + 1),
                None => scan_from(s, end + 1, line_no as int + 1),
            }));
        }
        pos = end + 1;
        line_no = line_no + 1;
    }
    proof {
        assert(scan_from(s, pos as int, line_no as int) =~= Seq::<CommentV>::empty());
    }
    out
}

} // verus!
