use vstd::prelude::*;

use crate::algorithm::{
    group_size, group_size_from, hardbreak_if_nonempty_v, hardbreak_v, init_state,
    lemma_feed_all_single, lemma_group_size_nonneg, neverbreak_v, render_spec, scan_end_spec,
    spaces, state_at, step, BeginV, BreakV, Breaks, TokenV, SIZE_INFINITY,
};
use crate::replacement::{spans_chain, splice_from, Replacement};
use crate::select::{
    arm_tokens, arms_from, arrow_word, body_close_break, body_open_break, effective_body_spec,
    eq_word, kind_handled, lbrace_word, rbrace_word, requires_comma_spec, select_tokens,
    unwrappable, ArmSyntax, BodyExpr, ExprKind,
};

verus! {

/// Byte-fidelity: splicing an empty replacement set reproduces the input,
/// byte for byte.
pub proof fn lemma_splice_nothing(content: Seq<u8>)
    ensures
        splice_from(content, Seq::empty(), 0) == content,
{
    assert(splice_from(content, Seq::<Replacement>::empty(), 0) =~= content);
}

/// Total width of the spans a replacement set covers.
pub open spec fn span_total(reps: Seq<Replacement>) -> int
    decreases reps.len(),
{
    if reps.len() == 0 {
        0
    } else {
        (reps[0].end - reps[0].start) + span_total(reps.drop_first())
    }
}

/// Total width of the texts a replacement set inserts.
pub open spec fn text_total(reps: Seq<Replacement>) -> int
    decreases reps.len(),
{
    if reps.len() == 0 {
        0
    } else {
        reps[0].text@.len() + text_total(reps.drop_first())
    }
}

/// Splicing neither drops nor duplicates a byte: the output holds exactly
/// the untouched bytes of the input plus the replacement texts.
pub proof fn lemma_splice_len(content: Seq<u8>, reps: Seq<Replacement>, cursor: int)
    requires
        0 <= cursor <= content.len(),
        spans_chain(reps, cursor, content.len() as int),
    ensures
        splice_from(content, reps, cursor).len() == content.len() - cursor - span_total(reps)
            + text_total(reps),
    decreases reps.len(),
{
    if reps.len() > 0 {
        lemma_splice_len(content, reps.drop_first(), reps[0].end as int);
    }
}

/// Every byte of the input before the first replaced span reaches the output
/// unchanged, at its offset from the splice cursor.
pub proof fn lemma_splice_keeps_gap(content: Seq<u8>, reps: Seq<Replacement>, cursor: int, k: int)
    requires
        0 <= cursor <= content.len(),
        spans_chain(reps, cursor, content.len() as int),
        cursor <= k,
        k < if reps.len() == 0 {
            content.len() as int
        } else {
            reps[0].start as int
        },
    ensures
        0 <= k - cursor < splice_from(content, reps, cursor).len(),
        splice_from(content, reps, cursor)[k - cursor] == content[k],
{
    if reps.len() == 0 {
    } else {
        lemma_splice_len(content, reps.drop_first(), reps[0].end as int);
    }
}

/// Every untouched byte of the input survives splicing, exactly once, at a
/// position shifted by the net growth of the replacements before it: `k` is
/// any input position in the gap after the `j`-th replacement (before the
/// first for `j == 0`, after the last for `j == reps.len()`).
pub proof fn lemma_splice_keeps_untouched(
    content: Seq<u8>,
    reps: Seq<Replacement>,
    cursor: int,
    j: int,
    k: int,
)
    requires
        0 <= cursor <= content.len(),
        spans_chain(reps, cursor, content.len() as int),
        0 <= j <= reps.len(),
        j == 0 ==> cursor <= k,
        j > 0 ==> reps[j - 1].end <= k,
        j < reps.len() ==> k < reps[j].start,
        j == reps.len() ==> k < content.len(),
    ensures
        ({
            let out = splice_from(content, reps, cursor);
            let off = k - cursor + text_total(reps.take(j)) - span_total(reps.take(j));
            &&& 0 <= off < out.len()
            &&& out[off] == content[k]
        }),
    decreases j,
{
    if j == 0 {
        assert(reps.take(0) =~= Seq::<Replacement>::empty());
        if reps.len() > 0 {
            lemma_splice_keeps_gap(content, reps, cursor, k);
        }
    } else {
        lemma_splice_keeps_untouched(content, reps.drop_first(), reps[0].end as int, j - 1, k);
        assert(reps.take(j).drop_first() =~= reps.drop_first().take(j - 1));
        assert(reps.take(j)[0] == reps[0]);
        assert(text_total(reps.take(j)) == reps[0].text@.len() + text_total(
            reps.drop_first().take(j - 1),
        ));
        assert(span_total(reps.take(j)) == (reps[0].end - reps[0].start) + span_total(
            reps.drop_first().take(j - 1),
        ));
    }
}

/// Unwrap normalization: an arm whose body is a bare block holding exactly
/// one bare-expression statement composes the very same document as the arm
/// whose body is that inner expression itself — braces in the source are
/// structural, never kept for their own sake. The two arms therefore render
/// identically at every width.
pub proof fn lemma_unwrap_normalization(toks: Seq<TokenV>, wrapped: ArmSyntax, plain: ArmSyntax)
    requires
        wrapped.pat == plain.pat,
        wrapped.future == plain.future,
        unwrappable(wrapped.body),
        plain.body == *(wrapped.body->stmts@[0].bare_expr->0),
    ensures
        arm_tokens(toks, wrapped) == arm_tokens(toks, plain),
{
    assert(effective_body_spec(wrapped.body) == effective_body_spec(plain.body));
}

/// The same, stated of the whole rendered macro body: a one-arm body in
/// needlessly braced form and its un-braced twin format to identical text,
/// whatever the indentation column.
pub proof fn lemma_unwrap_normalization_renders(wrapped: ArmSyntax, plain: ArmSyntax, base: int)
    requires
        wrapped.pat == plain.pat,
        wrapped.future == plain.future,
        unwrappable(wrapped.body),
        plain.body == *(wrapped.body->stmts@[0].bare_expr->0),
    ensures
        render_spec(select_tokens(Seq::empty(), seq![wrapped], base)) == render_spec(
            select_tokens(Seq::empty(), seq![plain], base),
        ),
{
    let t0: Seq<TokenV> = Seq::empty();
    let t4 = t0.push(TokenV::Text(lbrace_word())).push(TokenV::Break(neverbreak_v())).push(
        TokenV::Begin(BeginV { offset: 4 + base, breaks: Breaks::Consistent }),
    ).push(TokenV::Break(hardbreak_if_nonempty_v()));
    lemma_unwrap_normalization(t4, wrapped, plain);
    let ws = seq![wrapped];
    let ps = seq![plain];
    let w1 = arm_tokens(t4, wrapped).push(TokenV::Break(hardbreak_v()));
    assert(arms_from(t4, ws, 0) == arms_from(w1, ws, 1));
    assert(arms_from(w1, ws, 1) == w1);
    let p1 = arm_tokens(t4, plain).push(TokenV::Break(hardbreak_v()));
    assert(arms_from(t4, ps, 0) == arms_from(p1, ps, 1));
    assert(arms_from(p1, ps, 1) == p1);
    assert(select_tokens(Seq::empty(), ws, base) == select_tokens(Seq::empty(), ps, base));
}


/// The text of an arm that fits on its line: `pattern = driver => body`,
/// separator-terminated exactly when the classifier requires one.
pub open spec fn inline_arm_form(p: Seq<u8>, f: Seq<u8>, b: Seq<u8>, base: int, sep: bool) -> Seq<
    u8,
> {
    seq![123u8, 10u8] + spaces(4 + base) + p + eq_word() + f + arrow_word() + b + (if sep {
        seq![44u8]
    } else {
        Seq::<u8>::empty()
    }) + seq![10u8] + spaces(base) + seq![125u8]
}

/// The text of the same arm when it overflows:
/// `pattern = driver => {` … body … `}`, brace-delimited and comma-free.
pub open spec fn braced_arm_form(p: Seq<u8>, f: Seq<u8>, b: Seq<u8>, base: int) -> Seq<u8> {
    seq![123u8, 10u8] + spaces(4 + base) + p + eq_word() + f + arrow_word() + seq![123u8, 10u8]
        + spaces(8 + base) + b + seq![10u8] + spaces(4 + base) + seq![125u8, 10u8] + spaces(base)
        + seq![125u8]
}

/// The document a one-arm macro body composes when pattern, driver and
/// body are plain text: the value of
/// `select_tokens(Seq::empty(), seq![a], base)` for such an arm.
pub open spec fn one_arm_doc(p: Seq<u8>, f: Seq<u8>, b: Seq<u8>, sep: bool, base: int) -> Seq<
    TokenV,
> {
    seq![
        TokenV::Text(lbrace_word()),
        TokenV::Break(neverbreak_v()),
        TokenV::Begin(BeginV { offset: 4 + base, breaks: Breaks::Consistent }),
        TokenV::Break(hardbreak_if_nonempty_v()),
        TokenV::Begin(BeginV { offset: 0, breaks: Breaks::Inconsistent }),
        TokenV::Text(p),
        TokenV::Text(eq_word()),
        TokenV::Text(f),
        TokenV::Text(arrow_word()),
        TokenV::Break(neverbreak_v()),
        TokenV::Begin(BeginV { offset: 4, breaks: Breaks::Consistent }),
        TokenV::Break(body_open_break()),
        TokenV::Text(b),
        TokenV::Break(body_close_break(sep)),
        TokenV::End,
        TokenV::End,
        TokenV::Break(BreakV { offset: -4, ..hardbreak_v() }),
        TokenV::End,
        TokenV::Text(rbrace_word()),
    ]
}

/// A one-arm macro body with plain-text pattern, driver and body composes
/// exactly [`one_arm_doc`].
pub proof fn lemma_one_arm_doc(a: ArmSyntax, p: Seq<u8>, f: Seq<u8>, b: Seq<u8>, kind: ExprKind, base: int)
    requires
        a.pat.deep_view() == seq![TokenV::Text(p)],
        a.future.deep_view() == seq![TokenV::Text(f)],
        (a.body matches BodyExpr::Leaf { kind: k, doc } && k == kind && doc.deep_view() == seq![
            TokenV::Text(b),
        ]),
    ensures
        select_tokens(Seq::empty(), seq![a], base) == one_arm_doc(
            p,
            f,
            b,
            requires_comma_spec(kind),
            base,
        ),
{
    let sep = requires_comma_spec(kind);
    let arms = seq![a];
    let t0: Seq<TokenV> = Seq::empty();
    let t1 = t0.push(TokenV::Text(lbrace_word()));
    let t2 = t1.push(TokenV::Break(neverbreak_v()));
    let t3 = t2.push(TokenV::Begin(BeginV { offset: 4 + base, breaks: Breaks::Consistent }));
    let t4 = t3.push(TokenV::Break(hardbreak_if_nonempty_v()));
    let u0 = t4.push(TokenV::Begin(BeginV { offset: 0, breaks: Breaks::Inconsistent }));
    lemma_feed_all_single(u0, TokenV::Text(p));
    let u1 = u0.push(TokenV::Text(p));
    let u2 = u1.push(TokenV::Text(eq_word()));
    lemma_feed_all_single(u2, TokenV::Text(f));
    let u3 = u2.push(TokenV::Text(f));
    let u4 = u3.push(TokenV::Text(arrow_word()));
    assert(effective_body_spec(a.body) == a.body);
    let v1 = u4.push(TokenV::Break(neverbreak_v()));
    let v2 = v1.push(TokenV::Begin(BeginV { offset: 4, breaks: Breaks::Consistent }));
    let v3 = v2.push(TokenV::Break(body_open_break()));
    lemma_feed_all_single(v3, TokenV::Text(b));
    let v4 = v3.push(TokenV::Text(b));
    let v5 = v4.push(TokenV::Break(body_close_break(sep)));
    assert(scan_end_spec(v5) =~= v5.push(TokenV::End));
    let v6 = v5.push(TokenV::End);
    assert(arm_tokens(t4, a) =~= v6.push(TokenV::End));
    let v7 = v6.push(TokenV::End);
    let w1 = v7.push(TokenV::Break(hardbreak_v()));
    assert(arms_from(t4, arms, 0) == arms_from(w1, arms, 1));
    assert(arms_from(w1, arms, 1) == w1);
    assert(crate::select::offset_last(w1, -4) =~= v7.push(
        TokenV::Break(BreakV { offset: -4, ..hardbreak_v() }),
    ));
    let w2 = v7.push(TokenV::Break(BreakV { offset: -4, ..hardbreak_v() }));
    assert(scan_end_spec(w2) =~= w2.push(TokenV::End));
    let w3 = w2.push(TokenV::End);
    assert(select_tokens(Seq::empty(), arms, base) =~= w3.push(TokenV::Text(rbrace_word())));
    assert(select_tokens(Seq::empty(), arms, base) =~= one_arm_doc(p, f, b, sep, base));
    assert(select_tokens(Seq::empty(), arms, base) == one_arm_doc(p, f, b, sep, base));
}

/// The flat widths [`one_arm_doc`]'s three groups measure.
proof fn lemma_one_arm_doc_sizes(p: Seq<u8>, f: Seq<u8>, b: Seq<u8>, sep: bool, base: int)
    ensures
        group_size(one_arm_doc(p, f, b, sep, base), 2) >= SIZE_INFINITY,
        group_size(one_arm_doc(p, f, b, sep, base), 4) == p.len() + 3 + f.len() + 4 + b.len(),
        group_size(one_arm_doc(p, f, b, sep, base), 10) == b.len(),
{
    let s19 = one_arm_doc(p, f, b, sep, base);
    assert(forall|k: int|
        0 <= k < s19.len() ==> ((#[trigger] s19[k]) matches TokenV::Break(br)
            ==> br.blank_space >= 0));
    lemma_group_size_nonneg(s19, 4, 0);
    assert(group_size_from(s19, 3, 0) == SIZE_INFINITY + group_size_from(s19, 4, 0));
    assert(group_size(s19, 2) >= SIZE_INFINITY);
    assert(group_size_from(s19, 15, 0) == 0);
    assert(group_size_from(s19, 14, 1) == group_size_from(s19, 15, 0));
    assert(group_size_from(s19, 13, 1) == 0 + group_size_from(s19, 14, 1));
    assert(group_size_from(s19, 12, 1) == b.len() + group_size_from(s19, 13, 1));
    assert(group_size_from(s19, 11, 1) == 0 + group_size_from(s19, 12, 1));
    assert(group_size_from(s19, 10, 0) == group_size_from(s19, 11, 1));
    assert(group_size_from(s19, 9, 0) == 0 + group_size_from(s19, 10, 0));
    assert(group_size_from(s19, 8, 0) == 4 + group_size_from(s19, 9, 0));
    assert(group_size_from(s19, 7, 0) == f.len() + group_size_from(s19, 8, 0));
    assert(group_size_from(s19, 6, 0) == 3 + group_size_from(s19, 7, 0));
    assert(group_size_from(s19, 5, 0) == p.len() + group_size_from(s19, 6, 0));
    assert(group_size_from(s19, 14, 0) == 0);
    assert(group_size_from(s19, 13, 0) == 0 + group_size_from(s19, 14, 0));
    assert(group_size_from(s19, 12, 0) == b.len() + group_size_from(s19, 13, 0));
    assert(group_size_from(s19, 11, 0) == 0 + group_size_from(s19, 12, 0));
}

/// One-arm rendering, the fitting case: inline, separator-terminated
/// exactly when the classifier asks for one.
#[verifier::rlimit(100)]
pub proof fn lemma_one_arm_inline(p: Seq<u8>, f: Seq<u8>, b: Seq<u8>, sep: bool, base: int)
    requires
        0 <= base,
        base + 8 <= SIZE_INFINITY,
        p.len() + 3 + f.len() + 4 + b.len() <= (if 89 - (4 + base) > 60 {
            89 - (4 + base)
        } else {
            60int
        }),
    ensures
        render_spec(one_arm_doc(p, f, b, sep, base)) == inline_arm_form(p, f, b, base, sep),
{
    let s19 = one_arm_doc(p, f, b, sep, base);
    let space0 = if 89 - (4 + base) > 60 {
        89 - (4 + base)
    } else {
        60int
    };
    let w = p.len() + 3 + f.len() + 4 + b.len();
    lemma_one_arm_doc_sizes(p, f, b, sep, base);
    assert(spaces(0) =~= Seq::<u8>::empty());
    assert(state_at(s19, 0) == init_state());
    assert(state_at(s19, 1) == step(state_at(s19, 0), s19, 0));
    assert(state_at(s19, 1).out =~= seq![123u8]);
    assert(state_at(s19, 1).space == 88);
    assert(state_at(s19, 2) == step(state_at(s19, 1), s19, 1));
    assert(state_at(s19, 2).out == state_at(s19, 1).out);
    assert(state_at(s19, 3) == step(state_at(s19, 2), s19, 2));
    assert(state_at(s19, 3).frames =~= seq![frame_outer_broken()]);
    assert(state_at(s19, 3).indent == 4 + base);
    assert(state_at(s19, 4) == step(state_at(s19, 3), s19, 3));
    assert(state_at(s19, 4).out =~= seq![123u8, 10u8]);
    assert(state_at(s19, 4).pending == 4 + base);
    assert(state_at(s19, 4).space == space0);
    assert(state_at(s19, 5) == step(state_at(s19, 4), s19, 4));
    assert(state_at(s19, 6) == step(state_at(s19, 5), s19, 5));
    assert(state_at(s19, 7) == step(state_at(s19, 6), s19, 6));
    assert(state_at(s19, 8) == step(state_at(s19, 7), s19, 7));
    assert(state_at(s19, 9) == step(state_at(s19, 8), s19, 8));
    assert(state_at(s19, 10) == step(state_at(s19, 9), s19, 9));
    assert(state_at(s19, 11) == step(state_at(s19, 10), s19, 10));
    assert(state_at(s19, 12) == step(state_at(s19, 11), s19, 11));
    assert(state_at(s19, 13) == step(state_at(s19, 12), s19, 12));
    assert(state_at(s19, 14) == step(state_at(s19, 13), s19, 13));
    assert(state_at(s19, 15) == step(state_at(s19, 14), s19, 14));
    assert(state_at(s19, 16) == step(state_at(s19, 15), s19, 15));
    assert(state_at(s19, 17) == step(state_at(s19, 16), s19, 16));
    assert(state_at(s19, 18) == step(state_at(s19, 17), s19, 17));
    assert(state_at(s19, 19) == step(state_at(s19, 18), s19, 18));
    assert(render_spec(s19) == state_at(s19, 19).out);

    assert(state_at(s19, 5).frames =~= seq![frame_outer_broken(), frame_fits_inconsistent()]);
    assert(state_at(s19, 9).out =~= seq![123u8, 10u8] + spaces(4 + base) + p + eq_word() + f
        + arrow_word());
    assert(state_at(s19, 9).space == space0 - (p.len() + 3 + f.len() + 4));
    assert(state_at(s19, 10).out == state_at(s19, 9).out);
    assert(state_at(s19, 11).frames =~= seq![
        frame_outer_broken(),
        frame_fits_inconsistent(),
        frame_fits_consistent(),
    ]);
    assert(state_at(s19, 13).out =~= state_at(s19, 9).out + b);
    if sep {
        assert(state_at(s19, 14).out =~= state_at(s19, 13).out + seq![44u8]);
    } else {
        assert(state_at(s19, 14).out =~= state_at(s19, 13).out);
    }
    assert(state_at(s19, 16).frames =~= seq![frame_outer_broken()]);
    assert(state_at(s19, 16).indent == 4 + base);
    assert(state_at(s19, 17).out =~= state_at(s19, 14).out + seq![10u8]);
    assert(state_at(s19, 17).pending == base);
    assert(state_at(s19, 19).out =~= state_at(s19, 17).out + spaces(base) + seq![125u8]);
    assert(state_at(s19, 19).out =~= inline_arm_form(p, f, b, base, sep));
}

/// One-arm rendering, the overflowing case: the body is brace-wrapped on
/// its own indented line, with no trailing separator.
#[verifier::rlimit(100)]
pub proof fn lemma_one_arm_braced(p: Seq<u8>, f: Seq<u8>, b: Seq<u8>, sep: bool, base: int)
    requires
        0 <= base,
        base + 8 <= SIZE_INFINITY,
        p.len() + 3 + f.len() + 4 + b.len() > (if 89 - (4 + base) > 60 {
            89 - (4 + base)
        } else {
            60int
        }),
    ensures
        render_spec(one_arm_doc(p, f, b, sep, base)) == braced_arm_form(p, f, b, base),
{
    let s19 = one_arm_doc(p, f, b, sep, base);
    let space0 = if 89 - (4 + base) > 60 {
        89 - (4 + base)
    } else {
        60int
    };
    let w = p.len() + 3 + f.len() + 4 + b.len();
    lemma_one_arm_doc_sizes(p, f, b, sep, base);
    assert(spaces(0) =~= Seq::<u8>::empty());
    assert(state_at(s19, 0) == init_state());
    assert(state_at(s19, 1) == step(state_at(s19, 0), s19, 0));
    assert(state_at(s19, 1).out =~= seq![123u8]);
    assert(state_at(s19, 1).space == 88);
    assert(state_at(s19, 2) == step(state_at(s19, 1), s19, 1));
    assert(state_at(s19, 2).out == state_at(s19, 1).out);
    assert(state_at(s19, 3) == step(state_at(s19, 2), s19, 2));
    assert(state_at(s19, 3).frames =~= seq![frame_outer_broken()]);
    assert(state_at(s19, 3).indent == 4 + base);
    assert(state_at(s19, 4) == step(state_at(s19, 3), s19, 3));
    assert(state_at(s19, 4).out =~= seq![123u8, 10u8]);
    assert(state_at(s19, 4).pending == 4 + base);
    assert(state_at(s19, 4).space == space0);
    assert(state_at(s19, 5) == step(state_at(s19, 4), s19, 4));
    assert(state_at(s19, 6) == step(state_at(s19, 5), s19, 5));
    assert(state_at(s19, 7) == step(state_at(s19, 6), s19, 6));
    assert(state_at(s19, 8) == step(state_at(s19, 7), s19, 7));
    assert(state_at(s19, 9) == step(state_at(s19, 8), s19, 8));
    assert(state_at(s19, 10) == step(state_at(s19, 9), s19, 9));
    assert(state_at(s19, 11) == step(state_at(s19, 10), s19, 10));
    assert(state_at(s19, 12) == step(state_at(s19, 11), s19, 11));
    assert(state_at(s19, 13) == step(state_at(s19, 12), s19, 12));
    assert(state_at(s19, 14) == step(state_at(s19, 13), s19, 13));
    assert(state_at(s19, 15) == step(state_at(s19, 14), s19, 14));
    assert(state_at(s19, 16) == step(state_at(s19, 15), s19, 15));
    assert(state_at(s19, 17) == step(state_at(s19, 16), s19, 16));
    assert(state_at(s19, 18) == step(state_at(s19, 17), s19, 17));
    assert(state_at(s19, 19) == step(state_at(s19, 18), s19, 18));
    assert(render_spec(s19) == state_at(s19, 19).out);

    assert(state_at(s19, 5).frames =~= seq![
        frame_outer_broken(),
        frame_broken_inconsistent(4 + base),
    ]);
    assert(state_at(s19, 5).indent == 4 + base);
    assert(state_at(s19, 9).out =~= seq![123u8, 10u8] + spaces(4 + base) + p + eq_word() + f
        + arrow_word());
    assert(state_at(s19, 9).space <= space0 - (p.len() + 3 + f.len() + 4) || state_at(
        s19,
        9,
    ).space == -1);
    assert(state_at(s19, 9).space < b.len());
    assert(state_at(s19, 9).pending == 0);
    assert(state_at(s19, 10).out == state_at(s19, 9).out);
    assert(state_at(s19, 11).frames =~= seq![
        frame_outer_broken(),
        frame_broken_inconsistent(4 + base),
        frame_broken_consistent(4 + base),
    ]);
    assert(state_at(s19, 11).indent == 8 + base);
    assert(state_at(s19, 12).out =~= state_at(s19, 9).out + seq![123u8, 10u8]);
    assert(state_at(s19, 12).pending == 8 + base);
    assert(state_at(s19, 13).out =~= state_at(s19, 12).out + spaces(8 + base) + b);
    assert(state_at(s19, 14).out =~= state_at(s19, 13).out + seq![10u8] + spaces(4 + base)
        + seq![125u8]);
    assert(state_at(s19, 16).frames =~= seq![frame_outer_broken()]);
    assert(state_at(s19, 16).indent == 4 + base);
    assert(state_at(s19, 17).out =~= state_at(s19, 14).out + seq![10u8]);
    assert(state_at(s19, 17).pending == base);
    assert(state_at(s19, 19).out =~= state_at(s19, 17).out + spaces(base) + seq![125u8]);
    assert(state_at(s19, 19).out =~= braced_arm_form(p, f, b, base));
}

/// Brace/comma duality. Take a macro body of one arm whose pattern, driver
/// and body are plain text of a category the classifier knows. When the arm
/// fits in the space its line offers, it renders inline, comma-terminated
/// exactly when the classifier requires a separator; replace the body text
/// by one long enough to overflow that space and the very same arm renders
/// brace-wrapped on its own lines, with no trailing comma in any case.
pub proof fn lemma_brace_comma_duality(
    a: ArmSyntax,
    p: Seq<u8>,
    f: Seq<u8>,
    b: Seq<u8>,
    kind: ExprKind,
    base: int,
)
    requires
        a.pat.deep_view() == seq![TokenV::Text(p)],
        a.future.deep_view() == seq![TokenV::Text(f)],
        (a.body matches BodyExpr::Leaf { kind: k, doc } && k == kind && doc.deep_view() == seq![
            TokenV::Text(b),
        ]),
        kind_handled(kind),
        0 <= base,
        base + 8 <= SIZE_INFINITY,
    ensures
        ({
            let space0 = if 89 - (4 + base) > 60 {
                89 - (4 + base)
            } else {
                60int
            };
            let w = p.len() + 3 + f.len() + 4 + b.len();
            let out = render_spec(select_tokens(Seq::empty(), seq![a], base));
            &&& (w <= space0 ==> out == inline_arm_form(p, f, b, base, requires_comma_spec(kind)))
            &&& (w > space0 ==> out == braced_arm_form(p, f, b, base))
        }),
{
    let sep = requires_comma_spec(kind);
    let space0 = if 89 - (4 + base) > 60 {
        89 - (4 + base)
    } else {
        60int
    };
    let w = p.len() + 3 + f.len() + 4 + b.len();
    lemma_one_arm_doc(a, p, f, b, kind, base);
    if w <= space0 {
        lemma_one_arm_inline(p, f, b, sep, base);
    } else {
        lemma_one_arm_braced(p, f, b, sep, base);
    }
}

/// The outermost frame of the macro-body document.
pub open spec fn frame_outer_broken() -> crate::algorithm::Frame {
    crate::algorithm::Frame::Broken(0, Breaks::Consistent)
}

pub open spec fn frame_fits_inconsistent() -> crate::algorithm::Frame {
    crate::algorithm::Frame::Fits(Breaks::Inconsistent)
}

pub open spec fn frame_fits_consistent() -> crate::algorithm::Frame {
    crate::algorithm::Frame::Fits(Breaks::Consistent)
}

pub open spec fn frame_broken_inconsistent(ind: int) -> crate::algorithm::Frame {
    crate::algorithm::Frame::Broken(ind as usize, Breaks::Inconsistent)
}

pub open spec fn frame_broken_consistent(ind: int) -> crate::algorithm::Frame {
    crate::algorithm::Frame::Broken(ind as usize, Breaks::Consistent)
}

} // verus!
