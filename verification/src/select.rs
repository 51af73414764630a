use vstd::prelude::*;

use crate::algorithm::{
    feed_all, hardbreak_if_nonempty_v, hardbreak_v, lemma_feed_all_snoc, neverbreak_v, scan_end_spec,
    BeginV, BreakToken, BreakV, Breaks, Printer, Token, TokenV, INDENT,
};
use crate::model::FormatError;

verus! {

/// The syntactic category of an arm body expression. The set is closed: a
/// body whose category is not among the named ones is `Unrecognized` and is
/// rejected rather than formatted by guesswork.
#[derive(Clone, Copy, PartialEq, Eq, Structural)]
pub enum ExprKind {
    If,
    Match,
    Block,
    Unsafe,
    While,
    Loop,
    ForLoop,
    TryBlock,
    Const,
    Array,
    Assign,
    Async,
    Await,
    Binary,
    Break,
    Call,
    Cast,
    Closure,
    Continue,
    Field,
    Group,
    Index,
    Infer,
    Let,
    Lit,
    Macro,
    MethodCall,
    Paren,
    Path,
    Range,
    RawAddr,
    Reference,
    Repeat,
    Return,
    Struct,
    Try,
    Tuple,
    Unary,
    Yield,
    Verbatim,
    Unrecognized,
}

/// Whether the classifier knows this category.
pub open spec fn kind_handled(kind: ExprKind) -> bool {
    !(kind is Unrecognized)
}

/// Categories that end in a delimited block need no trailing separator when
/// the arm is left un-braced; every other known category needs one.
pub open spec fn requires_comma_spec(kind: ExprKind) -> bool {
    match kind {
        ExprKind::If
        | ExprKind::Match
        | ExprKind::Block
        | ExprKind::Unsafe
        | ExprKind::While
        | ExprKind::Loop
        | ExprKind::ForLoop
        | ExprKind::TryBlock
        | ExprKind::Const => false,
        _ => true,
    }
}

/// Classify one arm body: does leaving the arm un-braced require a trailing
/// separator? A category outside the enumerated set is an error, never a
/// silent default.
pub fn requires_comma_to_be_match_arm(kind: ExprKind) -> (r: Result<bool, FormatError>)
    ensures
        kind_handled(kind) ==> (r matches Ok(b) && b == requires_comma_spec(kind)),
        !kind_handled(kind) ==> (r matches Err(e) && e is UnhandledExpressionKind),
{
    match kind {
        ExprKind::If
        | ExprKind::Match
        | ExprKind::Block
        | ExprKind::Unsafe
        | ExprKind::While
        | ExprKind::Loop
        | ExprKind::ForLoop
        | ExprKind::TryBlock
        | ExprKind::Const => Ok(false),
        ExprKind::Array
        | ExprKind::Assign
        | ExprKind::Async
        | ExprKind::Await
        | ExprKind::Binary
        | ExprKind::Break
        | ExprKind::Call
        | ExprKind::Cast
        | ExprKind::Closure
        | ExprKind::Continue
        | ExprKind::Field
        | ExprKind::Group
        | ExprKind::Index
        | ExprKind::Infer
        | ExprKind::Let
        | ExprKind::Lit
        | ExprKind::Macro
        | ExprKind::MethodCall
        | ExprKind::Paren
        | ExprKind::Path
        | ExprKind::Range
        | ExprKind::RawAddr
        | ExprKind::Reference
        | ExprKind::Repeat
        | ExprKind::Return
        | ExprKind::Struct
        | ExprKind::Try
        | ExprKind::Tuple
        | ExprKind::Unary
        | ExprKind::Yield
        | ExprKind::Verbatim => Ok(true),
        ExprKind::Unrecognized => Err(FormatError::UnhandledExpressionKind),
    }
}

/// One statement of a braced arm body: its document, as rendered by the
/// external renderer, and, where the statement is a bare expression with no
/// trailing semicolon, that expression (the shape the unwrap rule looks for).
pub struct StmtSyntax {
    pub doc: Vec<Token>,
    pub bare_expr: Option<Box<BodyExpr>>,
}

/// The body of one arm, as far as the formatting policy reads it.
pub enum BodyExpr {
    /// A block expression: its label and rendered inner attributes (if any)
    /// and its statements.
    Block { label: Option<Vec<u8>>, attrs: Vec<Token>, stmts: Vec<StmtSyntax> },
    /// Any other expression: its category and its rendered document.
    Leaf { kind: ExprKind, doc: Vec<Token> },
}

/// A bare block with exactly one bare-expression statement, no label and no
/// attributes: such a body is formatted as if the braces were not there.
pub open spec fn unwrappable(b: BodyExpr) -> bool {
    &&& b matches BodyExpr::Block { label, attrs, stmts }
    &&& label is None
    &&& attrs@.len() == 0
    &&& stmts@.len() == 1
    &&& stmts@[0].bare_expr is Some
}

/// The body the formatter actually renders, after unwrapping needlessly
/// braced single-statement bodies, repeatedly while the pattern holds.
pub open spec fn effective_body_spec(b: BodyExpr) -> BodyExpr
    decreases b,
{
    if unwrappable(b) {
        effective_body_spec(*(b->stmts@[0].bare_expr->0))
    } else {
        b
    }
}

/// Exec mirror of [`effective_body_spec`].
pub fn effective_body(b: &BodyExpr) -> (r: &BodyExpr)
    ensures
        *r == effective_body_spec(*b),
    decreases *b,
{
    match b {
        BodyExpr::Block { label, attrs, stmts } => {
            if label.is_none() && attrs.len() == 0 && stmts.len() == 1 {
                match &stmts[0].bare_expr {
                    Some(inner) => effective_body(&*inner),
                    None => b,
                }
            } else {
                b
            }
        },
        _ => b,
    }
}


/// `" = "`.
pub open spec fn eq_word() -> Seq<u8> {
    seq![32u8, 61u8, 32u8]
}

/// `" => "`.
pub open spec fn arrow_word() -> Seq<u8> {
    seq![32u8, 61u8, 62u8, 32u8]
}

/// `"{"`.
pub open spec fn lbrace_word() -> Seq<u8> {
    seq![123u8]
}

/// `"}"`.
pub open spec fn rbrace_word() -> Seq<u8> {
    seq![125u8]
}

fn word_bytes_1(a: u8) -> (w: Vec<u8>)
    ensures
        w@ == seq![a],
{
    let mut w: Vec<u8> = Vec::new();
    w.push(a);
    proof {
        assert(w@ =~= seq![a]);
    }
    w
}

fn word_bytes_3(a: u8, b: u8, c: u8) -> (w: Vec<u8>)
    ensures
        w@ == seq![a, b, c],
{
    let mut w: Vec<u8> = Vec::new();
    w.push(a);
    w.push(b);
    w.push(c);
    proof {
        assert(w@ =~= seq![a, b, c]);
    }
    w
}

fn word_bytes_4(a: u8, b: u8, c: u8, d: u8) -> (w: Vec<u8>)
    ensures
        w@ == seq![a, b, c, d],
{
    let mut w: Vec<u8> = Vec::new();
    w.push(a);
    w.push(b);
    w.push(c);
    w.push(d);
    proof {
        assert(w@ =~= seq![a, b, c, d]);
    }
    w
}

fn clone_bytes(v: &Vec<u8>) -> (r: Vec<u8>)
    ensures
        r@ == v@,
{
    let r = v.clone();
    proof {
        assert(r@ =~= v@);
    }
    r
}

/// The breakable point that opens an un-braced body: braces it (`pre_break`
/// `{`) only when the arm overflows the line.
pub open spec fn body_open_break() -> BreakV {
    BreakV {
        offset: 0,
        blank_space: 0,
        pre_break: Some(123u8),
        post_break: Seq::empty(),
        no_break: None,
        if_nonempty: false,
        never_break: false,
    }
}

/// The breakable point that closes an un-braced body: a closing `}` on its
/// own outdented line when the arm broke, else a `,` exactly when the
/// classifier requires a separator.
pub open spec fn body_close_break(sep: bool) -> BreakV {
    BreakV {
        offset: -(INDENT as int),
        blank_space: 0,
        pre_break: None,
        post_break: rbrace_word(),
        no_break: if sep {
            Some(44u8)
        } else {
            None
        },
        if_nonempty: false,
        never_break: false,
    }
}

/// Adjust the offset of the last breakable point of a document, as the
/// builder's `offset` call does.
pub open spec fn offset_last(toks: Seq<TokenV>, off: int) -> Seq<TokenV> {
    if toks.len() > 0 && toks.last() is Break {
        match toks.last() {
            TokenV::Break(b) => toks.update(
                toks.len() - 1,
                TokenV::Break(BreakV { offset: b.offset + off, ..b }),
            ),
            _ => toks,
        }
    } else {
        toks
    }
}

/// The statements of a block body: each statement's document followed by a
/// hard line break.
pub open spec fn stmts_fold(toks: Seq<TokenV>, stmts: Seq<StmtSyntax>, i: int) -> Seq<TokenV>
    decreases stmts.len() - i,
{
    if i < 0 || i >= stmts.len() {
        toks
    } else {
        stmts_fold(
            feed_all(toks, stmts[i].doc.deep_view()).push(TokenV::Break(hardbreak_v())),
            stmts,
            i + 1,
        )
    }
}

/// A block body renders as a brace-delimited consistent group, indented one
/// level, one statement per line, the closing brace outdented back.
pub open spec fn block_body_tokens(
    toks: Seq<TokenV>,
    label: Option<Vec<u8>>,
    attrs: Vec<Token>,
    stmts: Vec<StmtSyntax>,
) -> Seq<TokenV> {
    let t1 = match label {
        Some(l) => toks.push(TokenV::Text(l@)),
        None => toks,
    };
    let t2 = t1.push(TokenV::Text(lbrace_word()));
    let t3 = t2.push(TokenV::Break(neverbreak_v()));
    let t4 = t3.push(TokenV::Begin(BeginV { offset: INDENT as int, breaks: Breaks::Consistent }));
    let t5 = t4.push(TokenV::Break(hardbreak_if_nonempty_v()));
    let t6 = feed_all(t5, attrs.deep_view());
    let t7 = stmts_fold(t6, stmts@, 0);
    let t8 = offset_last(t7, -(INDENT as int));
    let t9 = scan_end_spec(t8);
    t9.push(TokenV::Text(rbrace_word()))
}

/// A non-block body renders as a consistent group that stays inline with a
/// trailing separator when it fits, and wraps itself in braces when it does
/// not.
pub open spec fn leaf_body_tokens(toks: Seq<TokenV>, kind: ExprKind, doc: Vec<Token>) -> Seq<
    TokenV,
> {
    let t1 = toks.push(TokenV::Break(neverbreak_v()));
    let t2 = t1.push(TokenV::Begin(BeginV { offset: INDENT as int, breaks: Breaks::Consistent }));
    let t3 = t2.push(TokenV::Break(body_open_break()));
    let t4 = feed_all(t3, doc.deep_view());
    let t5 = t4.push(TokenV::Break(body_close_break(requires_comma_spec(kind))));
    scan_end_spec(t5)
}

/// The whole document one arm contributes: `pattern = driver => body`.
pub open spec fn arm_tokens(toks: Seq<TokenV>, a: ArmSyntax) -> Seq<TokenV> {
    let t0 = toks.push(TokenV::Begin(BeginV { offset: 0, breaks: Breaks::Inconsistent }));
    let t1 = feed_all(t0, a.pat.deep_view());
    let t2 = t1.push(TokenV::Text(eq_word()));
    let t3 = feed_all(t2, a.future.deep_view());
    let t4 = t3.push(TokenV::Text(arrow_word()));
    let t5 = match effective_body_spec(a.body) {
        BodyExpr::Block { label, attrs, stmts } => block_body_tokens(t4, label, attrs, stmts),
        BodyExpr::Leaf { kind, doc } => leaf_body_tokens(t4, kind, doc),
    };
    scan_end_spec(t5)
}

/// One parsed arm of the macro body: the rendered pattern, the rendered
/// driver expression, the body, and whether the source had a trailing
/// separator (kept for fidelity only; the formatter decides it afresh).
pub struct ArmSyntax {
    pub pat: Vec<Token>,
    pub future: Vec<Token>,
    pub body: BodyExpr,
    pub comma: bool,
}

/// Whether the arm's effective body can be formatted at all: a block always
/// can, any other expression only when the classifier knows its category.
pub open spec fn body_ok(b: BodyExpr) -> bool {
    match effective_body_spec(b) {
        BodyExpr::Block { .. } => true,
        BodyExpr::Leaf { kind, .. } => kind_handled(kind),
    }
}

/// Well-formedness the builder relies on: a rendered attribute document, if
/// present, ends in a breakable point (as the external renderer emits it),
/// so the closing brace's outdent has a breakable point to attach to.
pub open spec fn body_wf(b: BodyExpr) -> bool {
    match effective_body_spec(b) {
        BodyExpr::Block { label, attrs, stmts } => attrs.deep_view().len() > 0
            ==> (attrs.deep_view().last() matches TokenV::Break(br) && i32::MIN + INDENT
                <= br.offset),
        BodyExpr::Leaf { .. } => true,
    }
}

proof fn lemma_feed_all_keeps_last_break(toks: Seq<TokenV>, input: Seq<TokenV>)
    requires
        input.len() > 0,
        input.last() is Break,
    ensures
        feed_all(toks, input).len() > 0,
        feed_all(toks, input).last() == input.last(),
{
    assert(input =~= input.drop_last().push(input.last()));
    lemma_feed_all_snoc(toks, input.drop_last(), input.last());
}

proof fn lemma_stmts_fold_last(toks: Seq<TokenV>, stmts: Seq<StmtSyntax>, i: int)
    requires
        0 <= i < stmts.len(),
    ensures
        stmts_fold(toks, stmts, i).len() > 0,
        stmts_fold(toks, stmts, i).last() == TokenV::Break(hardbreak_v()),
    decreases stmts.len() - i,
{
    let next = feed_all(toks, stmts[i].doc.deep_view()).push(TokenV::Break(hardbreak_v()));
    if i + 1 < stmts.len() {
        lemma_stmts_fold_last(next, stmts, i + 1);
    } else {
        assert(stmts_fold(next, stmts, i + 1) == next);
    }
}

/// Compose the document for one arm. An arm whose effective body falls
/// outside the classifier's table is refused whole: nothing is emitted.
pub fn arm(printer: &mut Printer, a: &ArmSyntax) -> (r: Result<(), FormatError>)
    requires
        body_wf(a.body),
    ensures
        body_ok(a.body) ==> (r is Ok && final(printer).toks() == arm_tokens(
            old(printer).toks(),
            *a,
        )),
        !body_ok(a.body) ==> (r matches Err(e) && e is UnhandledExpressionKind && *final(printer)
            == *old(printer)),
{
    let eb = effective_body(&a.body);
    let sep: bool;
    match eb {
        BodyExpr::Leaf { kind, .. } => {
            match requires_comma_to_be_match_arm(*kind) {
                Ok(s) => {
                    sep = s;
                },
                Err(e) => {
                    return Err(e);
                },
            }
        },
        BodyExpr::Block { .. } => {
            sep = false;
        },
    }
    printer.ibox(0);
    printer.emit(&a.pat);
    printer.word(word_bytes_3(32, 61, 32));
    printer.emit(&a.future);
    printer.word(word_bytes_4(32, 61, 62, 32));
    match eb {
        BodyExpr::Block { label, attrs, stmts } => {
            if let Some(l) = label {
                printer.word(clone_bytes(l));
            }
            printer.word(word_bytes_1(123));
            printer.neverbreak();
            printer.cbox(INDENT as i32);
            printer.hardbreak_if_nonempty();
            let ghost t5 = printer.toks();
            printer.emit(attrs);
            let ghost t6 = printer.toks();
            let mut i: usize = 0;
            while i < stmts.len()
                invariant
                    i <= stmts@.len(),
                    stmts_fold(t6, stmts@, 0) == stmts_fold(printer.toks(), stmts@, i as int),
                decreases stmts@.len() - i,
            {
                printer.emit(&stmts[i].doc);
                printer.hardbreak();
                i = i + 1;
            }
            proof {
                assert(stmts_fold(printer.toks(), stmts@, stmts@.len() as int)
                    == printer.toks());
                if stmts@.len() > 0 {
                    lemma_stmts_fold_last(t6, stmts@, 0);
                } else {
                    assert(stmts_fold(t6, stmts@, 0) == t6);
                    if attrs.deep_view().len() > 0 {
                        lemma_feed_all_keeps_last_break(t5, attrs.deep_view());
                    } else {
                        assert(feed_all(t5, attrs.deep_view()) == t5);
                    }
                }
            }
            printer.offset(-(INDENT as i32));
            printer.end();
            printer.word(word_bytes_1(125));
        },
        BodyExpr::Leaf { kind: _, doc } => {
            printer.neverbreak();
            printer.cbox(INDENT as i32);
            let mut b1 = BreakToken::default();
            b1.pre_break = Some(123);
            printer.scan_break(b1);
            printer.emit(doc);
            let mut b2 = BreakToken::default();
            b2.offset = -(INDENT as i32);
            b2.post_break = word_bytes_1(125);
            b2.no_break = if sep {
                Some(44)
            } else {
                None
            };
            printer.scan_break(b2);
            printer.end();
        },
    }
    printer.end();
    Ok(())
}


/// Every arm's body satisfies the builder's well-formedness.
pub open spec fn arms_wf(arms: Seq<ArmSyntax>) -> bool {
    forall|i: int| 0 <= i < arms.len() ==> body_wf((#[trigger] arms[i]).body)
}

/// Every arm's body is classifiable.
pub open spec fn arms_ok(arms: Seq<ArmSyntax>) -> bool {
    forall|i: int| 0 <= i < arms.len() ==> body_ok((#[trigger] arms[i]).body)
}

/// The arms of the macro body, each followed by a hard line break.
pub open spec fn arms_from(toks: Seq<TokenV>, arms: Seq<ArmSyntax>, i: int) -> Seq<TokenV>
    decreases arms.len() - i,
{
    if i < 0 || i >= arms.len() {
        toks
    } else {
        arms_from(arm_tokens(toks, arms[i]).push(TokenV::Break(hardbreak_v())), arms, i + 1)
    }
}

/// The complete macro-body document: an always-unbroken outer pair of
/// braces, and inside it a consistent group, indented one level past the
/// macro invocation's source column, holding one arm per line.
pub open spec fn select_tokens(toks: Seq<TokenV>, arms: Seq<ArmSyntax>, base_indent: int) -> Seq<
    TokenV,
> {
    let t1 = toks.push(TokenV::Text(lbrace_word()));
    let t2 = t1.push(TokenV::Break(neverbreak_v()));
    let t3 = t2.push(
        TokenV::Begin(BeginV { offset: INDENT + base_indent, breaks: Breaks::Consistent }),
    );
    let t4 = t3.push(TokenV::Break(hardbreak_if_nonempty_v()));
    let t5 = arms_from(t4, arms, 0);
    let t6 = offset_last(t5, -(INDENT as int));
    let t7 = scan_end_spec(t6);
    t7.push(TokenV::Text(rbrace_word()))
}

proof fn lemma_arms_from_last(toks: Seq<TokenV>, arms: Seq<ArmSyntax>, i: int)
    requires
        0 <= i < arms.len(),
    ensures
        arms_from(toks, arms, i).len() > 0,
        arms_from(toks, arms, i).last() == TokenV::Break(hardbreak_v()),
    decreases arms.len() - i,
{
    let next = arm_tokens(toks, arms[i]).push(TokenV::Break(hardbreak_v()));
    if i + 1 < arms.len() {
        lemma_arms_from_last(next, arms, i + 1);
    } else {
        assert(arms_from(next, arms, i + 1) == next);
    }
}

fn body_ok_exec(b: &BodyExpr) -> (r: bool)
    ensures
        r == body_ok(*b),
{
    match effective_body(b) {
        BodyExpr::Block { .. } => true,
        BodyExpr::Leaf { kind, .. } => match kind {
            ExprKind::Unrecognized => false,
            _ => true,
        },
    }
}

/// Compose the document for the whole macro body. If any arm's body falls
/// outside the classifier's table, nothing is emitted and the invocation is
/// refused whole, so the caller can leave it unrewritten.
pub fn select(printer: &mut Printer, s: &SelectSyntax, base_indent: i32) -> (r: Result<
    (),
    FormatError,
>)
    requires
        arms_wf(s.arms@),
        0 <= base_indent,
        INDENT + base_indent <= i32::MAX,
    ensures
        arms_ok(s.arms@) ==> (r is Ok && final(printer).toks() == select_tokens(
            old(printer).toks(),
            s.arms@,
            base_indent as int,
        )),
        !arms_ok(s.arms@) ==> (r matches Err(e) && e is UnhandledExpressionKind && *final(printer)
            == *old(printer)),
{
    let mut i: usize = 0;
    while i < s.arms.len()
        invariant
            i <= s.arms@.len(),
            forall|k: int| 0 <= k < i ==> body_ok((#[trigger] s.arms@[k]).body),
        decreases s.arms@.len() - i,
    {
        if !body_ok_exec(&s.arms[i].body) {
            return Err(FormatError::UnhandledExpressionKind);
        }
        i = i + 1;
    }
    printer.word(word_bytes_1(123));
    printer.neverbreak();
    printer.cbox(INDENT as i32 + base_indent);
    printer.hardbreak_if_nonempty();
    let ghost t4 = printer.toks();
    let mut j: usize = 0;
    while j < s.arms.len()
        invariant
            j <= s.arms@.len(),
            arms_wf(s.arms@),
            arms_ok(s.arms@),
            arms_from(t4, s.arms@, 0) == arms_from(printer.toks(), s.arms@, j as int),
            j == 0 ==> printer.toks() == t4,
            j > 0 ==> (printer.toks().len() > 0 && printer.toks().last() == TokenV::Break(
                hardbreak_v(),
            )),
        decreases s.arms@.len() - j,
    {
        match arm(printer, &s.arms[j]) {
            Ok(_) => {},
            Err(e) => {
                return Err(e);
            },
        }
        printer.hardbreak();
        j = j + 1;
    }
    proof {
        assert(arms_from(printer.toks(), s.arms@, s.arms@.len() as int) == printer.toks());
        if s.arms@.len() > 0 {
            lemma_arms_from_last(t4, s.arms@, 0);
        } else {
            assert(arms_from(t4, s.arms@, 0) == t4);
        }
    }
    printer.offset(-(INDENT as i32));
    printer.end();
    printer.word(word_bytes_1(125));
    Ok(())
}

/// The parsed content of one targeted macro invocation: its arm list.
pub struct SelectSyntax {
    pub arms: Vec<ArmSyntax>,
}

impl SelectSyntax {
    /// Every arm's body is one the classifier understands.
    pub open spec fn all_arms_ok(&self) -> bool {
        arms_ok(self.arms@)
    }
}

impl crate::macro_syntax::MacroSyntax for SelectSyntax {
    /// Well-formedness of every arm handed over by the external renderer.
    open spec fn wf(&self) -> bool {
        arms_wf(self.arms@)
    }

    fn delimiter_replacement(&self, base_indent: i32) -> (r: Result<Vec<u8>, FormatError>)
        ensures
            self.all_arms_ok() ==> (r matches Ok(out) && out@ == crate::algorithm::render_spec(
                select_tokens(Seq::empty(), self.arms@, base_indent as int),
            )),
            !self.all_arms_ok() ==> (r matches Err(e) && e is UnhandledExpressionKind),
    {
        let mut printer = Printer::new();
        match select(&mut printer, self, base_indent) {
            Ok(_) => Ok(printer.eof()),
            Err(e) => Err(e),
        }
    }
}

/// The macro this library targets; its name in source text is `select`.
pub struct SelectFactory;

impl SelectFactory {
    /// The macro name an invocation must end in to be rewritten.
    pub fn name() -> (r: &'static str)
        ensures
            r@ == "select"@,
    {
        "select"
    }
}

} // verus!
