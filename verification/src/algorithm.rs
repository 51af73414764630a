use vstd::prelude::*;

verus! {

/// Width budget of one output line.
pub const MARGIN: usize = 89;

/// After a break, at least this much of the line is treated as available,
/// however deep the indentation already is.
pub const MIN_SPACE: usize = 60;

/// One indentation level.
pub const INDENT: usize = 4;

/// A width so large that nothing of that size ever fits on a line; also the
/// cap up to which widths are measured exactly.
pub const SIZE_INFINITY: usize = 0xffff;

/// How the breakable points of a group fire when the group does not fit on
/// the current line: all together, or each on its own judgement.
#[derive(Clone, Copy, PartialEq, Eq, Structural)]
pub enum Breaks {
    Consistent,
    Inconsistent,
}

/// A breakable point. If it does not fire it emits `blank_space` spaces and
/// then `no_break` (if any); if it fires it emits `pre_break` (if any), a
/// newline, indentation adjusted by `offset`, and then `post_break`.
pub struct BreakToken {
    pub offset: i32,
    pub blank_space: usize,
    pub pre_break: Option<u8>,
    pub post_break: Vec<u8>,
    pub no_break: Option<u8>,
    pub if_nonempty: bool,
    pub never_break: bool,
}

impl Default for BreakToken {
    fn default() -> (d: Self)
        ensures
            d.offset == 0,
            d.blank_space == 0,
            d.pre_break is None,
            d.post_break@ == Seq::<u8>::empty(),
            d.no_break is None,
            !d.if_nonempty,
            !d.never_break,
    {
        BreakToken {
            offset: 0,
            blank_space: 0,
            pre_break: None,
            post_break: Vec::new(),
            no_break: None,
            if_nonempty: false,
            never_break: false,
        }
    }
}

/// Opens a group: a nestable region whose breaks fire together or
/// independently, with content indented by `offset` when the group breaks.
#[derive(Clone, Copy)]
pub struct BeginToken {
    pub offset: i32,
    pub breaks: Breaks,
}

/// One token of a document: literal text, a breakable point, or the
/// beginning or end of a group.
pub enum Token {
    Text(Vec<u8>),
    Break(BreakToken),
    Begin(BeginToken),
    End,
}

/// Mathematical view of a [`BreakToken`].
pub ghost struct BreakV {
    pub offset: int,
    pub blank_space: int,
    pub pre_break: Option<u8>,
    pub post_break: Seq<u8>,
    pub no_break: Option<u8>,
    pub if_nonempty: bool,
    pub never_break: bool,
}

/// Mathematical view of a [`BeginToken`].
pub ghost struct BeginV {
    pub offset: int,
    pub breaks: Breaks,
}

/// Mathematical view of a [`Token`]; all contracts of this module speak of
/// documents as sequences of these.
pub ghost enum TokenV {
    Text(Seq<u8>),
    Break(BreakV),
    Begin(BeginV),
    End,
}

impl View for BreakToken {
    type V = BreakV;

    open spec fn view(&self) -> BreakV {
        BreakV {
            offset: self.offset as int,
            blank_space: self.blank_space as int,
            pre_break: self.pre_break,
            post_break: self.post_break@,
            no_break: self.no_break,
            if_nonempty: self.if_nonempty,
            never_break: self.never_break,
        }
    }
}

impl View for BeginToken {
    type V = BeginV;

    open spec fn view(&self) -> BeginV {
        BeginV { offset: self.offset as int, breaks: self.breaks }
    }
}

impl View for Token {
    type V = TokenV;

    open spec fn view(&self) -> TokenV {
        match self {
            Token::Text(s) => TokenV::Text(s@),
            Token::Break(b) => TokenV::Break(b@),
            Token::Begin(b) => TokenV::Begin(b@),
            Token::End => TokenV::End,
        }
    }
}

impl DeepView for Token {
    type V = TokenV;

    open spec fn deep_view(&self) -> TokenV {
        self@
    }
}

/// The width a token contributes to a group measured as if laid out flat.
/// A hard break carries `SIZE_INFINITY` blank space, so no group holding one
/// ever fits on a line.
pub open spec fn token_width(t: TokenV) -> int {
    match t {
        TokenV::Text(s) => s.len() as int,
        TokenV::Break(b) => b.blank_space,
        TokenV::Begin(_) => 0,
        TokenV::End => 0,
    }
}

/// Flat width of the group content starting at `j` (just after its Begin),
/// up to the matching End: `depth` is the number of inner groups still open.
pub open spec fn group_size_from(toks: Seq<TokenV>, j: int, depth: int) -> int
    decreases toks.len() - j,
{
    if j < 0 || j >= toks.len() {
        0
    } else {
        match toks[j] {
            TokenV::End => if depth == 0 {
                0
            } else {
                group_size_from(toks, j + 1, depth - 1)
            },
            TokenV::Begin(_) => group_size_from(toks, j + 1, depth + 1),
            _ => token_width(toks[j]) + group_size_from(toks, j + 1, depth),
        }
    }
}

/// Flat width of the group opened at `i`.
pub open spec fn group_size(toks: Seq<TokenV>, i: int) -> int {
    group_size_from(toks, i + 1, 0)
}

/// Width of the segment that follows a breakable point: the text up to the
/// next breakable point that stands outside every group opened since (`open`
/// counts those still-open groups).
pub open spec fn break_segment_from(toks: Seq<TokenV>, j: int, open: int) -> int
    decreases toks.len() - j,
{
    if j < 0 || j >= toks.len() {
        0
    } else {
        match toks[j] {
            TokenV::Break(b) => if open <= 0 {
                0
            } else {
                b.blank_space + break_segment_from(toks, j + 1, open)
            },
            TokenV::Begin(_) => break_segment_from(toks, j + 1, open + 1),
            TokenV::End => break_segment_from(toks, j + 1, if open > 0 {
                open - 1
            } else {
                0
            }),
            TokenV::Text(s) => s.len() + break_segment_from(toks, j + 1, open),
        }
    }
}

/// Width from the breakable point at `i` to the next one on the same line.
pub open spec fn break_size(toks: Seq<TokenV>, i: int) -> int {
    (match toks[i] {
        TokenV::Break(b) => b.blank_space,
        _ => 0,
    }) + break_segment_from(toks, i + 1, 0)
}

/// A group being printed: either it fit on the current line, or it broke,
/// remembering the indentation to restore at its end.
#[derive(Clone, Copy)]
pub enum Frame {
    Fits(Breaks),
    Broken(usize, Breaks),
}

/// State of the renderer between tokens.
pub struct RenderState {
    /// Text emitted so far.
    pub out: Seq<u8>,
    /// Space left on the current line; `-1` stands for any overfull line.
    pub space: int,
    /// Current indentation level.
    pub indent: int,
    /// Indentation (or fitting blanks) not yet written, flushed before the
    /// next visible text so that no line ends in trailing spaces.
    pub pending: int,
    /// The groups currently open.
    pub frames: Seq<Frame>,
}

/// `n` spaces.
pub open spec fn spaces(n: int) -> Seq<u8> {
    Seq::new(if n < 0 {
        0
    } else {
        n as nat
    }, |i: int| 32u8)
}

/// Indentation is clamped to `0 .. SIZE_INFINITY`: a negative level has no
/// meaning, and the cap keeps the arithmetic bounded.
pub open spec fn clamp_indent(i: int) -> int {
    if i < 0 {
        0
    } else if i > SIZE_INFINITY {
        SIZE_INFINITY as int
    } else {
        i
    }
}

/// Spend `n` columns of `space`; any overfull line is summarised as `-1`,
/// which every fitting test treats alike.
pub open spec fn dec_space(space: int, n: int) -> int {
    if 0 <= space && n <= space {
        space - n
    } else {
        -1
    }
}

/// The enclosing frame; outside every group the document behaves as one
/// broken inconsistent group at indentation 0.
pub open spec fn top_frame(frames: Seq<Frame>) -> Frame {
    if frames.len() == 0 {
        Frame::Broken(0, Breaks::Inconsistent)
    } else {
        frames.last()
    }
}

/// Addition that stays within `usize`; pending blanks saturate rather than
/// wrap, which can matter only for documents far beyond any real file.
pub open spec fn sat_add_spec(a: int, b: int) -> int {
    if a + b > usize::MAX {
        usize::MAX as int
    } else {
        a + b
    }
}

pub open spec fn opt_byte_seq(o: Option<u8>) -> Seq<u8> {
    match o {
        Some(c) => seq![c],
        None => Seq::empty(),
    }
}

pub open spec fn opt_byte_len(o: Option<u8>) -> int {
    match o {
        Some(_) => 1,
        None => 0,
    }
}

/// Whether the breakable point at `toks[i]` stays on the line in state `st`.
pub open spec fn break_fits(st: RenderState, toks: Seq<TokenV>, i: int, b: BreakV) -> bool {
    ||| b.never_break
    ||| top_frame(st.frames) is Fits
    ||| (top_frame(st.frames) matches Frame::Broken(_, br) && br is Inconsistent && break_size(
        toks,
        i,
    ) <= st.space)
}

/// The effect of the token `toks[i]` on the render state.
pub open spec fn step(st: RenderState, toks: Seq<TokenV>, i: int) -> RenderState {
    match toks[i] {
        TokenV::Text(s) => RenderState {
            out: st.out + spaces(st.pending) + s,
            space: dec_space(st.space, s.len() as int),
            pending: 0,
            ..st
        },
        TokenV::Begin(b) => if group_size(toks, i) > st.space {
            RenderState {
                frames: st.frames.push(Frame::Broken(st.indent as usize, b.breaks)),
                indent: clamp_indent(st.indent + b.offset),
                ..st
            }
        } else {
            RenderState { frames: st.frames.push(Frame::Fits(b.breaks)), ..st }
        },
        TokenV::End => if st.frames.len() == 0 {
            st
        } else {
            RenderState {
                frames: st.frames.drop_last(),
                indent: match st.frames.last() {
                    Frame::Broken(ind, _) => ind as int,
                    Frame::Fits(_) => st.indent,
                },
                ..st
            }
        },
        TokenV::Break(b) => if break_fits(st, toks, i, b) {
            RenderState {
                out: st.out + opt_byte_seq(b.no_break),
                space: dec_space(
                    dec_space(st.space, b.blank_space),
                    opt_byte_len(b.no_break),
                ),
                pending: sat_add_spec(st.pending, b.blank_space),
                ..st
            }
        } else {
            let ind2 = clamp_indent(st.indent + b.offset);
            let pre = match b.pre_break {
                Some(c) => spaces(st.pending) + seq![c],
                None => Seq::empty(),
            };
            let line_space = if MARGIN - ind2 > MIN_SPACE {
                MARGIN - ind2
            } else {
                MIN_SPACE as int
            };
            if b.post_break.len() > 0 {
                RenderState {
                    out: st.out + pre + seq![10u8] + spaces(ind2) + b.post_break,
                    space: dec_space(line_space, b.post_break.len() as int),
                    pending: 0,
                    ..st
                }
            } else {
                RenderState {
                    out: st.out + pre + seq![10u8],
                    space: line_space,
                    pending: ind2,
                    ..st
                }
            }
        },
    }
}

pub open spec fn init_state() -> RenderState {
    RenderState { out: Seq::empty(), space: MARGIN as int, indent: 0, pending: 0, frames: Seq::empty() }
}

/// The render state after the first `i` tokens.
pub open spec fn state_at(toks: Seq<TokenV>, i: int) -> RenderState
    decreases i,
{
    if i <= 0 {
        init_state()
    } else {
        step(state_at(toks, i - 1), toks, i - 1)
    }
}

/// The text a document renders to: each group lies flat when its flat width
/// fits in the space left on the line, and otherwise breaks, consistently or
/// point by point according to its kind.
pub open spec fn render_spec(toks: Seq<TokenV>) -> Seq<u8> {
    state_at(toks, toks.len() as int).out
}

/// Widths above `SIZE_INFINITY` all behave alike (nothing that wide fits),
/// so measures are computed capped there.
pub open spec fn clamp_size(x: int) -> int {
    if x > SIZE_INFINITY {
        SIZE_INFINITY as int
    } else {
        x
    }
}

fn cap_width(n: usize) -> (r: usize)
    ensures
        r as int == clamp_size(n as int),
{
    if n > SIZE_INFINITY {
        SIZE_INFINITY
    } else {
        n
    }
}

fn add_capped(a: usize, w: usize) -> (r: usize)
    requires
        a <= SIZE_INFINITY,
        w <= SIZE_INFINITY,
    ensures
        r as int == clamp_size(a + w),
        r <= SIZE_INFINITY,
{
    if a + w > SIZE_INFINITY {
        SIZE_INFINITY
    } else {
        a + w
    }
}

fn sat_add(a: usize, b: usize) -> (r: usize)
    ensures
        r as int == sat_add_spec(a as int, b as int),
{
    if b > usize::MAX - a {
        usize::MAX
    } else {
        a + b
    }
}

fn push_spaces(out: &mut Vec<u8>, n: usize)
    ensures
        final(out)@ == old(out)@ + spaces(n as int),
{
    let mut k: usize = 0;
    while k < n
        invariant
            k <= n,
            out@ == old(out)@ + spaces(k as int),
        decreases n - k,
    {
        out.push(32u8);
        proof {
            assert(out@ =~= old(out)@ + spaces(k + 1));
        }
        k = k + 1;
    }
    proof {
        assert(out@ =~= old(out)@ + spaces(n as int));
    }
}

/// The flat width of the group opened at `toks[i]`, capped at
/// `SIZE_INFINITY`.
fn group_size_capped(toks: &Vec<Token>, i: usize) -> (n: usize)
    requires
        i < toks.deep_view().len(),
    ensures
        n as int == clamp_size(group_size(toks.deep_view(), i as int)),
        n <= SIZE_INFINITY,
{
    let n_toks = toks.len();
    let mut j: usize = i + 1;
    let mut depth: usize = 0;
    let mut acc: usize = 0;
    let ghost mut full: int = 0int;
    proof {
        assert(group_size(toks.deep_view(), i as int) == full + group_size_from(
            toks.deep_view(),
            j as int,
            depth as int,
        ));
    }
    while j < toks.len()
        invariant
            i + 1 <= j,
            j <= toks.deep_view().len() + 1,
            depth <= j,
            acc <= SIZE_INFINITY,
            0 <= full,
            acc as int == clamp_size(full),
            full + group_size_from(toks.deep_view(), j as int, depth as int) == group_size(
                toks.deep_view(),
                i as int,
            ),
        decreases toks@.len() - j,
    {
        proof {
            assert(toks.deep_view()[j as int] == toks@[j as int]@);
        }
        match &toks[j] {
            Token::End => {
                if depth == 0 {
                    proof {
                        assert(group_size_from(toks.deep_view(), j as int, 0) == 0);
                    }
                    return acc;
                }
                depth = depth - 1;
            },
            Token::Begin(_) => {
                depth = depth + 1;
            },
            Token::Break(b) => {
                let w = cap_width(b.blank_space);
                acc = add_capped(acc, w);
                proof {
                    full = full + b.blank_space;
                }
            },
            Token::Text(s) => {
                let w = cap_width(s.len());
                acc = add_capped(acc, w);
                proof {
                    full = full + s@.len();
                }
            },
        }
        j = j + 1;
    }
    proof {
        assert(group_size_from(toks.deep_view(), j as int, depth as int) == 0);
    }
    acc
}

/// The width from the breakable point at `toks[i]` to the next breakable
/// point on the same line, capped at `SIZE_INFINITY`.
fn break_size_capped(toks: &Vec<Token>, i: usize) -> (n: usize)
    requires
        i < toks.deep_view().len(),
        toks.deep_view()[i as int] is Break,
    ensures
        n as int == clamp_size(break_size(toks.deep_view(), i as int)),
        n <= SIZE_INFINITY,
{
    let mut acc: usize;
    let ghost mut full: int;
    proof {
        assert(toks.deep_view()[i as int] == toks@[i as int]@);
    }
    match &toks[i] {
        Token::Break(b) => {
            acc = cap_width(b.blank_space);
            proof {
                full = b.blank_space as int;
            }
        },
        _ => {
            acc = 0;
            proof {
                full = 0int;
            }
        },
    }
    let n_toks = toks.len();
    let mut j: usize = i + 1;
    let mut open: usize = 0;
    while j < toks.len()
        invariant
            i + 1 <= j,
            j <= toks.deep_view().len() + 1,
            open < j,
            acc <= SIZE_INFINITY,
            0 <= full,
            acc as int == clamp_size(full),
            full + break_segment_from(toks.deep_view(), j as int, open as int) == break_size(
                toks.deep_view(),
                i as int,
            ),
        decreases toks@.len() - j,
    {
        proof {
            assert(toks.deep_view()[j as int] == toks@[j as int]@);
        }
        match &toks[j] {
            Token::Break(b) => {
                if open == 0 {
                    proof {
                        assert(break_segment_from(toks.deep_view(), j as int, 0) == 0);
                    }
                    return acc;
                }
                let w = cap_width(b.blank_space);
                acc = add_capped(acc, w);
                proof {
                    full = full + b.blank_space;
                }
            },
            Token::Begin(_) => {
                open = open + 1;
            },
            Token::End => {
                if open > 0 {
                    open = open - 1;
                }
            },
            Token::Text(s) => {
                let w = cap_width(s.len());
                acc = add_capped(acc, w);
                proof {
                    full = full + s@.len();
                }
            },
        }
        j = j + 1;
    }
    proof {
        assert(break_segment_from(toks.deep_view(), j as int, open as int) == 0);
    }
    acc
}

fn clamp_indent_exec(x: i64) -> (r: usize)
    ensures
        r as int == clamp_indent(x as int),
        r <= SIZE_INFINITY,
{
    if x < 0 {
        0
    } else if x > SIZE_INFINITY as i64 {
        SIZE_INFINITY
    } else {
        x as usize
    }
}

fn dec_space_exec(space: isize, n: usize) -> (r: isize)
    requires
        -1 <= space <= MARGIN,
    ensures
        r as int == dec_space(space as int, n as int),
        -1 <= r <= MARGIN,
{
    if space >= 0 && n <= space as usize {
        space - n as isize
    } else {
        -1
    }
}

/// Render a document to text against the fixed line-width budget.
pub fn render(toks: &Vec<Token>) -> (out: Vec<u8>)
    ensures
        out@ == render_spec(toks.deep_view()),
{
    let mut out: Vec<u8> = Vec::new();
    let mut space: isize = MARGIN as isize;
    let mut indent: usize = 0;
    let mut pending: usize = 0;
    let mut frames: Vec<Frame> = Vec::new();
    let mut i: usize = 0;
    while i < toks.len()
        invariant
            i <= toks.deep_view().len(),
            out@ == state_at(toks.deep_view(), i as int).out,
            space as int == state_at(toks.deep_view(), i as int).space,
            indent as int == state_at(toks.deep_view(), i as int).indent,
            pending as int == state_at(toks.deep_view(), i as int).pending,
            frames@ == state_at(toks.deep_view(), i as int).frames,
            -1 <= space <= MARGIN,
            indent <= SIZE_INFINITY,
            forall|k: int|
                0 <= k < frames@.len() ==> ((#[trigger] frames@[k]) matches Frame::Broken(ind, _)
                    ==> ind <= SIZE_INFINITY),
        decreases toks@.len() - i,
    {
        let ghost st = state_at(toks.deep_view(), i as int);
        proof {
            assert(toks.deep_view()[i as int] == toks@[i as int]@);
            assert(state_at(toks.deep_view(), i + 1) == step(st, toks.deep_view(), i as int));
        }
        match &toks[i] {
            Token::Text(s) => {
                push_spaces(&mut out, pending);
                out.extend_from_slice(s.as_slice());
                proof {
                    assert(out@ =~= st.out + spaces(st.pending) + s@);
                }
                space = dec_space_exec(space, s.len());
                pending = 0;
            },
            Token::Begin(b) => {
                let size = group_size_capped(toks, i);
                let broken = size as isize > space;
                proof {
                    assert(broken == (group_size(toks.deep_view(), i as int) > st.space));
                }
                if broken {
                    frames.push(Frame::Broken(indent, b.breaks));
                    indent = clamp_indent_exec(indent as i64 + b.offset as i64);
                } else {
                    frames.push(Frame::Fits(b.breaks));
                }
            },
            Token::End => {
                match frames.pop() {
                    Some(Frame::Broken(ind, _)) => {
                        indent = ind;
                    },
                    Some(Frame::Fits(_)) => {},
                    None => {},
                }
            },
            Token::Break(b) => {
                let fits: bool;
                if b.never_break {
                    fits = true;
                } else if frames.len() == 0 {
                    let bs = break_size_capped(toks, i);
                    fits = bs as isize <= space;
                } else {
                    match frames[frames.len() - 1] {
                        Frame::Fits(_) => {
                            fits = true;
                        },
                        Frame::Broken(_, Breaks::Consistent) => {
                            fits = false;
                        },
                        Frame::Broken(_, Breaks::Inconsistent) => {
                            let bs = break_size_capped(toks, i);
                            fits = bs as isize <= space;
                        },
                    }
                }
                proof {
                    assert(fits == break_fits(st, toks.deep_view(), i as int, b@));
                }
                if fits {
                    if let Some(c) = b.no_break {
                        out.push(c);
                    }
                    space = dec_space_exec(dec_space_exec(space, b.blank_space), match b
                        .no_break {
                        Some(_) => 1,
                        None => 0,
                    });
                    pending = sat_add(pending, b.blank_space);
                } else {
                    if let Some(c) = b.pre_break {
                        push_spaces(&mut out, pending);
                        out.push(c);
                    }
                    out.push(10u8);
                    let ind2 = clamp_indent_exec(indent as i64 + b.offset as i64);
                    let line_space: isize = if MARGIN as isize - ind2 as isize
                        > MIN_SPACE as isize {
                        MARGIN as isize - ind2 as isize
                    } else {
                        MIN_SPACE as isize
                    };
                    if b.post_break.len() > 0 {
                        push_spaces(&mut out, ind2);
                        out.extend_from_slice(b.post_break.as_slice());
                        space = dec_space_exec(line_space, b.post_break.len());
                        pending = 0;
                    } else {
                        space = line_space;
                        pending = ind2;
                    }
                    proof {
                        assert(out@ =~= step(st, toks.deep_view(), i as int).out);
                    }
                }
            },
        }
        i = i + 1;
    }
    out
}


/// What closing a group does to the token stream built so far: a group whose
/// whole content is one breakable point vanishes, a trailing
/// `if_nonempty` breakable point vanishes with the closing token, and
/// otherwise an End token is appended.
pub open spec fn scan_end_spec(toks: Seq<TokenV>) -> Seq<TokenV> {
    if toks.len() >= 2 && toks.last() is Break && toks[toks.len() - 2] is Begin {
        toks.drop_last().drop_last()
    } else if toks.len() >= 1 && (toks.last() matches TokenV::Break(b) && b.if_nonempty) {
        toks.drop_last().push(TokenV::End)
    } else {
        toks.push(TokenV::End)
    }
}

/// Appending one token through the builder.
pub open spec fn feed(toks: Seq<TokenV>, t: TokenV) -> Seq<TokenV> {
    match t {
        TokenV::End => scan_end_spec(toks),
        _ => toks.push(t),
    }
}

/// Appending a whole token sequence through the builder.
pub open spec fn feed_all(toks: Seq<TokenV>, input: Seq<TokenV>) -> Seq<TokenV>
    decreases input.len(),
{
    if input.len() == 0 {
        toks
    } else {
        feed_all(feed(toks, input[0]), input.drop_first())
    }
}

pub proof fn lemma_feed_all_snoc(toks: Seq<TokenV>, input: Seq<TokenV>, t: TokenV)
    ensures
        feed_all(toks, input.push(t)) == feed(feed_all(toks, input), t),
    decreases input.len(),
{
    assert(feed_all(toks, input.push(t)) == feed_all(
        feed(toks, input.push(t)[0]),
        input.push(t).drop_first(),
    ));
    if input.len() == 0 {
        assert(input.push(t)[0] == t);
        assert(input.push(t).drop_first() =~= Seq::<TokenV>::empty());
        assert(feed_all(feed(toks, t), Seq::<TokenV>::empty()) == feed(toks, t));
    } else {
        assert(input.push(t)[0] == input[0]);
        assert(input.push(t).drop_first() =~= input.drop_first().push(t));
        lemma_feed_all_snoc(feed(toks, input[0]), input.drop_first(), t);
        assert(feed_all(toks, input) == feed_all(feed(toks, input[0]), input.drop_first()));
    }
}

fn clone_bytes(v: &Vec<u8>) -> (r: Vec<u8>)
    ensures
        r@ == v@,
{
    let r = v.clone();
    proof {
        assert(r@ =~= v@);
    }
    r
}

fn clone_break(b: &BreakToken) -> (r: BreakToken)
    ensures
        r@ == b@,
{
    let r = BreakToken {
        offset: b.offset,
        blank_space: b.blank_space,
        pre_break: b.pre_break,
        post_break: clone_bytes(&b.post_break),
        no_break: b.no_break,
        if_nonempty: b.if_nonempty,
        never_break: b.never_break,
    };
    r
}

/// Builds a document token by token, applying the same end-of-group
/// simplifications as the streaming printer, and finally renders it.
pub struct Printer {
    pub tokens: Vec<Token>,
}

impl Printer {
    /// The document built so far.
    pub open spec fn toks(&self) -> Seq<TokenV> {
        self.tokens.deep_view()
    }

    pub fn new() -> (p: Printer)
        ensures
            p.toks() == Seq::<TokenV>::empty(),
    {
        let p = Printer { tokens: Vec::new() };
        proof {
            assert(p.toks() =~= Seq::<TokenV>::empty());
        }
        p
    }

    /// Literal text.
    pub fn word(&mut self, w: Vec<u8>)
        ensures
            final(self).toks() == old(self).toks().push(TokenV::Text(w@)),
    {
        let ghost wv = w@;
        self.tokens.push(Token::Text(w));
        proof {
            assert(self.toks() =~= old(self).toks().push(TokenV::Text(wv)));
        }
    }

    pub fn scan_begin(&mut self, b: BeginToken)
        ensures
            final(self).toks() == old(self).toks().push(TokenV::Begin(b@)),
    {
        self.tokens.push(Token::Begin(b));
        proof {
            assert(self.toks() =~= old(self).toks().push(TokenV::Begin(b@)));
        }
    }

    /// Open a group whose breaks fire independently.
    pub fn ibox(&mut self, indent: i32)
        ensures
            final(self).toks() == old(self).toks().push(
                TokenV::Begin(BeginV { offset: indent as int, breaks: Breaks::Inconsistent }),
            ),
    {
        self.scan_begin(BeginToken { offset: indent, breaks: Breaks::Inconsistent });
    }

    /// Open a group whose breaks fire together.
    pub fn cbox(&mut self, indent: i32)
        ensures
            final(self).toks() == old(self).toks().push(
                TokenV::Begin(BeginV { offset: indent as int, breaks: Breaks::Consistent }),
            ),
    {
        self.scan_begin(BeginToken { offset: indent, breaks: Breaks::Consistent });
    }

    pub fn scan_break(&mut self, b: BreakToken)
        ensures
            final(self).toks() == old(self).toks().push(TokenV::Break(b@)),
    {
        let ghost bv = b@;
        self.tokens.push(Token::Break(b));
        proof {
            assert(self.toks() =~= old(self).toks().push(TokenV::Break(bv)));
        }
    }

    /// A breakable point that always fires.
    pub fn hardbreak(&mut self)
        ensures
            final(self).toks() == old(self).toks().push(TokenV::Break(hardbreak_v())),
    {
        let mut b = BreakToken::default();
        b.blank_space = SIZE_INFINITY;
        self.scan_break(b);
    }

    /// A hard breakable point that is dropped again if nothing follows it
    /// before its group closes.
    pub fn hardbreak_if_nonempty(&mut self)
        ensures
            final(self).toks() == old(self).toks().push(TokenV::Break(hardbreak_if_nonempty_v())),
    {
        let mut b = BreakToken::default();
        b.blank_space = SIZE_INFINITY;
        b.if_nonempty = true;
        self.scan_break(b);
    }

    /// A breakable point that never fires, whatever the width.
    pub fn neverbreak(&mut self)
        ensures
            final(self).toks() == old(self).toks().push(TokenV::Break(neverbreak_v())),
    {
        let mut b = BreakToken::default();
        b.never_break = true;
        self.scan_break(b);
    }

    /// Adjust the indentation offset of the breakable point just emitted.
    pub fn offset(&mut self, off: i32)
        requires
            old(self).toks().len() > 0,
            old(self).toks().last() is Break || old(self).toks().last() is Begin,
            old(self).toks().last() matches TokenV::Break(b) ==> i32::MIN <= b.offset + off
                <= i32::MAX,
        ensures
            final(self).toks() == match old(self).toks().last() {
                TokenV::Break(b) => old(self).toks().update(
                    old(self).toks().len() - 1,
                    TokenV::Break(BreakV { offset: b.offset + off, ..b }),
                ),
                _ => old(self).toks(),
            },
    {
        let t = self.tokens.pop().unwrap();
        match t {
            Token::Break(b) => {
                let mut b2 = b;
                b2.offset = b2.offset + off;
                self.tokens.push(Token::Break(b2));
                proof {
                    assert(self.toks() =~= old(self).toks().update(
                        old(self).toks().len() - 1,
                        TokenV::Break(BreakV { offset: b@.offset + off, ..b@ }),
                    ));
                }
            },
            other => {
                self.tokens.push(other);
                proof {
                    assert(self.toks() =~= old(self).toks());
                }
            },
        }
    }

    /// Close the innermost open group.
    pub fn end(&mut self)
        ensures
            final(self).toks() == scan_end_spec(old(self).toks()),
    {
        let n = self.tokens.len();
        let mut collapse_group = false;
        let mut drop_if_nonempty = false;
        if n >= 2 {
            if let Token::Break(_) = &self.tokens[n - 1] {
                if let Token::Begin(_) = &self.tokens[n - 2] {
                    collapse_group = true;
                }
            }
        }
        if collapse_group {
            self.tokens.pop();
            self.tokens.pop();
            proof {
                assert(self.toks() =~= old(self).toks().drop_last().drop_last());
            }
            return;
        }
        if n >= 1 {
            if let Token::Break(b) = &self.tokens[n - 1] {
                if b.if_nonempty {
                    drop_if_nonempty = true;
                }
            }
        }
        if drop_if_nonempty {
            self.tokens.pop();
            self.tokens.push(Token::End);
            proof {
                assert(self.toks() =~= old(self).toks().drop_last().push(TokenV::End));
            }
        } else {
            self.tokens.push(Token::End);
            proof {
                assert(self.toks() =~= old(self).toks().push(TokenV::End));
            }
        }
    }

    /// Append a pre-rendered token sequence, token by token, as an external
    /// renderer would have emitted it.
    pub fn emit(&mut self, input: &Vec<Token>)
        ensures
            final(self).toks() == feed_all(old(self).toks(), input.deep_view()),
    {
        let mut i: usize = 0;
        proof {
            assert(input.deep_view().subrange(0, 0) =~= Seq::<TokenV>::empty());
        }
        while i < input.len()
            invariant
                i <= input@.len(),
                self.toks() == feed_all(
                    old(self).toks(),
                    input.deep_view().subrange(0, i as int),
                ),
            decreases input@.len() - i,
        {
            proof {
                assert(input.deep_view()[i as int] == input@[i as int]@);
                assert(input.deep_view().subrange(0, i + 1) =~= input.deep_view().subrange(
                    0,
                    i as int,
                ).push(input.deep_view()[i as int]));
                lemma_feed_all_snoc(
                    old(self).toks(),
                    input.deep_view().subrange(0, i as int),
                    input.deep_view()[i as int],
                );
            }
            match &input[i] {
                Token::Text(s) => {
                    self.word(clone_bytes(s));
                },
                Token::Break(b) => {
                    self.scan_break(clone_break(b));
                },
                Token::Begin(b) => {
                    self.scan_begin(*b);
                },
                Token::End => {
                    self.end();
                },
            }
            i = i + 1;
        }
        proof {
            assert(input.deep_view().subrange(0, input@.len() as int) =~= input.deep_view());
        }
    }

    /// Finish: render the document built so far.
    pub fn eof(self) -> (out: Vec<u8>)
        ensures
            out@ == render_spec(self.toks()),
    {
        render(&self.tokens)
    }
}

/// The breakable point `hardbreak` emits.
pub open spec fn hardbreak_v() -> BreakV {
    BreakV {
        offset: 0,
        blank_space: SIZE_INFINITY as int,
        pre_break: None,
        post_break: Seq::empty(),
        no_break: None,
        if_nonempty: false,
        never_break: false,
    }
}

/// The breakable point `hardbreak_if_nonempty` emits.
pub open spec fn hardbreak_if_nonempty_v() -> BreakV {
    BreakV { if_nonempty: true, ..hardbreak_v() }
}

/// The breakable point `neverbreak` emits.
pub open spec fn neverbreak_v() -> BreakV {
    BreakV { blank_space: 0, never_break: true, ..hardbreak_v() }
}


/// Flat widths are nonnegative wherever every breakable point's blank width
/// is.
pub proof fn lemma_group_size_nonneg(toks: Seq<TokenV>, j: int, depth: int)
    requires
        forall|k: int|
            0 <= k < toks.len() ==> ((#[trigger] toks[k]) matches TokenV::Break(br)
                ==> br.blank_space >= 0),
    ensures
        group_size_from(toks, j, depth) >= 0,
    decreases toks.len() - j,
{
    if 0 <= j < toks.len() {
        match toks[j] {
            TokenV::End => {
                if depth != 0 {
                    lemma_group_size_nonneg(toks, j + 1, depth - 1);
                }
            },
            TokenV::Begin(_) => {
                lemma_group_size_nonneg(toks, j + 1, depth + 1);
            },
            _ => {
                lemma_group_size_nonneg(toks, j + 1, depth);
            },
        }
    }
}

/// Appending a single token through the builder.
pub proof fn lemma_feed_all_single(toks: Seq<TokenV>, t: TokenV)
    ensures
        feed_all(toks, seq![t]) == feed(toks, t),
{
    assert(seq![t][0] == t);
    assert(seq![t].drop_first() =~= Seq::<TokenV>::empty());
    assert(feed_all(feed(toks, t), Seq::<TokenV>::empty()) == feed(toks, t));
}

} // verus!
