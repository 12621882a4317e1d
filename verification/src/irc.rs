//! The terminal IRC client: lines from the servers and lines typed by the
//! user scroll up the screen, newest at the bottom, above a rule and the
//! line being typed. The client keeps several connections and a control
//! view; escape followed by `a` switches to or from the control view, and
//! escape followed by a digit picks a connection.
//!
//! Text here is kept as bytes, each standing for the character with that
//! code; such a character takes one byte in UTF-8 below 0x80 and two above.
use vstd::prelude::*;
use vstd::string::StringSliceAdditionalSpecFns;
use crate::bytes::{append_bytes, copy_bytes};

use crate::event::{irc_ready, spec_irc_ready, steps_view, Events, LoopStep};
verus! {

/// What the client does on the terminal and the network, in order.
#[derive(Debug, PartialEq, Eq)]
pub enum IrcAction {
    /// Clear the screen.
    Clear,
    /// Move the cursor to a row and a column.
    Move(i32, i32),
    /// Write the character with this code at the cursor.
    AddCh(u8),
    /// Write UTF-8 text at the cursor.
    Print(Vec<u8>),
    /// Write UTF-8 text at a row and a column.
    MovePrint(i32, i32, Vec<u8>),
    /// Show what was written.
    Refresh,
    /// Write a line of UTF-8 text to standard error.
    Log(Vec<u8>),
    /// Send bytes on a connection, by its position.
    Write(usize, Vec<u8>),
}

/// An action as mathematical values.
pub enum IrcActionView {
    Clear,
    Move(i32, i32),
    AddCh(u8),
    Print(Seq<u8>),
    MovePrint(i32, i32, Seq<u8>),
    Refresh,
    Log(Seq<u8>),
    Write(usize, Seq<u8>),
}

impl View for IrcAction {
    type V = IrcActionView;

    open spec fn view(&self) -> IrcActionView {
        match self {
            IrcAction::Clear => IrcActionView::Clear,
            IrcAction::Move(y, x) => IrcActionView::Move(*y, *x),
            IrcAction::AddCh(c) => IrcActionView::AddCh(*c),
            IrcAction::Print(t) => IrcActionView::Print(t@),
            IrcAction::MovePrint(y, x, t) => IrcActionView::MovePrint(*y, *x, t@),
            IrcAction::Refresh => IrcActionView::Refresh,
            IrcAction::Log(t) => IrcActionView::Log(t@),
            IrcAction::Write(c, t) => IrcActionView::Write(*c, t@),
        }
    }
}

/// The views of a sequence of actions.
pub open spec fn irc_view(a: Seq<IrcAction>) -> Seq<IrcActionView> {
    a.map_values(|x: IrcAction| x@)
}

/// The views of a sequence of lines.
pub open spec fn lines_view(s: Seq<Vec<u8>>) -> Seq<Seq<u8>> {
    s.map_values(|v: Vec<u8>| v@)
}

/// The UTF-8 encoding of text whose bytes stand for characters.
pub open spec fn latin1_utf8(s: Seq<u8>) -> Seq<u8>
    decreases s.len(),
{
    if s.len() == 0 {
        Seq::empty()
    } else {
        let b = s[0];
        let head = if b < 128 {
            seq![b]
        } else {
            seq![(192 + b / 64) as u8, (128 + b % 64) as u8]
        };
        head + latin1_utf8(s.drop_first())
    }
}

/// The UTF-8 encoding of a single character.
pub proof fn lemma_latin1_utf8_one(b: u8)
    ensures
        latin1_utf8(seq![b]) == (if b < 128 {
            seq![b]
        } else {
            seq![(192 + b / 64) as u8, (128 + b % 64) as u8]
        }),
{
    assert(seq![b].drop_first() =~= Seq::<u8>::empty());
    assert(latin1_utf8(Seq::<u8>::empty()) == Seq::<u8>::empty());
    assert(latin1_utf8(seq![b]) =~= (if b < 128 {
        seq![b]
    } else {
        seq![(192 + b / 64) as u8, (128 + b % 64) as u8]
    }));
}

/// The UTF-8 encoding of text followed by more text.
pub proof fn lemma_latin1_utf8_push(s: Seq<u8>, b: u8)
    ensures
        latin1_utf8(s.push(b)) == latin1_utf8(s) + latin1_utf8(seq![b]),
    decreases s.len(),
{
    if s.len() > 0 {
        lemma_latin1_utf8_push(s.drop_first(), b);
        assert(s.push(b).drop_first() =~= s.drop_first().push(b));
    } else {
        assert(s.push(b) =~= seq![b]);
    }
    assert(latin1_utf8(s) + latin1_utf8(seq![b]) =~= latin1_utf8(s.push(b)));
}

/// The UTF-8 encoding of text whose bytes stand for characters.
pub fn latin1_to_utf8(s: &[u8]) -> (r: Vec<u8>)
    ensures
        r@ == latin1_utf8(s@),
{
    let mut r: Vec<u8> = Vec::new();
    let mut i: usize = 0;
    assert(s@.subrange(0, 0) =~= Seq::<u8>::empty());
    while i < s.len()
        invariant
            i <= s@.len(),
            r@ == latin1_utf8(s@.subrange(0, i as int)),
        decreases s@.len() - i,
    {
        let b = s[i];
        proof {
            lemma_latin1_utf8_push(s@.subrange(0, i as int), b);
            lemma_latin1_utf8_one(b);
            assert(s@.subrange(0, i as int).push(b) =~= s@.subrange(0, i + 1));
        }
        if b < 128 {
            r.push(b);
        } else {
            r.push(192 + b / 64);
            r.push(128 + b % 64);
        }
        i = i + 1;
        assert(r@ =~= latin1_utf8(s@.subrange(0, i as int)));
    }
    assert(s@.subrange(0, s@.len() as int) =~= s@);
    r
}

/// Debug form of a byte: its decimal digits.
pub open spec fn decimal(b: u8) -> Seq<u8> {
    if b < 10 {
        seq![(48 + b) as u8]
    } else if b < 100 {
        seq![(48 + b / 10) as u8, (48 + b % 10) as u8]
    } else {
        seq![(48 + b / 100) as u8, (48 + (b / 10) % 10) as u8, (48 + b % 10) as u8]
    }
}

/// The decimal digits of a byte.
pub fn decimal_exec(b: u8) -> (r: Vec<u8>)
    ensures
        r@ == decimal(b),
{
    let mut r: Vec<u8> = Vec::new();
    if b < 10 {
        r.push(48 + b);
    } else if b < 100 {
        r.push(48 + b / 10);
        r.push(48 + b % 10);
    } else {
        r.push(48 + b / 100);
        r.push(48 + (b / 10) % 10);
        r.push(48 + b % 10);
    }
    assert(r@ =~= decimal(b));
    r
}

/// The line logged for each typed byte.
pub open spec fn key_log(b: u8) -> IrcActionView {
    IrcActionView::Log("key: ".spec_bytes() + decimal(b))
}

/// The operations that show one line from row `y` down, `cols` characters a
/// row, the `j`-th row first.
pub open spec fn chunk_ops(line: Seq<u8>, y: int, cols: int, j: int) -> Seq<IrcActionView>
    decreases line.len(),
{
    if line.len() == 0 || cols <= 0 {
        Seq::empty()
    } else {
        let n = if line.len() < cols { line.len() as int } else { cols };
        seq![IrcActionView::Move((y + j) as i32, 0)] + line.take(n).map_values(|c: u8| IrcActionView::AddCh(c))
            + chunk_ops(line.skip(n), y, cols, j + 1)
    }
}

/// The operations that show scroll lines, newest first, each above the one
/// before it, the lowest ending above row `i`; it stops at the first line
/// that does not fit on the screen.
pub open spec fn scroll_ops(scroll: Seq<Seq<u8>>, i: int, cols: int) -> Seq<IrcActionView>
    decreases scroll.len(),
{
    if scroll.len() == 0 || cols <= 0 {
        Seq::empty()
    } else {
        let i2 = i - ((latin1_utf8(scroll[0]).len() as int) / cols + 1);
        if i2 < 0 {
            Seq::empty()
        } else {
            chunk_ops(scroll[0], i2, cols, 0) + scroll_ops(scroll.drop_first(), i2, cols)
        }
    }
}

/// Drawing the scroll on a screen of `lines` rows and `cols` columns: the
/// lines, a rule of dashes on the second row from the bottom, and the cursor
/// at the start of the bottom row.
pub open spec fn spec_draw_scroll(scroll: Seq<Seq<u8>>, lines: int, cols: int) -> Seq<IrcActionView> {
    scroll_ops(scroll, lines - 2, cols) + seq![IrcActionView::Move((lines - 2) as i32, 0)]
        + Seq::new(cols as nat, |k: int| IrcActionView::Print("-".spec_bytes()))
        + seq![IrcActionView::Move((lines - 1) as i32, 0)]
}

/// A screen size that the drawing arithmetic can handle.
pub open spec fn screen_ok(lines: i32, cols: i32) -> bool {
    2 <= lines && 0 < cols
}

/// Scroll lines short enough that their UTF-8 length fits in an `i32`.
pub open spec fn scroll_ok(scroll: Seq<Seq<u8>>) -> bool {
    forall|k: int| 0 <= k < scroll.len() ==> #[trigger] latin1_utf8(scroll[k]).len() < i32::MAX
}

pub(crate) fn text_bytes(text: &str) -> (r: Vec<u8>)
    ensures
        r@ == text.spec_bytes(),
{
    copy_bytes(text.as_bytes())
}

pub(crate) fn push_act(v: &mut Vec<IrcAction>, a: IrcAction)
    ensures
        irc_view(final(v)@) == irc_view(old(v)@).push(a@),
{
    v.push(a);
    assert(irc_view(v@) =~= irc_view(old(v)@).push(a@));
}

/// The UTF-8 length of text whose bytes stand for characters.
pub fn latin1_utf8_len(s: &[u8]) -> (r: usize)
    requires
        latin1_utf8(s@).len() <= usize::MAX,
    ensures
        r == latin1_utf8(s@).len(),
{
    let mut n: usize = 0;
    let mut i: usize = 0;
    assert(s@.subrange(0, 0) =~= Seq::<u8>::empty());
    while i < s.len()
        invariant
            i <= s@.len(),
            n == latin1_utf8(s@.subrange(0, i as int)).len(),
            latin1_utf8(s@).len() <= usize::MAX,
        decreases s@.len() - i,
    {
        proof {
            lemma_latin1_utf8_push(s@.subrange(0, i as int), s@[i as int]);
            assert(s@.subrange(0, i as int).push(s@[i as int]) =~= s@.subrange(0, i + 1));
            lemma_latin1_utf8_one(s@[i as int]);
            lemma_latin1_utf8_prefix_len(s@, i + 1);
        }
        if s[i] < 128 {
            n = n + 1;
        } else {
            n = n + 2;
        }
        i = i + 1;
    }
    assert(s@.subrange(0, s@.len() as int) =~= s@);
    n
}

/// A prefix is no longer in UTF-8 than the whole text.
pub proof fn lemma_latin1_utf8_prefix_len(s: Seq<u8>, i: int)
    requires
        0 <= i <= s.len(),
    ensures
        latin1_utf8(s.subrange(0, i)).len() <= latin1_utf8(s).len(),
    decreases s.len() - i,
{
    if i < s.len() {
        lemma_latin1_utf8_prefix_len(s, i + 1);
        lemma_latin1_utf8_push(s.subrange(0, i), s[i]);
        assert(s.subrange(0, i).push(s[i]) =~= s.subrange(0, i + 1));
        lemma_latin1_utf8_one(s[i]);
    } else {
        assert(s.subrange(0, i) =~= s);
    }
}

/// Text is no shorter in UTF-8 than in characters.
pub proof fn lemma_latin1_utf8_len_ge(s: Seq<u8>)
    ensures
        latin1_utf8(s).len() >= s.len(),
    decreases s.len(),
{
    if s.len() > 0 {
        lemma_latin1_utf8_len_ge(s.drop_first());
    }
}

/// Writes one scroll line from row `y` down, `cols` characters a row.
fn draw_chunks(out: &mut Vec<IrcAction>, line: &[u8], y: i32, cols: i32)
    requires
        0 < cols,
        0 <= y,
        y as int + (line@.len() as int) / (cols as int) < i32::MAX,
    ensures
        irc_view(final(out)@) == irc_view(old(out)@) + chunk_ops(line@, y as int, cols as int, 0),
{
    let ghost start = irc_view(out@);
    let c = cols as usize;
    let mut pos: usize = 0;
    let mut j: i32 = 0;
    assert(line@.skip(0) =~= line@);
    while pos < line.len()
        invariant
            0 < cols,
            c == cols as usize,
            0 <= y,
            y as int + (line@.len() as int) / (cols as int) < i32::MAX,
            pos <= line@.len(),
            pos == j as int * c || pos == line@.len(),
            0 <= j,
            irc_view(out@) + chunk_ops(line@.skip(pos as int), y as int, cols as int, j as int) == start + chunk_ops(
                line@,
                y as int,
                cols as int,
                0,
            ),
        decreases line@.len() - pos,
    {
        let ghost rest = line@.skip(pos as int);
        let end = if line.len() - pos < c { line.len() } else { pos + c };
        let ghost n = (end - pos) as int;
        proof {
            assert(rest.len() > 0);
            assert(n == (if rest.len() < cols { rest.len() as int } else { cols as int }));
            assert(j as int * c == pos);
            assert(j as int <= (line@.len() as int) / (cols as int)) by (nonlinear_arith)
                requires
                    j as int * (cols as int) <= line@.len(),
                    cols > 0,
                    j >= 0,
            ;
        }
        let ghost before = irc_view(out@);
        push_act(out, IrcAction::Move(y + j, 0));
        let mut k: usize = pos;
        while k < end
            invariant
                pos <= k <= end,
                end <= line@.len(),
                irc_view(out@) == before.push(IrcActionView::Move((y + j) as i32, 0)) + line@.subrange(pos as int, k as int).map_values(
                    |ch: u8| IrcActionView::AddCh(ch),
                ),
            decreases end - k,
        {
            let ghost b2 = irc_view(out@);
            push_act(out, IrcAction::AddCh(line[k]));
            k = k + 1;
            assert(line@.subrange(pos as int, k as int) =~= line@.subrange(pos as int, k - 1).push(line@[k - 1]));
            assert(irc_view(out@) =~= before.push(IrcActionView::Move((y + j) as i32, 0)) + line@.subrange(pos as int, k as int).map_values(
                |ch: u8| IrcActionView::AddCh(ch),
            ));
        }
        proof {
            assert(rest.take(n) =~= line@.subrange(pos as int, end as int));
            assert(rest.skip(n) =~= line@.skip(end as int));
            assert(chunk_ops(rest, y as int, cols as int, j as int) == seq![IrcActionView::Move((y + j) as i32, 0)]
                + rest.take(n).map_values(|ch: u8| IrcActionView::AddCh(ch)) + chunk_ops(rest.skip(n), y as int, cols as int, j + 1));
            assert(irc_view(out@) + chunk_ops(line@.skip(end as int), y as int, cols as int, j + 1) =~= before
                + chunk_ops(rest, y as int, cols as int, j as int));
        }
        pos = end;
        if pos < line.len() {
            proof {
                assert((j + 1) as int * c == j as int * c + c) by (nonlinear_arith);
            }
            j = j + 1;
        } else {
            proof {
                assert(line@.skip(pos as int).len() == 0);
                assert(chunk_ops(line@.skip(pos as int), y as int, cols as int, j + 1) == chunk_ops(line@.skip(pos as int), y as int, cols as int, j as int));
            }
        }
    }
    assert(line@.skip(pos as int).len() == 0);
    assert(irc_view(out@) + Seq::<IrcActionView>::empty() =~= irc_view(out@));
}

/// Draws the scroll, newest line first, on a screen of `lines` rows and `cols` columns.
pub fn draw_scroll(scroll: &Vec<Vec<u8>>, lines: i32, cols: i32) -> (r: Vec<IrcAction>)
    requires
        screen_ok(lines, cols),
        scroll_ok(lines_view(scroll@)),
    ensures
        irc_view(r@) == spec_draw_scroll(lines_view(scroll@), lines as int, cols as int),
{
    let ghost lv = lines_view(scroll@);
    let mut out: Vec<IrcAction> = Vec::new();
    let mut i: i32 = lines - 2;
    let mut k: usize = 0;
    let mut done = false;
    assert(lv.skip(0) =~= lv);
    assert(irc_view(out@) =~= Seq::<IrcActionView>::empty());
    while k < scroll.len() && !done
        invariant
            screen_ok(lines, cols),
            scroll_ok(lv),
            lv == lines_view(scroll@),
            k <= scroll@.len(),
            0 <= i <= lines - 2,
            irc_view(out@) + (if done { Seq::empty() } else { scroll_ops(lv.skip(k as int), i as int, cols as int) })
                == scroll_ops(lv, lines - 2, cols as int),
        decreases scroll@.len() - k, (if done { 0int } else { 1int }),
    {
        let line = &scroll[k];
        let ghost rest = lv.skip(k as int);
        assert(rest[0] == line@);
        assert(rest.drop_first() =~= lv.skip(k + 1));
        assert(latin1_utf8(lv[k as int]).len() < i32::MAX);
        let len = latin1_utf8_len(line.as_slice());
        let x = (len as i32) / cols + 1;
        let i2 = i - x;
        if i2 < 0 {
            done = true;
            assert(irc_view(out@) + Seq::<IrcActionView>::empty() =~= irc_view(out@));
        } else {
            proof {
                lemma_latin1_utf8_len_ge(line@);
                assert((line@.len() as int) / (cols as int) <= (len as int) / (cols as int)) by (nonlinear_arith)
                    requires
                        line@.len() <= len,
                        cols > 0,
                ;
            }
            let ghost before = irc_view(out@);
            draw_chunks(&mut out, line.as_slice(), i2, cols);
            assert(irc_view(out@) + scroll_ops(lv.skip(k + 1), i2 as int, cols as int) =~= before + scroll_ops(rest, i as int, cols as int));
            i = i2;
            k = k + 1;
        }
    }
    proof {
        if !done {
            assert(lv.skip(k as int).len() == 0);
        }
        assert(irc_view(out@) =~= scroll_ops(lv, lines - 2, cols as int));
    }
    push_act(&mut out, IrcAction::Move(lines - 2, 0));
    let mut n: i32 = 0;
    let ghost mid = irc_view(out@);
    while n < cols
        invariant
            0 <= n <= cols,
            irc_view(out@) == mid + Seq::new(n as nat, |q: int| IrcActionView::Print("-".spec_bytes())),
        decreases cols - n,
    {
        push_act(&mut out, IrcAction::Print(text_bytes("-")));
        n = n + 1;
        assert(irc_view(out@) =~= mid + Seq::new(n as nat, |q: int| IrcActionView::Print("-".spec_bytes())));
    }
    push_act(&mut out, IrcAction::Move(lines - 1, 0));
    assert(irc_view(out@) =~= spec_draw_scroll(lv, lines as int, cols as int));
    out
}

// ---------------------------------------------------------------------------
// The client.

/// The client's state as mathematical values.
#[verifier::ext_equal]
pub struct IrcView {
    /// The line being typed.
    pub inbuf: Seq<u8>,
    /// The connection shown.
    pub current: usize,
    /// The scroll of each connection, newest line first.
    pub scrolls: Seq<Seq<Seq<u8>>>,
    /// The unfinished line received on each connection.
    pub outbufs: Seq<Seq<u8>>,
    /// Whether the control view is shown.
    pub on_ctl: bool,
    /// The scroll of the control view, newest line first.
    pub ctl_scroll: Seq<Seq<u8>>,
}

/// Text short enough that its UTF-8 length fits in an `i32`.
pub open spec fn small(s: Seq<u8>) -> bool {
    2 * s.len() < i32::MAX
}

/// Every scroll line is short.
pub open spec fn scroll_small(sc: Seq<Seq<u8>>) -> bool {
    forall|k: int| 0 <= k < sc.len() ==> small(#[trigger] sc[k])
}

/// The client's state is consistent: at least one connection, the one shown
/// among them, and every line short.
pub open spec fn irc_wf(s: IrcView) -> bool {
    &&& s.scrolls.len() == s.outbufs.len()
    &&& s.scrolls.len() >= 1
    &&& s.current < s.scrolls.len()
    &&& small(s.inbuf)
    &&& scroll_small(s.ctl_scroll)
    &&& forall|c: int| 0 <= c < s.scrolls.len() ==> scroll_small(#[trigger] s.scrolls[c])
    &&& forall|c: int| 0 <= c < s.outbufs.len() ==> small(#[trigger] s.outbufs[c])
}

/// The scroll on screen.
pub open spec fn shown(s: IrcView) -> Seq<Seq<u8>> {
    if s.on_ctl {
        s.ctl_scroll
    } else {
        s.scrolls[s.current as int]
    }
}

/// Bytes `text` received on connection `conn`: line feeds are dropped, a
/// carriage return ends a line, which is logged and scrolled in.
pub open spec fn netin_run(s: IrcView, conn: int, text: Seq<u8>) -> (IrcView, Seq<IrcActionView>)
    decreases text.len(),
{
    if text.len() == 0 {
        (s, Seq::empty())
    } else {
        let b = text[0];
        if b == 10 {
            netin_run(s, conn, text.drop_first())
        } else if b == 13 {
            let line = s.outbufs[conn];
            let s1 = IrcView {
                scrolls: s.scrolls.update(conn, seq![line] + s.scrolls[conn]),
                outbufs: s.outbufs.update(conn, Seq::empty()),
                ..s
            };
            let (s2, rest) = netin_run(s1, conn, text.drop_first());
            (s2, seq![IrcActionView::Log(latin1_utf8(line))] + rest)
        } else {
            netin_run(IrcView { outbufs: s.outbufs.update(conn, s.outbufs[conn].push(b)), ..s }, conn, text.drop_first())
        }
    }
}

/// Clearing and redrawing the scroll on screen.
pub open spec fn redraw(s: IrcView, lines: int, cols: int) -> Seq<IrcActionView> {
    seq![IrcActionView::Clear] + spec_draw_scroll(shown(s), lines, cols) + seq![IrcActionView::Refresh]
}

/// What the client does with bytes received on connection `conn`.
pub open spec fn spec_handle_netin(s: IrcView, conn: int, text: Seq<u8>, lines: int, cols: int) -> (
    IrcView,
    Seq<IrcActionView>,
) {
    let (s1, acts) = netin_run(s, conn, text);
    (s1, acts + redraw(s1, lines, cols))
}

/// One typed byte, after an escape when `alt` holds.
pub open spec fn stdin_step(s: IrcView, alt: bool, b: u8, lines: int, cols: int) -> (
    IrcView,
    bool,
    Seq<IrcActionView>,
) {
    if alt {
        if b == 97 {
            let s1 = IrcView { on_ctl: !s.on_ctl, ..s };
            (s1, alt, seq![key_log(b)] + redraw(s1, lines, cols))
        } else if 48 <= b <= 57 {
            let want = (b - 48) as usize;
            if want >= s.scrolls.len() {
                let s1 = IrcView { current: (s.scrolls.len() - 1) as usize, ..s };
                (s1, alt, seq![key_log(b), IrcActionView::Log("not that many".spec_bytes())] + redraw(s1, lines, cols))
            } else {
                let s1 = IrcView { current: want, ..s };
                (s1, alt, seq![key_log(b)] + redraw(s1, lines, cols))
            }
        } else {
            (s, alt, seq![key_log(b)])
        }
    } else if b == 13 {
        if s.on_ctl {
            let s1 = IrcView { ctl_scroll: seq![s.inbuf] + s.ctl_scroll, inbuf: Seq::empty(), ..s };
            (s1, alt, seq![key_log(b), IrcActionView::Clear] + spec_draw_scroll(s1.ctl_scroll, lines, cols))
        } else {
            let c = s.current as int;
            let sc = seq![s.inbuf] + s.scrolls[c];
            let s1 = IrcView { scrolls: s.scrolls.update(c, sc), inbuf: Seq::empty(), ..s };
            (
                s1,
                alt,
                seq![key_log(b), IrcActionView::Clear] + spec_draw_scroll(sc, lines, cols) + seq![
                    IrcActionView::Write(s.current, latin1_utf8(s.inbuf) + "\r\n".spec_bytes()),
                ],
            )
        }
    } else if b == 0x7f {
        (IrcView { inbuf: if s.inbuf.len() > 0 { s.inbuf.drop_last() } else { s.inbuf }, ..s }, alt, seq![key_log(b)])
    } else if b == 0x1b {
        (s, true, seq![key_log(b)])
    } else {
        (IrcView { inbuf: s.inbuf.push(b), ..s }, alt, seq![key_log(b)])
    }
}

/// Typed bytes `text`, after an escape when `alt` holds.
pub open spec fn stdin_run(s: IrcView, alt: bool, text: Seq<u8>, lines: int, cols: int) -> (IrcView, Seq<IrcActionView>)
    decreases text.len(),
{
    if text.len() == 0 {
        (s, Seq::empty())
    } else {
        let (s1, alt1, acts) = stdin_step(s, alt, text[0], lines, cols);
        let (s2, rest) = stdin_run(s1, alt1, text.drop_first(), lines, cols);
        (s2, acts + rest)
    }
}

/// Showing the line being typed on the bottom row.
pub open spec fn input_row(inbuf: Seq<u8>, lines: int, cols: int) -> Seq<IrcActionView> {
    let n = latin1_utf8(inbuf).len() as int;
    let pad = if n < cols { cols - n } else { 0 };
    seq![IrcActionView::Move((lines - 1) as i32, n as i32)] + Seq::new(pad as nat, |q: int| IrcActionView::Print(" ".spec_bytes()))
        + seq![IrcActionView::MovePrint((lines - 1) as i32, 0, latin1_utf8(inbuf)), IrcActionView::Refresh]
}

/// What the client does with typed bytes.
pub open spec fn spec_handle_stdin(s: IrcView, text: Seq<u8>, lines: int, cols: int) -> (IrcView, Seq<IrcActionView>) {
    let (s1, acts) = stdin_run(s, false, text, lines, cols);
    (s1, acts + input_row(s1.inbuf, lines, cols))
}

/// Escape then `a` shows the control view, and typing it again goes back:
/// the client is as it was.
pub proof fn lemma_control_view_toggles_back(s: IrcView, lines: int, cols: int)
    ensures
        stdin_run(s, false, seq![27u8, 97u8, 27u8, 97u8], lines, cols).0 == s,
        stdin_run(s, false, seq![27u8, 97u8], lines, cols).0 == (IrcView { on_ctl: !s.on_ctl, ..s }),
{
    let t = seq![27u8, 97u8, 27u8, 97u8];
    assert(t.drop_first() =~= seq![97u8, 27u8, 97u8]);
    assert(t.drop_first().drop_first() =~= seq![27u8, 97u8]);
    assert(t.drop_first().drop_first().drop_first() =~= seq![97u8]);
    assert(seq![97u8].drop_first() =~= Seq::<u8>::empty());
    assert(seq![27u8, 97u8].drop_first() =~= seq![97u8]);
    reveal_with_fuel(stdin_run, 5);
    assert(stdin_run(s, false, seq![27u8, 97u8], lines, cols).0 =~= (IrcView { on_ctl: !s.on_ctl, ..s }));
    assert(stdin_run(s, false, t, lines, cols).0 =~= s);
}

/// On a connection's view, a carriage return scrolls the typed line into the
/// connection on screen and writes it to that same connection; the other
/// connections' scrolls stay as they were.
pub proof fn lemma_enter_writes_to_shown_connection(s: IrcView, lines: int, cols: int)
    requires
        irc_wf(s),
        !s.on_ctl,
    ensures
        ({
            let (s1, alt1, acts) = stdin_step(s, false, 13, lines, cols);
            &&& acts.len() > 0
            &&& acts.last() == IrcActionView::Write(s.current, latin1_utf8(s.inbuf) + "\r\n".spec_bytes())
            &&& s1.current == s.current
            &&& s1.scrolls.len() == s.scrolls.len()
            &&& s1.scrolls[s.current as int] == seq![s.inbuf] + s.scrolls[s.current as int]
            &&& forall|k: int| 0 <= k < s.scrolls.len() && k != s.current ==> #[trigger] s1.scrolls[k] == s.scrolls[k]
            &&& s1.inbuf == Seq::<u8>::empty()
        }),
{
}

/// Escape then a digit below the number of connections puts that connection
/// on screen, changing nothing else; a line entered next goes to it.
pub proof fn lemma_escape_digit_selects(s: IrcView, d: u8, lines: int, cols: int)
    requires
        irc_wf(s),
        d <= 9,
        d < s.scrolls.len(),
    ensures
        ({
            let s1 = stdin_run(s, false, seq![27u8, (48 + d) as u8], lines, cols).0;
            &&& s1 == IrcView { current: d as usize, ..s }
            &&& !s.on_ctl ==> shown(s1) == s.scrolls[d as int]
            &&& !s.on_ctl ==> stdin_step(s1, false, 13, lines, cols).2.last() == IrcActionView::Write(
                d as usize,
                latin1_utf8(s.inbuf) + "\r\n".spec_bytes(),
            )
        }),
{
    let t = seq![27u8, (48 + d) as u8];
    assert(t.drop_first() =~= seq![(48 + d) as u8]);
    assert(t.drop_first().drop_first() =~= Seq::<u8>::empty());
    reveal_with_fuel(stdin_run, 3);
    let s1 = stdin_run(s, false, t, lines, cols).0;
    assert(s1 == IrcView { current: d as usize, ..s });
    if !s.on_ctl {
        lemma_enter_writes_to_shown_connection(s1, lines, cols);
    }
}

/// Text is at most twice as long in UTF-8 as in characters.
pub proof fn lemma_latin1_utf8_len_le(s: Seq<u8>)
    ensures
        latin1_utf8(s).len() <= 2 * s.len(),
    decreases s.len(),
{
    if s.len() > 0 {
        lemma_latin1_utf8_len_le(s.drop_first());
    }
}

/// Short lines can be drawn.
pub proof fn lemma_small_scroll_ok(sc: Seq<Seq<u8>>)
    requires
        scroll_small(sc),
    ensures
        scroll_ok(sc),
{
    assert forall|k: int| 0 <= k < sc.len() implies #[trigger] latin1_utf8(sc[k]).len() < i32::MAX by {
        assert(small(sc[k]));
        lemma_latin1_utf8_len_le(sc[k]);
    }
}

/// A short line in front of short lines.
pub proof fn lemma_scroll_small_push_front(line: Seq<u8>, sc: Seq<Seq<u8>>)
    requires
        small(line),
        scroll_small(sc),
    ensures
        scroll_small(seq![line] + sc),
{
    let r = seq![line] + sc;
    assert forall|k: int| 0 <= k < r.len() implies small(#[trigger] r[k]) by {
        if k > 0 {
            assert(r[k] == sc[k - 1]);
        }
    }
}

fn push_front(sc: &mut Vec<Vec<u8>>, line: Vec<u8>)
    ensures
        lines_view(final(sc)@) == seq![line@] + lines_view(old(sc)@),
{
    sc.insert(0, line);
    assert(lines_view(sc@) =~= seq![line@] + lines_view(old(sc)@));
}

pub(crate) fn append_acts(v: &mut Vec<IrcAction>, w: Vec<IrcAction>)
    ensures
        irc_view(final(v)@) == irc_view(old(v)@) + irc_view(w@),
{
    let mut w = w;
    let ghost ws = w@;
    v.append(&mut w);
    assert(irc_view(v@) =~= irc_view(old(v)@) + irc_view(ws));
}

/// The terminal IRC client.
pub struct Client {
    inbuf: Vec<u8>,
    current_conn: usize,
    scrolls: Vec<Vec<Vec<u8>>>,
    outbufs: Vec<Vec<u8>>,
    on_ctl: bool,
    ctl_scroll: Vec<Vec<u8>>,
}

impl View for Client {
    type V = IrcView;

    closed spec fn view(&self) -> IrcView {
        IrcView {
            inbuf: self.inbuf@,
            current: self.current_conn,
            scrolls: self.scrolls@.map_values(|sc: Vec<Vec<u8>>| lines_view(sc@)),
            outbufs: lines_view(self.outbufs@),
            on_ctl: self.on_ctl,
            ctl_scroll: lines_view(self.ctl_scroll@),
        }
    }
}

impl Client {
    /// A client for `n` connections, showing the first, with nothing received or typed.
    pub fn new(n: usize) -> (r: Client)
        requires
            n >= 1,
        ensures
            irc_wf(r@),
            r@.inbuf == Seq::<u8>::empty(),
            r@.current == 0,
            r@.scrolls == Seq::new(n as nat, |c: int| Seq::<Seq<u8>>::empty()),
            r@.outbufs == Seq::new(n as nat, |c: int| Seq::<u8>::empty()),
            !r@.on_ctl,
            r@.ctl_scroll == Seq::<Seq<u8>>::empty(),
    {
        let mut scrolls: Vec<Vec<Vec<u8>>> = Vec::new();
        let mut outbufs: Vec<Vec<u8>> = Vec::new();
        let mut k: usize = 0;
        assert(scrolls@.map_values(|sc: Vec<Vec<u8>>| lines_view(sc@)) =~= Seq::new(0, |c: int| Seq::<Seq<u8>>::empty()));
        assert(lines_view(outbufs@) =~= Seq::new(0, |c: int| Seq::<u8>::empty()));
        while k < n
            invariant
                k <= n,
                scrolls@.map_values(|sc: Vec<Vec<u8>>| lines_view(sc@)) == Seq::new(k as nat, |c: int| Seq::<Seq<u8>>::empty()),
                lines_view(outbufs@) == Seq::new(k as nat, |c: int| Seq::<u8>::empty()),
            decreases n - k,
        {
            let e: Vec<Vec<u8>> = Vec::new();
            let o: Vec<u8> = Vec::new();
            assert(lines_view(e@) =~= Seq::<Seq<u8>>::empty());
            assert(o@ =~= Seq::<u8>::empty());
            let ghost s0 = scrolls@;
            let ghost o0 = outbufs@;
            scrolls.push(e);
            outbufs.push(o);
            assert(scrolls@ == s0.push(e));
            assert(scrolls@.map_values(|sc: Vec<Vec<u8>>| lines_view(sc@)) =~= s0.map_values(|sc: Vec<Vec<u8>>| lines_view(sc@)).push(lines_view(e@)));
            assert(lines_view(outbufs@) =~= lines_view(o0).push(o@));
            k = k + 1;
            assert(scrolls@.map_values(|sc: Vec<Vec<u8>>| lines_view(sc@)) =~= Seq::new(k as nat, |c: int| Seq::<Seq<u8>>::empty()));
            assert(lines_view(outbufs@) =~= Seq::new(k as nat, |c: int| Seq::<u8>::empty()));
        }
        let r = Client { inbuf: Vec::new(), current_conn: 0, scrolls, outbufs, on_ctl: false, ctl_scroll: Vec::new() };
        assert(lines_view(r.ctl_scroll@) =~= Seq::<Seq<u8>>::empty());
        r
    }

    /// The number of connections.
    pub fn connections(&self) -> (r: usize)
        ensures
            r == self@.scrolls.len(),
    {
        self.scrolls.len()
    }

    /// The length of the line being typed.
    pub fn typed_len(&self) -> (r: usize)
        ensures
            r == self@.inbuf.len(),
    {
        self.inbuf.len()
    }

    /// The length of the unfinished line received on connection `conn`.
    pub fn received_len(&self, conn: usize) -> (r: usize)
        requires
            irc_wf(self@),
            conn < self@.scrolls.len(),
        ensures
            r == self@.outbufs[conn as int].len(),
    {
        self.outbufs[conn].len()
    }

    fn redraw_exec(&self, out: &mut Vec<IrcAction>, lines: i32, cols: i32)
        requires
            irc_wf(self@),
            screen_ok(lines, cols),
        ensures
            irc_view(final(out)@) == irc_view(old(out)@) + redraw(self@, lines as int, cols as int),
    {
        push_act(out, IrcAction::Clear);
        let sc = if self.on_ctl { &self.ctl_scroll } else { &self.scrolls[self.current_conn] };
        assert(lines_view(sc@) == shown(self@));
        proof {
            if !self.on_ctl {
                assert(scroll_small(self@.scrolls[self.current_conn as int]));
            }
            lemma_small_scroll_ok(shown(self@));
        }
        let d = draw_scroll(sc, lines, cols);
        append_acts(out, d);
        push_act(out, IrcAction::Refresh);
        assert(irc_view(out@) =~= irc_view(old(out)@) + redraw(self@, lines as int, cols as int));
    }

    /// Handles the first `len` bytes of `buf`, received on connection `conn`,
    /// and redraws the screen.
    pub fn handle_netin(&mut self, buf: &[u8], len: usize, conn: usize, lines: i32, cols: i32) -> (r: Vec<IrcAction>)
        requires
            irc_wf(old(self)@),
            len <= buf@.len(),
            conn < old(self)@.scrolls.len(),
            screen_ok(lines, cols),
            2 * (old(self)@.outbufs[conn as int].len() + len) < i32::MAX,
        ensures
            irc_wf(final(self)@),
            (final(self)@, irc_view(r@)) == spec_handle_netin(old(self)@, conn as int, buf@.subrange(0, len as int), lines as int, cols as int),
    {
        let ghost text = buf@.subrange(0, len as int);
        let ghost start = self@;
        let mut out: Vec<IrcAction> = Vec::new();
        let mut i: usize = 0;
        assert(text.skip(0) =~= text);
        assert(irc_view(out@) + netin_run(self@, conn as int, text).1 =~= netin_run(self@, conn as int, text).1);
        while i < len
            invariant
                irc_wf(self@),
                start == old(self)@,
                len <= buf@.len(),
                text == buf@.subrange(0, len as int),
                i <= len,
                conn < self@.scrolls.len(),
                self.scrolls@.len() == self.outbufs@.len(),
                2 * (self@.outbufs[conn as int].len() + (len - i)) < i32::MAX,
                netin_run(start, conn as int, text) == (
                    netin_run(self@, conn as int, text.skip(i as int)).0,
                    irc_view(out@) + netin_run(self@, conn as int, text.skip(i as int)).1,
                ),
            decreases len - i,
        {
            let ghost tail = text.skip(i as int);
            let ghost s = self@;
            let ghost before = irc_view(out@);
            assert(tail[0] == buf@[i as int]);
            assert(tail.drop_first() =~= text.skip(i + 1));
            let b = buf[i];
            if b == 10 {
            } else if b == 13 {
                let line = copy_bytes(self.outbufs[conn].as_slice());
                push_act(&mut out, IrcAction::Log(latin1_to_utf8(line.as_slice())));
                self.scrolls[conn].insert(0, line);
                self.outbufs[conn].clear();
                proof {
                    let s1 = IrcView {
                        scrolls: s.scrolls.update(conn as int, seq![s.outbufs[conn as int]] + s.scrolls[conn as int]),
                        outbufs: s.outbufs.update(conn as int, Seq::empty()),
                        ..s
                    };
                    assert(lines_view(self.scrolls@[conn as int]@) =~= seq![s.outbufs[conn as int]] + s.scrolls[conn as int]);
                    assert(self@.scrolls =~= s1.scrolls);
                    assert(self@.outbufs =~= s1.outbufs);
                    assert(self@ =~= s1);
                    lemma_scroll_small_push_front(s.outbufs[conn as int], s.scrolls[conn as int]);
                    assert forall|c: int| 0 <= c < self@.scrolls.len() implies scroll_small(#[trigger] self@.scrolls[c]) by {
                        if c != conn {
                            assert(self@.scrolls[c] == s.scrolls[c]);
                        }
                    }
                    assert forall|c: int| 0 <= c < self@.outbufs.len() implies small(#[trigger] self@.outbufs[c]) by {
                        if c != conn {
                            assert(self@.outbufs[c] == s.outbufs[c]);
                        }
                    }
                    assert(before.push(IrcActionView::Log(latin1_utf8(s.outbufs[conn as int]))) + netin_run(self@, conn as int, text.skip(i + 1)).1
                        =~= before + (seq![IrcActionView::Log(latin1_utf8(s.outbufs[conn as int]))] + netin_run(self@, conn as int, text.skip(i + 1)).1));
                }
            } else {
                self.outbufs[conn].push(b);
                proof {
                    let s1 = IrcView { outbufs: s.outbufs.update(conn as int, s.outbufs[conn as int].push(b)), ..s };
                    assert(self@.outbufs =~= s1.outbufs);
                    assert(self@.scrolls =~= s1.scrolls);
                    assert(self@ =~= s1);
                    assert forall|c: int| 0 <= c < self@.outbufs.len() implies small(#[trigger] self@.outbufs[c]) by {
                        if c != conn {
                            assert(self@.outbufs[c] == s.outbufs[c]);
                        }
                    }
                }
            }
            i = i + 1;
        }
        assert(text.skip(len as int).len() == 0);
        assert(irc_view(out@) + Seq::<IrcActionView>::empty() =~= irc_view(out@));
        self.redraw_exec(&mut out, lines, cols);
        out
    }
}

pub(crate) fn key_log_exec(b: u8) -> (r: IrcAction)
    ensures
        r@ == key_log(b),
{
    let mut t = text_bytes("key: ");
    append_bytes(&mut t, decimal_exec(b).as_slice());
    IrcAction::Log(t)
}

pub(crate) fn input_row_exec(out: &mut Vec<IrcAction>, inbuf: &Vec<u8>, lines: i32, cols: i32)
    requires
        small(inbuf@),
        screen_ok(lines, cols),
    ensures
        irc_view(final(out)@) == irc_view(old(out)@) + input_row(inbuf@, lines as int, cols as int),
{
    proof {
        lemma_latin1_utf8_len_le(inbuf@);
    }
    let n = latin1_utf8_len(inbuf.as_slice());
    push_act(out, IrcAction::Move(lines - 1, n as i32));
    let ghost mid = irc_view(out@);
    let c = cols as usize;
    let mut q: usize = n;
    let ghost pad: int = if (n as int) < (cols as int) { cols - n } else { 0 };
    while q < c
        invariant
            c == cols as usize,
            n <= q,
            q <= c || q == n,
            pad == (if (n as int) < (cols as int) { cols - n } else { 0 }),
            irc_view(out@) == mid + Seq::new((q - n) as nat, |k: int| IrcActionView::Print(" ".spec_bytes())),
        decreases c - q,
    {
        push_act(out, IrcAction::Print(text_bytes(" ")));
        q = q + 1;
        assert(irc_view(out@) =~= mid + Seq::new((q - n) as nat, |k: int| IrcActionView::Print(" ".spec_bytes())));
    }
    assert((q - n) as int == pad);
    push_act(out, IrcAction::MovePrint(lines - 1, 0, latin1_to_utf8(inbuf.as_slice())));
    push_act(out, IrcAction::Refresh);
    assert(irc_view(out@) =~= irc_view(old(out)@) + input_row(inbuf@, lines as int, cols as int));
}

impl Client {
    fn alt_byte(&mut self, b: u8, lines: i32, cols: i32) -> (r: Vec<IrcAction>)
        requires
            irc_wf(old(self)@),
            screen_ok(lines, cols),
        ensures
            irc_wf(final(self)@),
            (final(self)@, true, irc_view(r@)) == stdin_step(old(self)@, true, b, lines as int, cols as int),
    {
        let ghost s = self@;
        let mut out: Vec<IrcAction> = Vec::new();
        push_act(&mut out, key_log_exec(b));
        if b == 97 {
            self.on_ctl = !self.on_ctl;
            assert(self@ =~= IrcView { on_ctl: !s.on_ctl, ..s });
            self.redraw_exec(&mut out, lines, cols);
        }
        if 48 <= b && b <= 57 {
            self.current_conn = (b - 48) as usize;
            if self.current_conn >= self.scrolls.len() {
                push_act(&mut out, IrcAction::Log(text_bytes("not that many")));
                self.current_conn = self.scrolls.len() - 1;
            }
            assert(self@ =~= IrcView { current: self.current_conn, ..s });
            self.redraw_exec(&mut out, lines, cols);
        }
        proof {
            let (s1, alt1, acts) = stdin_step(s, true, b, lines as int, cols as int);
            assert(self@ =~= s1);
            assert(irc_view(out@) =~= acts);
        }
        out
    }

    fn enter_byte(&mut self, lines: i32, cols: i32) -> (r: Vec<IrcAction>)
        requires
            irc_wf(old(self)@),
            screen_ok(lines, cols),
        ensures
            irc_wf(final(self)@),
            (final(self)@, false, irc_view(r@)) == stdin_step(old(self)@, false, 13, lines as int, cols as int),
    {
        let ghost s = self@;
        let mut out: Vec<IrcAction> = Vec::new();
        push_act(&mut out, key_log_exec(13));
        let line = copy_bytes(self.inbuf.as_slice());
        if self.on_ctl {
            push_front(&mut self.ctl_scroll, line);
            push_act(&mut out, IrcAction::Clear);
            proof {
                lemma_scroll_small_push_front(s.inbuf, s.ctl_scroll);
                lemma_small_scroll_ok(lines_view(self.ctl_scroll@));
            }
            let d = draw_scroll(&self.ctl_scroll, lines, cols);
            append_acts(&mut out, d);
            self.inbuf.clear();
            proof {
                let (s1, alt1, acts) = stdin_step(s, false, 13, lines as int, cols as int);
                assert(self@.ctl_scroll =~= s1.ctl_scroll);
                assert(self@.inbuf =~= s1.inbuf);
                assert(self@ =~= s1);
                assert(irc_view(out@) =~= acts);
            }
        } else {
            let c = self.current_conn;
            self.scrolls[c].insert(0, line);
            push_act(&mut out, IrcAction::Clear);
            proof {
                assert(lines_view(self.scrolls@[c as int]@) =~= seq![s.inbuf] + s.scrolls[c as int]);
                lemma_scroll_small_push_front(s.inbuf, s.scrolls[c as int]);
                lemma_small_scroll_ok(lines_view(self.scrolls@[c as int]@));
            }
            let d = draw_scroll(&self.scrolls[c], lines, cols);
            append_acts(&mut out, d);
            let mut w = latin1_to_utf8(self.inbuf.as_slice());
            append_bytes(&mut w, text_bytes("\r\n").as_slice());
            push_act(&mut out, IrcAction::Write(c, w));
            self.inbuf.clear();
            proof {
                let (s1, alt1, acts) = stdin_step(s, false, 13, lines as int, cols as int);
                assert(self@.scrolls =~= s1.scrolls);
                assert(self@.inbuf =~= s1.inbuf);
                assert(self@ =~= s1);
                assert(irc_view(out@) =~= acts);
                assert forall|k: int| 0 <= k < self@.scrolls.len() implies scroll_small(#[trigger] self@.scrolls[k]) by {
                    if k != c as int {
                        assert(self@.scrolls[k] == s.scrolls[k]);
                    }
                }
            }
        }
        out
    }

    fn plain_byte(&mut self, b: u8) -> (r: (bool, Vec<IrcAction>))
        requires
            irc_wf(old(self)@),
            2 * (old(self)@.inbuf.len() + 1) < i32::MAX,
            b != 13,
        ensures
            irc_wf(final(self)@),
            (final(self)@, r.0, irc_view(r.1@)) == stdin_step(old(self)@, false, b, 0, 1),
    {
        let ghost s = self@;
        let mut out: Vec<IrcAction> = Vec::new();
        push_act(&mut out, key_log_exec(b));
        let mut alt = false;
        if b == 0x7f {
            self.inbuf.pop();
        } else if b == 0x1b {
            alt = true;
        } else {
            self.inbuf.push(b);
        }
        proof {
            let (s1, alt1, acts) = stdin_step(s, false, b, 0, 1);
            assert(self@.inbuf =~= s1.inbuf);
            assert(self@ =~= s1);
            assert(irc_view(out@) =~= acts);
        }
        (alt, out)
    }

    /// Handles the first `len` bytes of `buf`, typed by the user, and shows
    /// the line being typed.
    pub fn handle_stdin(&mut self, buf: &[u8], len: usize, lines: i32, cols: i32) -> (r: Vec<IrcAction>)
        requires
            irc_wf(old(self)@),
            len <= buf@.len(),
            screen_ok(lines, cols),
            2 * (old(self)@.inbuf.len() + len) < i32::MAX,
        ensures
            irc_wf(final(self)@),
            (final(self)@, irc_view(r@)) == spec_handle_stdin(old(self)@, buf@.subrange(0, len as int), lines as int, cols as int),
    {
        let ghost text = buf@.subrange(0, len as int);
        let ghost start = self@;
        let mut out: Vec<IrcAction> = Vec::new();
        let mut alt = false;
        let mut i: usize = 0;
        assert(text.skip(0) =~= text);
        assert(irc_view(out@) + stdin_run(self@, alt, text, lines as int, cols as int).1 =~= stdin_run(self@, alt, text, lines as int, cols as int).1);
        while i < len
            invariant
                irc_wf(self@),
                start == old(self)@,
                len <= buf@.len(),
                text == buf@.subrange(0, len as int),
                i <= len,
                screen_ok(lines, cols),
                2 * (self@.inbuf.len() + (len - i)) < i32::MAX,
                stdin_run(start, false, text, lines as int, cols as int) == (
                    stdin_run(self@, alt, text.skip(i as int), lines as int, cols as int).0,
                    irc_view(out@) + stdin_run(self@, alt, text.skip(i as int), lines as int, cols as int).1,
                ),
            decreases len - i,
        {
            let ghost tail = text.skip(i as int);
            let ghost s = self@;
            let ghost before = irc_view(out@);
            let ghost alt0 = alt;
            assert(tail[0] == buf@[i as int]);
            assert(tail.drop_first() =~= text.skip(i + 1));
            let b = buf[i];
            let acts = if alt {
                self.alt_byte(b, lines, cols)
            } else if b == 13 {
                self.enter_byte(lines, cols)
            } else {
                let (a, acts) = self.plain_byte(b);
                alt = a;
                acts
            };
            let ghost av = irc_view(acts@);
            append_acts(&mut out, acts);
            proof {
                let (s1, alt1, sacts) = stdin_step(s, alt0, b, lines as int, cols as int);
                assert(self@ == s1 && alt == alt1 && av == sacts);
                assert(before + (av + stdin_run(self@, alt, text.skip(i + 1), lines as int, cols as int).1)
                    =~= irc_view(out@) + stdin_run(self@, alt, text.skip(i + 1), lines as int, cols as int).1);
            }
            i = i + 1;
        }
        assert(text.skip(len as int).len() == 0);
        assert(irc_view(out@) + Seq::<IrcActionView>::empty() =~= irc_view(out@));
        input_row_exec(&mut out, &self.inbuf, lines, cols);
        out
    }
}

impl Client {
    /// What the event loop does with an event on standard input or on a
    /// connection.
    pub fn ready(&self, token: usize, events: Events) -> (r: Vec<LoopStep>)
        ensures
            steps_view(r@) == spec_irc_ready(token, events, self@.scrolls.len() as usize),
    {
        irc_ready(token, events, self.scrolls.len())
    }
}

} // verus!
