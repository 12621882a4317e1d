//! The terminal IRC client with a single connection: lines from the server
//! and lines typed by the user scroll up the screen above a rule and the
//! line being typed.
use vstd::prelude::*;
use vstd::string::StringSliceAdditionalSpecFns;
use crate::bytes::{append_bytes, copy_bytes};
use crate::irc::{
    append_acts, draw_scroll, input_row, input_row_exec, irc_view, key_log, key_log_exec, latin1_to_utf8,
    latin1_utf8, lemma_scroll_small_push_front, lemma_small_scroll_ok, lines_view, push_act, scroll_small,
    small, spec_draw_scroll, text_bytes, IrcAction, IrcActionView, screen_ok,
};

use crate::event::{irc_ready, spec_irc_ready, steps_view, Events, LoopStep, STDIN};
verus! {

/// The client's state as mathematical values.
#[verifier::ext_equal]
pub struct SingleView {
    /// The line being typed.
    pub inbuf: Seq<u8>,
    /// The scroll, newest line first.
    pub scroll: Seq<Seq<u8>>,
    /// The unfinished line received.
    pub outbuf: Seq<u8>,
}

/// Every line is short.
pub open spec fn single_wf(s: SingleView) -> bool {
    &&& small(s.inbuf)
    &&& small(s.outbuf)
    &&& scroll_small(s.scroll)
}

/// Received bytes: line feeds are dropped, a carriage return ends a line,
/// which is logged and scrolled in.
pub open spec fn netin_run(s: SingleView, text: Seq<u8>) -> (SingleView, Seq<IrcActionView>)
    decreases text.len(),
{
    if text.len() == 0 {
        (s, Seq::empty())
    } else {
        let b = text[0];
        if b == 10 {
            netin_run(s, text.drop_first())
        } else if b == 13 {
            let s1 = SingleView { scroll: seq![s.outbuf] + s.scroll, outbuf: Seq::empty(), ..s };
            let (s2, rest) = netin_run(s1, text.drop_first());
            (s2, seq![IrcActionView::Log(latin1_utf8(s.outbuf))] + rest)
        } else {
            netin_run(SingleView { outbuf: s.outbuf.push(b), ..s }, text.drop_first())
        }
    }
}

/// What the client does with received bytes: it also redraws the screen.
pub open spec fn spec_handle_netin(s: SingleView, text: Seq<u8>, lines: int, cols: int) -> (SingleView, Seq<IrcActionView>) {
    let (s1, acts) = netin_run(s, text);
    (
        s1,
        acts + seq![IrcActionView::Clear] + spec_draw_scroll(s1.scroll, lines, cols) + seq![IrcActionView::Refresh],
    )
}

/// One typed byte: a carriage return scrolls the line in and sends it, a
/// delete takes back the last byte, any other byte is typed.
pub open spec fn stdin_step(s: SingleView, b: u8, lines: int, cols: int) -> (SingleView, Seq<IrcActionView>) {
    if b == 13 {
        let sc = seq![s.inbuf] + s.scroll;
        (
            SingleView { scroll: sc, inbuf: Seq::empty(), ..s },
            seq![key_log(b), IrcActionView::Clear] + spec_draw_scroll(sc, lines, cols) + seq![
                IrcActionView::Write(0, latin1_utf8(s.inbuf) + "\r\n".spec_bytes()),
            ],
        )
    } else if b == 0x7f {
        (SingleView { inbuf: if s.inbuf.len() > 0 { s.inbuf.drop_last() } else { s.inbuf }, ..s }, seq![key_log(b)])
    } else {
        (SingleView { inbuf: s.inbuf.push(b), ..s }, seq![key_log(b)])
    }
}

/// Typed bytes, in turn.
pub open spec fn stdin_run(s: SingleView, text: Seq<u8>, lines: int, cols: int) -> (SingleView, Seq<IrcActionView>)
    decreases text.len(),
{
    if text.len() == 0 {
        (s, Seq::empty())
    } else {
        let (s1, acts) = stdin_step(s, text[0], lines, cols);
        let (s2, rest) = stdin_run(s1, text.drop_first(), lines, cols);
        (s2, acts + rest)
    }
}

/// What the client does with typed bytes: it also shows the line being typed.
pub open spec fn spec_handle_stdin(s: SingleView, text: Seq<u8>, lines: int, cols: int) -> (SingleView, Seq<IrcActionView>) {
    let (s1, acts) = stdin_run(s, text, lines, cols);
    (s1, acts + input_row(s1.inbuf, lines, cols))
}

/// The single-connection terminal IRC client.
pub struct Client {
    inbuf: Vec<u8>,
    scroll: Vec<Vec<u8>>,
    outbuf: Vec<u8>,
}

impl View for Client {
    type V = SingleView;

    closed spec fn view(&self) -> SingleView {
        SingleView { inbuf: self.inbuf@, scroll: lines_view(self.scroll@), outbuf: self.outbuf@ }
    }
}

impl Client {
    /// A client with nothing received or typed.
    pub fn new() -> (r: Client)
        ensures
            single_wf(r@),
            r@ == (SingleView { inbuf: Seq::empty(), scroll: Seq::empty(), outbuf: Seq::empty() }),
    {
        let r = Client { inbuf: Vec::new(), scroll: Vec::new(), outbuf: Vec::new() };
        assert(r@ =~= (SingleView { inbuf: Seq::empty(), scroll: Seq::empty(), outbuf: Seq::empty() }));
        r
    }

    /// The length of the line being typed.
    pub fn typed_len(&self) -> (r: usize)
        ensures
            r == self@.inbuf.len(),
    {
        self.inbuf.len()
    }

    /// The length of the unfinished line received from the server.
    pub fn received_len(&self) -> (r: usize)
        ensures
            r == self@.outbuf.len(),
    {
        self.outbuf.len()
    }

    /// Handles the first `len` bytes of `buf`, received from the server, and
    /// redraws the screen.
    pub fn handle_netin(&mut self, buf: &[u8], len: usize, lines: i32, cols: i32) -> (r: Vec<IrcAction>)
        requires
            single_wf(old(self)@),
            len <= buf@.len(),
            screen_ok(lines, cols),
            2 * (old(self)@.outbuf.len() + len) < i32::MAX,
        ensures
            single_wf(final(self)@),
            (final(self)@, irc_view(r@)) == spec_handle_netin(old(self)@, buf@.subrange(0, len as int), lines as int, cols as int),
    {
        let ghost text = buf@.subrange(0, len as int);
        let ghost start = self@;
        let mut out: Vec<IrcAction> = Vec::new();
        let mut i: usize = 0;
        assert(text.skip(0) =~= text);
        assert(irc_view(out@) + netin_run(self@, text).1 =~= netin_run(self@, text).1);
        while i < len
            invariant
                single_wf(self@),
                start == old(self)@,
                len <= buf@.len(),
                text == buf@.subrange(0, len as int),
                i <= len,
                2 * (self@.outbuf.len() + (len - i)) < i32::MAX,
                netin_run(start, text) == (netin_run(self@, text.skip(i as int)).0, irc_view(out@) + netin_run(self@, text.skip(i as int)).1),
            decreases len - i,
        {
            let ghost tail = text.skip(i as int);
            let ghost s = self@;
            let ghost before = irc_view(out@);
            assert(tail[0] == buf@[i as int]);
            assert(tail.drop_first() =~= text.skip(i + 1));
            let b = buf[i];
            if b == 10 {
            } else if b == 13 {
                let line = copy_bytes(self.outbuf.as_slice());
                push_act(&mut out, IrcAction::Log(latin1_to_utf8(line.as_slice())));
                self.scroll.insert(0, line);
                self.outbuf.clear();
                proof {
                    assert(self@.scroll =~= seq![s.outbuf] + s.scroll);
                    assert(self@ =~= SingleView { scroll: seq![s.outbuf] + s.scroll, outbuf: Seq::empty(), ..s });
                    lemma_scroll_small_push_front(s.outbuf, s.scroll);
                    assert(before.push(IrcActionView::Log(latin1_utf8(s.outbuf))) + netin_run(self@, text.skip(i + 1)).1 =~= before
                        + (seq![IrcActionView::Log(latin1_utf8(s.outbuf))] + netin_run(self@, text.skip(i + 1)).1));
                }
            } else {
                self.outbuf.push(b);
                assert(self@ =~= SingleView { outbuf: s.outbuf.push(b), ..s });
            }
            i = i + 1;
        }
        assert(text.skip(len as int).len() == 0);
        assert(irc_view(out@) + Seq::<IrcActionView>::empty() =~= irc_view(out@));
        push_act(&mut out, IrcAction::Clear);
        proof {
            lemma_small_scroll_ok(self@.scroll);
        }
        let d = draw_scroll(&self.scroll, lines, cols);
        append_acts(&mut out, d);
        push_act(&mut out, IrcAction::Refresh);
        proof {
            let (s1, acts) = netin_run(start, text);
            assert(irc_view(out@) =~= acts + seq![IrcActionView::Clear] + spec_draw_scroll(s1.scroll, lines as int, cols as int)
                + seq![IrcActionView::Refresh]);
        }
        out
    }

    fn stdin_byte(&mut self, b: u8, lines: i32, cols: i32) -> (r: Vec<IrcAction>)
        requires
            single_wf(old(self)@),
            screen_ok(lines, cols),
            2 * (old(self)@.inbuf.len() + 1) < i32::MAX,
        ensures
            single_wf(final(self)@),
            (final(self)@, irc_view(r@)) == stdin_step(old(self)@, b, lines as int, cols as int),
    {
        let ghost s = self@;
        let mut out: Vec<IrcAction> = Vec::new();
        push_act(&mut out, key_log_exec(b));
        if b == 13 {
            let line = copy_bytes(self.inbuf.as_slice());
            self.scroll.insert(0, line);
            push_act(&mut out, IrcAction::Clear);
            proof {
                assert(lines_view(self.scroll@) =~= seq![s.inbuf] + s.scroll);
                lemma_scroll_small_push_front(s.inbuf, s.scroll);
                lemma_small_scroll_ok(lines_view(self.scroll@));
            }
            let d = draw_scroll(&self.scroll, lines, cols);
            append_acts(&mut out, d);
            let mut w = latin1_to_utf8(self.inbuf.as_slice());
            append_bytes(&mut w, text_bytes("\r\n").as_slice());
            push_act(&mut out, IrcAction::Write(0, w));
            self.inbuf.clear();
        } else if b == 0x7f {
            self.inbuf.pop();
        } else {
            self.inbuf.push(b);
        }
        proof {
            let (s1, acts) = stdin_step(s, b, lines as int, cols as int);
            assert(self@.inbuf =~= s1.inbuf);
            assert(self@.scroll =~= s1.scroll);
            assert(self@ =~= s1);
            assert(irc_view(out@) =~= acts);
        }
        out
    }

    /// Handles the first `len` bytes of `buf`, typed by the user, and shows
    /// the line being typed.
    pub fn handle_stdin(&mut self, buf: &[u8], len: usize, lines: i32, cols: i32) -> (r: Vec<IrcAction>)
        requires
            single_wf(old(self)@),
            len <= buf@.len(),
            screen_ok(lines, cols),
            2 * (old(self)@.inbuf.len() + len) < i32::MAX,
        ensures
            single_wf(final(self)@),
            (final(self)@, irc_view(r@)) == spec_handle_stdin(old(self)@, buf@.subrange(0, len as int), lines as int, cols as int),
    {
        let ghost text = buf@.subrange(0, len as int);
        let ghost start = self@;
        let mut out: Vec<IrcAction> = Vec::new();
        let mut i: usize = 0;
        assert(text.skip(0) =~= text);
        assert(irc_view(out@) + stdin_run(self@, text, lines as int, cols as int).1 =~= stdin_run(self@, text, lines as int, cols as int).1);
        while i < len
            invariant
                single_wf(self@),
                start == old(self)@,
                len <= buf@.len(),
                text == buf@.subrange(0, len as int),
                i <= len,
                screen_ok(lines, cols),
                2 * (self@.inbuf.len() + (len - i)) < i32::MAX,
                stdin_run(start, text, lines as int, cols as int) == (
                    stdin_run(self@, text.skip(i as int), lines as int, cols as int).0,
                    irc_view(out@) + stdin_run(self@, text.skip(i as int), lines as int, cols as int).1,
                ),
            decreases len - i,
        {
            let ghost tail = text.skip(i as int);
            let ghost s = self@;
            let ghost before = irc_view(out@);
            assert(tail[0] == buf@[i as int]);
            assert(tail.drop_first() =~= text.skip(i + 1));
            let acts = self.stdin_byte(buf[i], lines, cols);
            let ghost av = irc_view(acts@);
            append_acts(&mut out, acts);
            proof {
                assert(before + (av + stdin_run(self@, text.skip(i + 1), lines as int, cols as int).1)
                    =~= irc_view(out@) + stdin_run(self@, text.skip(i + 1), lines as int, cols as int).1);
            }
            i = i + 1;
        }
        assert(text.skip(len as int).len() == 0);
        assert(irc_view(out@) + Seq::<IrcActionView>::empty() =~= irc_view(out@));
        input_row_exec(&mut out, &self.inbuf, lines, cols);
        out
    }
}

impl Client {
    /// What the event loop does with an event on standard input or on the
    /// connection; every other token is the connection.
    pub fn ready(&self, token: usize, events: Events) -> (r: Vec<LoopStep>)
        ensures
            steps_view(r@) == spec_irc_ready(if token == STDIN { STDIN } else { 2 }, events, 1),
    {
        irc_ready(if token == STDIN { STDIN } else { 2 }, events, 1)
    }
}

} // verus!
