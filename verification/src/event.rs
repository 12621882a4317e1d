//! Readiness events from the event loop, and what a client's event loop does
//! about them.
use vstd::prelude::*;
use vstd::string::StringSliceAdditionalSpecFns;
use crate::bytes::copy_bytes;

verus! {

/// The readiness of a socket, as the event loop reports it.
#[derive(Debug, Clone, Copy, PartialEq, Eq)]
pub struct Events {
    pub error: bool,
    pub hup: bool,
    pub writable: bool,
    pub readable: bool,
}

/// The token of standard input in the clients' event loops.
pub const STDIN: usize = 0;

/// What a client's event loop is to do next.
#[derive(Debug, PartialEq, Eq)]
pub enum LoopStep {
    /// Write a line to standard error.
    Log(Vec<u8>),
    /// Write a line to standard output.
    Print(Vec<u8>),
    /// Stop the event loop.
    Shutdown,
    /// Read what was typed and hand it to the client.
    ReadStdin,
    /// Read from the connection at this position and hand it to the client.
    ReadNet(usize),
    /// Write out what is queued for the server.
    Flush,
    /// Stop: the event came for a token that is no connection.
    Fault,
}

/// A step as mathematical values.
pub enum LoopStepView {
    Log(Seq<u8>),
    Print(Seq<u8>),
    Shutdown,
    ReadStdin,
    ReadNet(usize),
    Flush,
    Fault,
}

impl View for LoopStep {
    type V = LoopStepView;

    open spec fn view(&self) -> LoopStepView {
        match self {
            LoopStep::Log(t) => LoopStepView::Log(t@),
            LoopStep::Print(t) => LoopStepView::Print(t@),
            LoopStep::Shutdown => LoopStepView::Shutdown,
            LoopStep::ReadStdin => LoopStepView::ReadStdin,
            LoopStep::ReadNet(c) => LoopStepView::ReadNet(*c),
            LoopStep::Flush => LoopStepView::Flush,
            LoopStep::Fault => LoopStepView::Fault,
        }
    }
}

/// The views of a sequence of steps.
pub open spec fn steps_view(s: Seq<LoopStep>) -> Seq<LoopStepView> {
    s.map_values(|x: LoopStep| x@)
}

/// A line of error output and a stop.
pub open spec fn log_stop(text: &str) -> Seq<LoopStepView> {
    seq![LoopStepView::Log(text.spec_bytes()), LoopStepView::Shutdown]
}

/// What the chat clients do with an event on standard input or on the
/// server's connection; `hup_text` is what they say when the server hangs
/// up, on standard output when `hup_printed` holds.
pub open spec fn spec_chat_ready(token: usize, ev: Events, hup_text: &str, hup_printed: bool) -> Seq<LoopStepView> {
    if token == STDIN {
        if ev.hup {
            log_stop("Event: stdin hup")
        } else if ev.error {
            log_stop("Event: stdin error")
        } else if ev.readable {
            seq![LoopStepView::ReadStdin]
        } else {
            Seq::empty()
        }
    } else if ev.hup {
        seq![
            if hup_printed {
                LoopStepView::Print(hup_text.spec_bytes())
            } else {
                LoopStepView::Log(hup_text.spec_bytes())
            },
            LoopStepView::Shutdown,
        ]
    } else if ev.error {
        log_stop("Event: Unknown server error")
    } else {
        (if ev.readable { seq![LoopStepView::ReadNet(0)] } else { Seq::empty() }) + (if ev.writable {
            seq![LoopStepView::Log("Event: can write".spec_bytes()), LoopStepView::Flush]
        } else {
            Seq::empty()
        })
    }
}

fn text_bytes(text: &str) -> (r: Vec<u8>)
    ensures
        r@ == text.spec_bytes(),
{
    copy_bytes(text.as_bytes())
}

fn log_stop_exec(text: &str) -> (r: Vec<LoopStep>)
    ensures
        steps_view(r@) == log_stop(text),
{
    let r = vec![LoopStep::Log(text_bytes(text)), LoopStep::Shutdown];
    assert(steps_view(r@) =~= log_stop(text));
    r
}

fn single(s: LoopStep) -> (r: Vec<LoopStep>)
    ensures
        steps_view(r@) == seq![s@],
{
    let r = vec![s];
    assert(steps_view(r@) =~= seq![s@]);
    r
}

/// What a chat client does with an event.
pub fn chat_ready(token: usize, ev: Events, hup_text: &str, hup_printed: bool) -> (r: Vec<LoopStep>)
    ensures
        steps_view(r@) == spec_chat_ready(token, ev, hup_text, hup_printed),
{
    if token == STDIN {
        if ev.hup {
            log_stop_exec("Event: stdin hup")
        } else if ev.error {
            log_stop_exec("Event: stdin error")
        } else if ev.readable {
            single(LoopStep::ReadStdin)
        } else {
            let r: Vec<LoopStep> = Vec::new();
            assert(steps_view(r@) =~= Seq::<LoopStepView>::empty());
            r
        }
    } else if ev.hup {
        let first = if hup_printed {
            LoopStep::Print(text_bytes(hup_text))
        } else {
            LoopStep::Log(text_bytes(hup_text))
        };
        let r = vec![first, LoopStep::Shutdown];
        assert(steps_view(r@) =~= spec_chat_ready(token, ev, hup_text, hup_printed));
        r
    } else if ev.error {
        log_stop_exec("Event: Unknown server error")
    } else {
        let mut r: Vec<LoopStep> = Vec::new();
        if ev.readable {
            r.push(LoopStep::ReadNet(0));
        }
        if ev.writable {
            r.push(LoopStep::Log(text_bytes("Event: can write")));
            r.push(LoopStep::Flush);
        }
        assert(steps_view(r@) =~= spec_chat_ready(token, ev, hup_text, hup_printed));
        r
    }
}

/// What the terminal IRC clients do with an event; connection tokens start
/// at 2, one for each of `conns` connections.
pub open spec fn spec_irc_ready(token: usize, ev: Events, conns: usize) -> Seq<LoopStepView> {
    if token == STDIN {
        if ev.hup {
            log_stop("stdin hup")
        } else if ev.error {
            log_stop("stdin error")
        } else if ev.readable {
            seq![LoopStepView::ReadStdin]
        } else {
            Seq::empty()
        }
    } else if ev.hup {
        log_stop("net hup")
    } else if ev.error {
        log_stop("net error")
    } else if ev.readable {
        if 2 <= token && token - 2 < conns {
            seq![LoopStepView::ReadNet((token - 2) as usize)]
        } else {
            seq![LoopStepView::Fault]
        }
    } else {
        Seq::empty()
    }
}

/// What a terminal IRC client does with an event.
pub fn irc_ready(token: usize, ev: Events, conns: usize) -> (r: Vec<LoopStep>)
    ensures
        steps_view(r@) == spec_irc_ready(token, ev, conns),
{
    if token == STDIN {
        if ev.hup {
            log_stop_exec("stdin hup")
        } else if ev.error {
            log_stop_exec("stdin error")
        } else if ev.readable {
            single(LoopStep::ReadStdin)
        } else {
            let r: Vec<LoopStep> = Vec::new();
            assert(steps_view(r@) =~= Seq::<LoopStepView>::empty());
            r
        }
    } else if ev.hup {
        log_stop_exec("net hup")
    } else if ev.error {
        log_stop_exec("net error")
    } else if ev.readable {
        if 2 <= token && token - 2 < conns {
            single(LoopStep::ReadNet(token - 2))
        } else {
            single(LoopStep::Fault)
        }
    } else {
        let r: Vec<LoopStep> = Vec::new();
        assert(steps_view(r@) =~= Seq::<LoopStepView>::empty());
        r
    }
}

} // verus!
