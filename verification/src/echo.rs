//! The broadcast echo server: whatever a connection sends is queued for every
//! connection, and each connection is written its queue, latest message first.
//!
//! Connections live in a fixed table of slots, as in a slab: slot `i` holds
//! the connection with token `FIRST_TOKEN + i`.
use vstd::prelude::*;
use vstd::string::StringSliceAdditionalSpecFns;
use crate::bytes::{append_bytes, copy_bytes};
use crate::event::Events;
use crate::slab::{in_use, slab_wf, spec_give_back, spec_take, SlabView, TokenSlab, CAPACITY, FIRST_TOKEN};

verus! {

/// The token of the listening socket.
pub const LISTENER: usize = 1;

/// What the event loop is to do next.
#[derive(Debug, PartialEq, Eq)]
pub enum EchoStep {
    /// Write a line to standard output.
    Print(Vec<u8>),
    /// Stop the event loop.
    Shutdown,
    /// Accept a new connection on the listening socket.
    Accept,
    /// Read from the connection and hand what came to `received`.
    Read(usize),
    /// Write these bytes to the connection.
    Write(usize, Vec<u8>),
    /// Watch the connection for every kind of event.
    WatchAll(usize),
    /// Watch the connection for reads only.
    WatchReadable(usize),
}

/// A step as mathematical values.
pub enum EchoStepView {
    Print(Seq<u8>),
    Shutdown,
    Accept,
    Read(usize),
    Write(usize, Seq<u8>),
    WatchAll(usize),
    WatchReadable(usize),
}

impl View for EchoStep {
    type V = EchoStepView;

    open spec fn view(&self) -> EchoStepView {
        match self {
            EchoStep::Print(t) => EchoStepView::Print(t@),
            EchoStep::Shutdown => EchoStepView::Shutdown,
            EchoStep::Accept => EchoStepView::Accept,
            EchoStep::Read(t) => EchoStepView::Read(*t),
            EchoStep::Write(t, b) => EchoStepView::Write(*t, b@),
            EchoStep::WatchAll(t) => EchoStepView::WatchAll(*t),
            EchoStep::WatchReadable(t) => EchoStepView::WatchReadable(*t),
        }
    }
}

/// The views of a sequence of steps.
pub open spec fn echo_steps_view(s: Seq<EchoStep>) -> Seq<EchoStepView> {
    s.map_values(|x: EchoStep| x@)
}

/// The decimal digits of a number.
pub open spec fn dec(n: nat) -> Seq<u8>
    decreases n,
{
    if n < 10 {
        seq![(48 + n) as u8]
    } else {
        dec(n / 10).push((48 + n % 10) as u8)
    }
}

/// The decimal digits of a number.
pub fn dec_exec(n: usize) -> (r: Vec<u8>)
    ensures
        r@ == dec(n as nat),
    decreases n,
{
    if n < 10 {
        let d: u8 = (48 + n) as u8;
        vec![d]
    } else {
        let mut r = dec_exec(n / 10);
        let d: u8 = (48 + n % 10) as u8;
        r.push(d);
        r
    }
}

/// The slots: for each, the queue of a connection, oldest message first, or
/// `None` when it is free.
pub type Slots = Seq<Option<Seq<Seq<u8>>>>;

/// The echo server as mathematical values: its slots and the tokens it hands out.
pub struct EchoView {
    pub slots: Slots,
    pub slab: SlabView,
}

/// Whether `token` is an open connection.
pub open spec fn is_conn(s: EchoView, token: usize) -> bool {
    FIRST_TOKEN <= token < FIRST_TOKEN + CAPACITY && s.slots[token - FIRST_TOKEN] is Some
}

/// The queue of connection `token`.
pub open spec fn queue(s: EchoView, token: usize) -> Seq<Seq<u8>> {
    s.slots[token - FIRST_TOKEN]->0
}

/// The server with connection `token` closed and its token given back.
pub open spec fn closed(s: EchoView, token: usize) -> EchoView {
    EchoView { slots: s.slots.update(token - FIRST_TOKEN, None), slab: spec_give_back(s.slab, token) }
}

/// A new connection: it gets the token that the slab hands out, with an empty
/// queue; `None` when every token is in use.
pub open spec fn spec_accept(s: EchoView) -> (EchoView, Option<usize>) {
    let (slab, r) = spec_take(s.slab);
    match r {
        Some(t) => (EchoView { slots: s.slots.update(t - FIRST_TOKEN, Some(Seq::empty())), slab: slab }, r),
        None => (s, None),
    }
}

/// How the server reports a failed or closed connection.
pub open spec fn conn_line(token: usize, what: &str) -> Seq<u8> {
    "connection on Token(".spec_bytes() + dec(token as nat) + ") got ".spec_bytes() + what.spec_bytes()
}

/// A line of output made of fixed text.
pub open spec fn say(text: &str) -> EchoStepView {
    EchoStepView::Print(text.spec_bytes())
}

/// What the server does when socket `token` is ready.
pub open spec fn spec_echo_ready(s: EchoView, token: usize, ev: Events) -> (EchoView, Seq<EchoStepView>) {
    if ev.error || ev.hup {
        let what = if ev.error { "error" } else { "hup" };
        if token == LISTENER {
            (s, seq![EchoStepView::Print("server got ".spec_bytes() + what.spec_bytes()), EchoStepView::Shutdown])
        } else {
            (closed(s, token), seq![EchoStepView::Print(conn_line(token, what))])
        }
    } else {
        let (s1, w) = if ev.writable {
            let q = queue(s, token);
            let q1 = if q.len() > 0 { q.drop_last() } else { q };
            let write = if q.len() > 0 { seq![EchoStepView::Write(token, q.last())] } else { Seq::empty() };
            let watch = if q1.len() == 0 { seq![EchoStepView::WatchReadable(token)] } else { Seq::empty() };
            (EchoView { slots: s.slots.update(token - FIRST_TOKEN, Some(q1)), ..s }, seq![say("testo")] + write + watch)
        } else {
            (s, Seq::empty())
        };
        let r = if ev.readable {
            seq![say("we got a read!"), if token == LISTENER { EchoStepView::Accept } else { EchoStepView::Read(token) }]
        } else {
            Seq::empty()
        };
        (s1, w + r)
    }
}

/// The tokens of the open connections among the first `n` slots, in order.
pub open spec fn open_tokens(s: Slots, n: int) -> Seq<usize>
    decreases n,
{
    if n <= 0 {
        Seq::empty()
    } else {
        open_tokens(s, n - 1) + if s[n - 1] is Some { seq![(n - 1 + FIRST_TOKEN) as usize] } else { Seq::empty() }
    }
}

/// The slots with `data` queued on every connection.
pub open spec fn queued_everywhere(s: Slots, data: Seq<u8>) -> Slots {
    s.map_values(|o: Option<Seq<Seq<u8>>>| match o {
        Some(q) => Some(q.push(data)),
        None => None,
    })
}

/// Bytes that came on a connection: queued for every connection, each of
/// which is then watched for writes, in slot order.
pub open spec fn spec_received(s: EchoView, data: Seq<u8>) -> (EchoView, Seq<EchoStepView>) {
    (
        EchoView { slots: queued_everywhere(s.slots, data), ..s },
        open_tokens(s.slots, s.slots.len() as int).map_values(|t: usize| EchoStepView::WatchAll(t)),
    )
}

/// The echo server's connection table.
pub struct EchoServer {
    slots: Vec<Option<Vec<Vec<u8>>>>,
    slab: TokenSlab,
}

/// The view of a queue.
pub open spec fn queue_view(q: Seq<Vec<u8>>) -> Seq<Seq<u8>> {
    q.map_values(|m: Vec<u8>| m@)
}

/// The view of a slot.
pub open spec fn slot_view(o: Option<Vec<Vec<u8>>>) -> Option<Seq<Seq<u8>>> {
    match o {
        Some(q) => Some(queue_view(q@)),
        None => None,
    }
}

/// The view of the slots.
pub open spec fn slots_view(v: Seq<Option<Vec<Vec<u8>>>>) -> Slots {
    v.map_values(|o: Option<Vec<Vec<u8>>>| slot_view(o))
}

/// The slots are as many as the tokens, and a slot is taken exactly when
/// its token is handed out.
pub open spec fn echo_wf(s: EchoView) -> bool {
    &&& s.slots.len() == CAPACITY
    &&& slab_wf(s.slab)
    &&& forall|t: usize|
        FIRST_TOKEN <= t < FIRST_TOKEN + CAPACITY ==> (#[trigger] s.slots[t - FIRST_TOKEN] is Some <==> in_use(s.slab, t))
}

impl View for EchoServer {
    type V = EchoView;

    closed spec fn view(&self) -> EchoView {
        EchoView { slots: slots_view(self.slots@), slab: self.slab@ }
    }
}

impl EchoServer {
    /// A server with every slot free.
    pub fn new() -> (r: EchoServer)
        ensures
            echo_wf(r@),
            r@.slots == Seq::new(CAPACITY as nat, |i: int| None::<Seq<Seq<u8>>>),
            r@.slab == crate::slab::empty_slab(),
    {
        let mut slots: Vec<Option<Vec<Vec<u8>>>> = Vec::new();
        let mut i: usize = 0;
        while i < CAPACITY
            invariant
                i <= CAPACITY,
                slots@.len() == i,
                forall|j: int| 0 <= j < i ==> slots@[j] is None,
            decreases CAPACITY - i,
        {
            slots.push(None);
            i = i + 1;
        }
        let r = EchoServer { slots, slab: TokenSlab::new() };
        assert(r@.slots =~= Seq::new(CAPACITY as nat, |i: int| None::<Seq<Seq<u8>>>));
        r
    }

    /// Whether `token` is an open connection.
    pub fn is_conn(&self, token: usize) -> (r: bool)
        requires
            echo_wf(self@),
        ensures
            r == is_conn(self@, token),
    {
        if token < FIRST_TOKEN || token - FIRST_TOKEN >= CAPACITY {
            return false;
        }
        self.slots[token - FIRST_TOKEN].is_some()
    }

    /// A new connection was accepted: it gets the token that the slab hands
    /// out, with an empty queue; `None` when every token is in use.
    pub fn accept(&mut self) -> (r: Option<usize>)
        requires
            echo_wf(old(self)@),
        ensures
            echo_wf(final(self)@),
            (final(self)@, r) == spec_accept(old(self)@),
            r matches Some(t) ==> FIRST_TOKEN <= t < FIRST_TOKEN + CAPACITY && !is_conn(old(self)@, t),
            r is None ==> forall|u: usize|
                FIRST_TOKEN <= u < FIRST_TOKEN + CAPACITY ==> #[trigger] is_conn(old(self)@, u),
    {
        let ghost s = self@;
        proof {
            crate::slab::lemma_take(s.slab);
        }
        match self.slab.take() {
            Some(t) => {
                let q: Vec<Vec<u8>> = Vec::new();
                assert(queue_view(q@) =~= Seq::<Seq<u8>>::empty());
                self.slots.set(t - FIRST_TOKEN, Some(q));
                proof {
                    assert(self@.slots =~= s.slots.update(t - FIRST_TOKEN, Some(Seq::<Seq<u8>>::empty())));
                    assert forall|u: usize| FIRST_TOKEN <= u < FIRST_TOKEN + CAPACITY implies (#[trigger] self@.slots[u
                        - FIRST_TOKEN] is Some <==> in_use(self@.slab, u)) by {
                        if u != t {
                            assert(s.slots[u - FIRST_TOKEN] is Some <==> in_use(s.slab, u));
                        }
                    }
                }
                Some(t)
            },
            None => None,
        }
    }

    fn close(&mut self, token: usize)
        requires
            echo_wf(old(self)@),
            is_conn(old(self)@, token),
        ensures
            echo_wf(final(self)@),
            final(self)@ == closed(old(self)@, token),
    {
        let ghost s = self@;
        assert(s.slots[token - FIRST_TOKEN] is Some <==> in_use(s.slab, token));
        proof {
            crate::slab::lemma_give_back(s.slab, token);
        }
        self.slots.set(token - FIRST_TOKEN, None);
        self.slab.give_back(token);
        proof {
            assert(self@.slots =~= s.slots.update(token - FIRST_TOKEN, None));
            assert forall|u: usize| FIRST_TOKEN <= u < FIRST_TOKEN + CAPACITY implies (#[trigger] self@.slots[u
                - FIRST_TOKEN] is Some <==> in_use(self@.slab, u)) by {
                if u != token {
                    assert(s.slots[u - FIRST_TOKEN] is Some <==> in_use(s.slab, u));
                }
            }
        }
    }

    /// Decides what to do when socket `token` is ready; a connection that
    /// failed or hung up is closed, and one that can be written gets its
    /// latest queued message.
    pub fn ready(&mut self, token: usize, events: Events) -> (r: Vec<EchoStep>)
        requires
            echo_wf(old(self)@),
            token == LISTENER || is_conn(old(self)@, token),
            events.writable && !events.error && !events.hup ==> token != LISTENER,
        ensures
            echo_wf(final(self)@),
            (final(self)@, echo_steps_view(r@)) == spec_echo_ready(old(self)@, token, events),
    {
        let ghost s = self@;
        if events.error || events.hup {
            let what = if events.error { "error" } else { "hup" };
            if token == LISTENER {
                let mut line = copy_bytes("server got ".as_bytes());
                append_bytes(&mut line, what.as_bytes());
                let r = vec![EchoStep::Print(line), EchoStep::Shutdown];
                assert(echo_steps_view(r@) =~= spec_echo_ready(s, token, events).1);
                return r;
            }
            self.close(token);
            let mut line = copy_bytes("connection on Token(".as_bytes());
            append_bytes(&mut line, dec_exec(token).as_slice());
            append_bytes(&mut line, ") got ".as_bytes());
            append_bytes(&mut line, what.as_bytes());
            let r = vec![EchoStep::Print(line)];
            assert(echo_steps_view(r@) =~= spec_echo_ready(s, token, events).1);
            return r;
        }
        let mut r: Vec<EchoStep> = Vec::new();
        if events.writable {
            r.push(EchoStep::Print(copy_bytes("testo".as_bytes())));
            let idx = token - FIRST_TOKEN;
            let ghost before = self.slots@;
            let mut q = match self.slots.remove(idx) {
                Some(q) => q,
                None => Vec::new(),
            };
            let ghost q0 = s.slots[idx as int]->0;
            assert(queue_view(q@) == q0);
            match q.pop() {
                Some(m) => {
                    r.push(EchoStep::Write(token, m));
                },
                None => {},
            }
            assert(queue_view(q@) =~= (if q0.len() > 0 { q0.drop_last() } else { q0 }));
            if q.len() == 0 {
                r.push(EchoStep::WatchReadable(token));
            }
            let ghost gq = q;
            self.slots.insert(idx, Some(q));
            proof {
                assert(self.slots@ =~= before.update(idx as int, Some(gq)));
                assert(self@.slots =~= s.slots.update(idx as int, Some(queue_view(gq@))));
                assert forall|u: usize| FIRST_TOKEN <= u < FIRST_TOKEN + CAPACITY implies (#[trigger] self@.slots[u
                    - FIRST_TOKEN] is Some <==> in_use(self@.slab, u)) by {
                    assert(s.slots[u - FIRST_TOKEN] is Some <==> in_use(s.slab, u));
                }
            }
        }
        let ghost s1 = self@;
        let ghost w = echo_steps_view(r@);
        if events.readable {
            r.push(EchoStep::Print(copy_bytes("we got a read!".as_bytes())));
            if token == LISTENER {
                r.push(EchoStep::Accept);
            } else {
                r.push(EchoStep::Read(token));
            }
        }
        proof {
            let (es1, ew) = if events.writable {
                let q = queue(s, token);
                let q1 = if q.len() > 0 { q.drop_last() } else { q };
                let write = if q.len() > 0 { seq![EchoStepView::Write(token, q.last())] } else { Seq::empty() };
                let watch = if q1.len() == 0 { seq![EchoStepView::WatchReadable(token)] } else { Seq::empty() };
                (EchoView { slots: s.slots.update(token - FIRST_TOKEN, Some(q1)), ..s }, seq![say("testo")] + write + watch)
            } else {
                (s, Seq::empty())
            };
            assert(s1.slots =~= es1.slots);
            assert(w =~= ew);
            let er = if events.readable {
                seq![say("we got a read!"), if token == LISTENER { EchoStepView::Accept } else { EchoStepView::Read(token) }]
            } else {
                Seq::empty()
            };
            assert(echo_steps_view(r@) =~= ew + er);
        }
        r
    }

    /// Bytes came on a connection: they are queued for every connection.
    pub fn received(&mut self, data: &[u8]) -> (r: Vec<EchoStep>)
        requires
            echo_wf(old(self)@),
        ensures
            echo_wf(final(self)@),
            (final(self)@, echo_steps_view(r@)) == spec_received(old(self)@, data@),
    {
        let ghost s = self@;
        let mut r: Vec<EchoStep> = Vec::new();
        let mut i: usize = 0;
        while i < CAPACITY
            invariant
                self@.slots.len() == CAPACITY,
                self@.slab == s.slab,
                s.slots.len() == CAPACITY,
                i <= CAPACITY,
                forall|j: int| 0 <= j < i ==> #[trigger] self@.slots[j] == (match s.slots[j] {
                    Some(q) => Some(q.push(data@)),
                    None => None::<Seq<Seq<u8>>>,
                }),
                forall|j: int| i <= j < CAPACITY ==> #[trigger] self@.slots[j] == s.slots[j],
                echo_steps_view(r@) == open_tokens(s.slots, i as int).map_values(|t: usize| EchoStepView::WatchAll(t)),
            decreases CAPACITY - i,
        {
            let ghost before = echo_steps_view(r@);
            let ghost old_slots = self.slots@;
            let ghost old_view = self@.slots;
            assert(self@.slots[i as int] == s.slots[i as int]);
            assert forall|j: int| 0 <= j < CAPACITY implies #[trigger] old_view[j] == slot_view(old_slots[j]) by {}
            let taken = self.slots.remove(i);
            match taken {
                Some(q) => {
                    let mut q = q;
                    let ghost q0 = q@;
                    q.push(copy_bytes(data));
                    assert(queue_view(q@) =~= queue_view(q0).push(data@));
                    let ghost gq = q;
                    self.slots.insert(i, Some(q));
                    assert(self.slots@ =~= old_slots.update(i as int, Some(gq)));
                    r.push(EchoStep::WatchAll(i + FIRST_TOKEN));
                    assert(echo_steps_view(r@) =~= before.push(EchoStepView::WatchAll((i + FIRST_TOKEN) as usize)));
                },
                None => {
                    self.slots.insert(i, None);
                    assert(self.slots@ =~= old_slots);
                },
            }
            proof {
                assert forall|j: int| 0 <= j < CAPACITY && j != i implies #[trigger] self@.slots[j] == old_view[j] by {
                    assert(self@.slots[j] == slot_view(self.slots@[j]));
                    assert(old_view[j] == slot_view(old_slots[j]));
                }
                assert(self@.slots[i as int] == slot_view(self.slots@[i as int]));
                assert(open_tokens(s.slots, i + 1) == open_tokens(s.slots, i as int) + if s.slots[i as int] is Some {
                    seq![(i + FIRST_TOKEN) as usize]
                } else {
                    Seq::empty()
                });
                assert(echo_steps_view(r@) =~= open_tokens(s.slots, i + 1).map_values(|t: usize| EchoStepView::WatchAll(t)));
            }
            i = i + 1;
        }
        proof {
            assert(self@.slots =~= queued_everywhere(s.slots, data@));
            assert forall|u: usize| FIRST_TOKEN <= u < FIRST_TOKEN + CAPACITY implies (#[trigger] self@.slots[u
                - FIRST_TOKEN] is Some <==> in_use(self@.slab, u)) by {
                assert(s.slots[u - FIRST_TOKEN] is Some <==> in_use(s.slab, u));
            }
        }
        r
    }

    /// Reading from connection `token` failed: it is closed.
    pub fn read_failed(&mut self, token: usize) -> (r: Vec<EchoStep>)
        requires
            echo_wf(old(self)@),
            is_conn(old(self)@, token),
        ensures
            echo_wf(final(self)@),
            final(self)@ == closed(old(self)@, token),
            echo_steps_view(r@) == seq![say("error while reading")],
    {
        self.close(token);
        let r = vec![EchoStep::Print(copy_bytes("error while reading".as_bytes()))];
        assert(echo_steps_view(r@) =~= seq![say("error while reading")]);
        r
    }
}

/// What one connection sends reaches every connection: the next write on any
/// connection gives exactly those bytes, and leaves its queue as it was.
pub proof fn lemma_broadcast_then_write(s: EchoView, data: Seq<u8>, token: usize)
    requires
        echo_wf(s),
        is_conn(s, token),
    ensures
        ({
            let s1 = spec_received(s, data).0;
            let ev = Events { error: false, hup: false, writable: true, readable: false };
            let (s2, steps) = spec_echo_ready(s1, token, ev);
            &&& steps[1] == EchoStepView::Write(token, data)
            &&& queue(s2, token) == queue(s, token)
        }),
{
    let s1 = spec_received(s, data).0;
    let q = queue(s, token);
    assert(queue(s1, token) == q.push(data));
    assert(q.push(data).drop_last() =~= q);
}

/// A connection that closes gives its token back, and the next connection
/// accepted gets that token, with an empty queue.
pub proof fn lemma_closed_token_is_reused(s: EchoView, token: usize)
    requires
        echo_wf(s),
        is_conn(s, token),
    ensures
        ({
            let (s2, r) = spec_accept(closed(s, token));
            &&& r == Some(token)
            &&& is_conn(s2, token)
            &&& queue(s2, token) == Seq::<Seq<u8>>::empty()
        }),
{
}

} // verus!
