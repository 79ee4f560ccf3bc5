use vstd::prelude::*;

use crate::socks5::{
    domain_is_utf8, forwarded_view, frame_fits, frame_view, lemma_frame_round_trip, request_fits,
    request_view, wire_bytes, Socks5, Socks5View,
};

verus! {

/// Where a connection stands.
#[derive(Clone, Copy, PartialEq, Eq, Debug, Structural)]
pub enum Phase {
    /// The front end waits for the client's greeting.
    Greeting,
    /// Waiting for the connect request (front end) or the frame (relay server).
    Request,
    /// Bytes are passed between the two sides.
    Relay,
    /// The connection is over.
    Closed,
}

/// The two ends of a connection: the one that connected to us, and the one
/// that we connected to.
#[derive(Clone, Copy, PartialEq, Eq, Debug, Structural)]
pub enum Side {
    Client,
    Upstream,
}

/// Which server a connection belongs to.
#[derive(Clone, Copy, PartialEq, Eq, Debug, Structural)]
pub enum Role {
    /// The local SOCKS5 front end: its client is the browser, its upstream
    /// the relay server.
    Proxy,
    /// The relay server: its client is the front end, its upstream the
    /// destination.
    Remote,
}

/// One connection's state. `stop_on_eof` tells whether a read of no bytes
/// ends the relay (the async servers) or is passed on like any other read
/// (the threaded servers).
#[derive(Clone, Copy, PartialEq, Eq, Debug, Structural)]
pub struct Session {
    pub role: Role,
    pub phase: Phase,
    pub stop_on_eof: bool,
}

/// What a read on one side gave.
pub enum ReadOutcome {
    Data(Vec<u8>),
    WouldBlock,
    Failed,
}

/// A read, as plain values.
pub enum Input {
    Data(Seq<u8>),
    WouldBlock,
    Failed,
}

impl View for ReadOutcome {
    type V = Input;

    open spec fn view(&self) -> Input {
        match self {
            ReadOutcome::Data(d) => Input::Data(d@),
            ReadOutcome::WouldBlock => Input::WouldBlock,
            ReadOutcome::Failed => Input::Failed,
        }
    }
}

/// What the server is to do next.
pub enum Action {
    /// Write these bytes back to the client.
    Reply(Vec<u8>),
    /// Connect to the relay server, write `to_upstream` to it, then write
    /// `to_client` to the client.
    Connect { request: Socks5, to_upstream: Vec<u8>, to_client: Vec<u8> },
    /// Connect to `target`, a `host:port` text.
    Dial { request: Socks5, target: String },
    /// Write these bytes to the given side.
    Forward { to: Side, bytes: Vec<u8> },
    /// Nothing to do; read again.
    Wait,
    /// End the connection.
    Close,
}

/// An action, as plain values.
pub enum Effect {
    Reply(Seq<u8>),
    Connect { request: Socks5View, to_upstream: Seq<u8>, to_client: Seq<u8> },
    Dial { request: Socks5View, target: Seq<char> },
    Forward { to: Side, bytes: Seq<u8> },
    Wait,
    Close,
}

impl View for Action {
    type V = Effect;

    open spec fn view(&self) -> Effect {
        match self {
            Action::Reply(b) => Effect::Reply(b@),
            Action::Connect { request, to_upstream, to_client } => Effect::Connect {
                request: request@,
                to_upstream: to_upstream@,
                to_client: to_client@,
            },
            Action::Dial { request, target } => Effect::Dial { request: request@, target: target@ },
            Action::Forward { to, bytes } => Effect::Forward { to: *to, bytes: bytes@ },
            Action::Wait => Effect::Wait,
            Action::Close => Effect::Close,
        }
    }
}

/// The answer to the client's greeting: version 5, no authentication.
pub open spec fn greeting_reply() -> Seq<u8> {
    seq![5u8, 0u8]
}

/// The answer to the client's connect request: version 5, succeeded, an
/// IPv4 address 0.0.0.0 and port 2222.
pub open spec fn connect_reply() -> Seq<u8> {
    seq![5u8, 0u8, 0u8, 1u8, 0u8, 0u8, 0u8, 0u8, 8u8, 174u8]
}

/// The decimal digit of a number below ten.
pub open spec fn digit_char(n: nat) -> char {
    (('0' as u32) + n) as char
}

/// The decimal digits of a number, with no leading zero.
pub open spec fn decimal(n: nat) -> Seq<char>
    decreases n,
{
    if n < 10 {
        seq![digit_char(n)]
    } else {
        decimal(n / 10).push(digit_char(n % 10))
    }
}

/// The `host:port` text that the relay server connects to.
pub open spec fn host_port(host: Seq<char>, port: u32) -> Seq<char> {
    host + seq![':'] + decimal(port as nat)
}

/// Calls `format!("{}:{}", host, port)`. Trusted: std displays a `str` as
/// itself and a `u32` as its decimal digits.
#[verifier::external_body]
fn join_host_port(host: &str, port: u32) -> (target: String)
    ensures
        target@ == host_port(host@, port),
{
    format!("{}:{}", host, port)
}

/// The side that bytes read on `side` go to.
pub open spec fn other(side: Side) -> Side {
    match side {
        Side::Client => Side::Upstream,
        Side::Upstream => Side::Client,
    }
}

/// The same session, now at `phase`.
pub open spec fn at_phase(s: Session, phase: Phase) -> Session {
    Session { role: s.role, phase: phase, stop_on_eof: s.stop_on_eof }
}

/// Whether a read ends the relay: a failed read, or one of no bytes where
/// the session stops on end of stream.
pub open spec fn ends_stream(s: Session, input: Input) -> bool {
    match input {
        Input::Data(d) => s.stop_on_eof && d.len() == 0,
        Input::WouldBlock => false,
        Input::Failed => true,
    }
}

/// The step of a session that relays bytes.
pub open spec fn relay_transition(s: Session, side: Side, input: Input) -> (Session, Effect) {
    if ends_stream(s, input) {
        (at_phase(s, Phase::Closed), Effect::Close)
    } else {
        match input {
            Input::Data(d) => (s, Effect::Forward { to: other(side), bytes: d }),
            _ => (s, Effect::Wait),
        }
    }
}

/// The step of a session that reads the client's greeting or request.
pub open spec fn handshake_transition(s: Session, side: Side, input: Input) -> (Session, Effect) {
    if side == Side::Upstream {
        (s, Effect::Wait)
    } else {
        match input {
            Input::Failed => (at_phase(s, Phase::Closed), Effect::Close),
            Input::WouldBlock => (s, Effect::Wait),
            Input::Data(d) => if s.phase == Phase::Greeting {
                (at_phase(s, Phase::Request), Effect::Reply(greeting_reply()))
            } else if s.role == Role::Proxy {
                if d.len() < 4 {
                    (at_phase(s, Phase::Closed), Effect::Close)
                } else {
                    let v = request_view(d);
                    (
                        at_phase(s, Phase::Relay),
                        Effect::Connect {
                            request: v,
                            to_upstream: wire_bytes(v),
                            to_client: connect_reply(),
                        },
                    )
                }
            } else {
                let v = frame_view(d);
                (
                    at_phase(s, Phase::Relay),
                    Effect::Dial { request: v, target: host_port(v.addr, v.port) },
                )
            },
        }
    }
}

/// A session's step on a read from `side`: its next state and what to do.
pub open spec fn transition(s: Session, side: Side, input: Input) -> (Session, Effect) {
    match s.phase {
        Phase::Closed => (s, Effect::Wait),
        Phase::Relay => relay_transition(s, side, input),
        _ => handshake_transition(s, side, input),
    }
}

/// The reads that `step` can take: a request that the front end reads (one
/// of four bytes or more) must fit `request_fits`, a frame that the relay
/// server reads must fit `frame_fits`.
pub open spec fn input_readable(s: Session, side: Side, input: Input) -> bool {
    match input {
        Input::Data(d) => (s.phase == Phase::Request && side == Side::Client) ==> match s.role {
            Role::Proxy => d.len() >= 4 ==> request_fits(d),
            Role::Remote => frame_fits(d),
        },
        _ => true,
    }
}

impl Session {
    /// A new connection of the front end, waiting for the greeting.
    pub fn proxy(stop_on_eof: bool) -> (s: Session)
        ensures
            s == (Session { role: Role::Proxy, phase: Phase::Greeting, stop_on_eof }),
    {
        Session { role: Role::Proxy, phase: Phase::Greeting, stop_on_eof }
    }

    /// A new connection of the relay server, waiting for the frame.
    pub fn remote(stop_on_eof: bool) -> (s: Session)
        ensures
            s == (Session { role: Role::Remote, phase: Phase::Request, stop_on_eof }),
    {
        Session { role: Role::Remote, phase: Phase::Request, stop_on_eof }
    }

    /// Whether `step` can take this read.
    pub fn accepts(&self, side: Side, outcome: &ReadOutcome) -> (ok: bool)
        ensures
            ok == input_readable(*self, side, outcome@),
    {
        match outcome {
            ReadOutcome::Data(d) => {
                if self.phase == Phase::Request && side == Side::Client {
                    match self.role {
                        Role::Proxy => d.len() < 4 || Socks5::request_fits(d.as_slice()),
                        Role::Remote => Socks5::frame_fits(d.as_slice()),
                    }
                } else {
                    true
                }
            },
            _ => true,
        }
    }

    /// Takes a read from `side` and says what to do.
    pub fn step(&mut self, side: Side, outcome: ReadOutcome) -> (action: Action)
        requires
            input_readable(*old(self), side, outcome@),
        ensures
            (*final(self), action@) == transition(*old(self), side, outcome@),
    {
        let s = *self;
        match s.phase {
            Phase::Closed => Action::Wait,
            Phase::Relay => match outcome {
                ReadOutcome::Data(d) => {
                    if s.stop_on_eof && d.len() == 0 {
                        self.phase = Phase::Closed;
                        Action::Close
                    } else {
                        let to = match side {
                            Side::Client => Side::Upstream,
                            Side::Upstream => Side::Client,
                        };
                        Action::Forward { to, bytes: d }
                    }
                },
                ReadOutcome::WouldBlock => Action::Wait,
                ReadOutcome::Failed => {
                    self.phase = Phase::Closed;
                    Action::Close
                },
            },
            _ => {
                if side == Side::Upstream {
                    return Action::Wait;
                }
                match outcome {
                    ReadOutcome::Failed => {
                        self.phase = Phase::Closed;
                        Action::Close
                    },
                    ReadOutcome::WouldBlock => Action::Wait,
                    ReadOutcome::Data(d) => {
                        if s.phase == Phase::Greeting {
                            self.phase = Phase::Request;
                            Action::Reply(vec![5u8, 0u8])
                        } else if s.role == Role::Proxy {
                            if d.len() < 4 {
                                self.phase = Phase::Closed;
                                Action::Close
                            } else {
                                let request = Socks5::new(d.as_slice());
                                let to_upstream = request.encrypt();
                                self.phase = Phase::Relay;
                                let to_client = vec![5u8, 0u8, 0u8, 1u8, 0u8, 0u8, 0u8, 0u8, 8u8, 174u8];
                                Action::Connect { request, to_upstream, to_client }
                            }
                        } else {
                            let request = Socks5::decrypt(d.as_slice());
                            let host = request.get_addr();
                            let target = join_host_port(host.as_str(), request.get_port());
                            self.phase = Phase::Relay;
                            Action::Dial { request, target }
                        }
                    },
                }
            },
        }
    }
}

/// The state and the effects after a session has taken `reads` in order.
pub open spec fn run(s: Session, reads: Seq<(Side, Input)>) -> (Session, Seq<Effect>)
    decreases reads.len(),
{
    if reads.len() == 0 {
        (s, Seq::empty())
    } else {
        let (before, effects) = run(s, reads.drop_last());
        let (after, effect) = transition(before, reads.last().0, reads.last().1);
        (after, effects.push(effect))
    }
}

/// The bytes that `effects` write to side `to`, in order.
pub open spec fn sent_to(effects: Seq<Effect>, to: Side) -> Seq<u8>
    decreases effects.len(),
{
    if effects.len() == 0 {
        Seq::empty()
    } else {
        sent_to(effects.drop_last(), to) + match effects.last() {
            Effect::Forward { to: t, bytes } => if t == to {
                bytes
            } else {
                Seq::empty()
            },
            _ => Seq::empty(),
        }
    }
}

/// The bytes that `reads` gave on side `from`, in order.
pub open spec fn read_from(reads: Seq<(Side, Input)>, from: Side) -> Seq<u8>
    decreases reads.len(),
{
    if reads.len() == 0 {
        Seq::empty()
    } else {
        read_from(reads.drop_last(), from) + match reads.last().1 {
            Input::Data(d) => if reads.last().0 == from {
                d
            } else {
                Seq::empty()
            },
            _ => Seq::empty(),
        }
    }
}

/// The relay passes bytes on unchanged and in order: once a session relays,
/// and for any reads that follow, what it writes to each side is exactly what
/// it read on the other side before the first read that ends the stream;
/// that read closes it, and nothing is written after.
pub proof fn lemma_relay_transparent(s: Session, reads: Seq<(Side, Input)>, end: int)
    requires
        s.phase == Phase::Relay,
        0 <= end <= reads.len(),
        forall|j: int| 0 <= j < end ==> !ends_stream(s, #[trigger] reads[j].1),
        end == reads.len() || ends_stream(s, reads[end].1),
    ensures
        sent_to(run(s, reads).1, Side::Upstream) == read_from(reads.take(end), Side::Client),
        sent_to(run(s, reads).1, Side::Client) == read_from(reads.take(end), Side::Upstream),
        run(s, reads).0 == (if end < reads.len() {
            at_phase(s, Phase::Closed)
        } else {
            s
        }),
    decreases reads.len(),
{
    if reads.len() == 0 {
        assert(reads.take(end) =~= reads);
    } else {
        let n = reads.len() - 1;
        let prefix = reads.drop_last();
        let k = if end < reads.len() { end } else { n };
        assert forall|j: int| 0 <= j < k implies !ends_stream(s, #[trigger] prefix[j].1) by {
            assert(prefix[j] == reads[j]);
        }
        if k < n {
            assert(prefix[k] == reads[k]);
        }
        lemma_relay_transparent(s, prefix, k);
        let (before, effects) = run(s, prefix);
        let (side, input) = reads.last();
        let (after, effect) = transition(before, side, input);
        assert(run(s, reads).1 == effects.push(effect));
        assert(effects.push(effect).drop_last() =~= effects);
        assert(effects.push(effect).last() == effect);
        if end < n {
            assert(prefix.take(end) =~= reads.take(end));
            assert(effect == Effect::Wait);
        } else if end == n {
            assert(prefix.take(end) =~= prefix);
            assert(reads.take(end) =~= prefix);
            assert(effect == Effect::Close);
        } else {
            assert(prefix.take(n) =~= prefix);
            assert(reads.take(end) =~= reads);
            assert(!ends_stream(s, reads[n].1));
            assert(reads.drop_last() == prefix);
        }
    }
}

/// The request the relay server dials is the one the client sent to the front
/// end: the front end answers a client request with a `Connect` whose frame
/// the relay server can read, and on that frame the relay server dials the
/// same request (without its command) at its `host:port`.
pub proof fn lemma_remote_dials_request(d: Seq<u8>, proxy_eof: bool, remote_eof: bool)
    requires
        request_fits(d),
        domain_is_utf8(d),
    ensures
        ({
            let proxy = Session { role: Role::Proxy, phase: Phase::Request, stop_on_eof: proxy_eof };
            let remote = Session { role: Role::Remote, phase: Phase::Request, stop_on_eof: remote_eof };
            let v = request_view(d);
            &&& input_readable(proxy, Side::Client, Input::Data(d))
            &&& transition(proxy, Side::Client, Input::Data(d)) == (
                at_phase(proxy, Phase::Relay),
                Effect::Connect { request: v, to_upstream: wire_bytes(v), to_client: connect_reply() },
            )
            &&& input_readable(remote, Side::Client, Input::Data(wire_bytes(v)))
            &&& transition(remote, Side::Client, Input::Data(wire_bytes(v))) == (
                at_phase(remote, Phase::Relay),
                Effect::Dial { request: forwarded_view(v), target: host_port(v.addr, v.port) },
            )
        }),
{
    lemma_frame_round_trip(d);
}

/// A read that would block, on either side of a relaying session, changes
/// nothing: the session stays as it was and only waits, with no write and
/// no close.
pub proof fn lemma_relay_waits_on_would_block(s: Session, side: Side)
    requires
        s.phase == Phase::Relay,
    ensures
        transition(s, side, Input::WouldBlock) == (s, Effect::Wait),
{
}

/// Whatever greeting the client sends, the front end answers `[5, 0]` (SOCKS
/// version 5, no authentication) and goes on to wait for the connect request.
pub proof fn lemma_greeting_answered(s: Session, greeting: Seq<u8>)
    requires
        s.phase == Phase::Greeting,
    ensures
        transition(s, Side::Client, Input::Data(greeting)) == (
            Session { role: s.role, phase: Phase::Request, stop_on_eof: s.stop_on_eof },
            Effect::Reply(seq![5u8, 0u8]),
        ),
{
    assert(greeting_reply() =~= seq![5u8, 0u8]);
}

/// While a session waits for the greeting it takes any read on either side:
/// only a request read on the client side is held to a length.
pub proof fn lemma_greeting_phase_accepts_all(s: Session, side: Side, input: Input)
    requires
        s.phase == Phase::Greeting,
    ensures
        input_readable(s, side, input),
{
}

/// Whether a character is one of the decimal digits '0' to '9'.
pub open spec fn is_digit(c: char) -> bool {
    '0' <= c && c <= '9'
}

/// The number that a text of decimal digits reads as.
pub open spec fn digits_value(t: Seq<char>) -> nat
    decreases t.len(),
{
    if t.len() == 0 {
        0
    } else {
        digits_value(t.drop_last()) * 10 + ((t.last() as u32) - ('0' as u32)) as nat
    }
}

proof fn lemma_decimal_reads_back(n: nat)
    ensures
        decimal(n).len() >= 1,
        forall|i: int| 0 <= i < decimal(n).len() ==> is_digit(#[trigger] decimal(n)[i]),
        digits_value(decimal(n)) == n,
        n > 0 ==> decimal(n)[0] != '0',
        n == 0 ==> decimal(n) == seq!['0'],
    decreases n,
{
    if n < 10 {
        let c = digit_char(n);
        assert((c as u32) == ('0' as u32) + n);
        assert(decimal(n).drop_last() =~= Seq::<char>::empty());
        assert(digits_value(decimal(n)) == digits_value(Seq::<char>::empty()) * 10 + ((c as u32) - ('0' as u32)) as nat);
    } else {
        let q = n / 10;
        let r = n % 10;
        lemma_decimal_reads_back(q);
        let c = digit_char(r);
        assert((c as u32) == ('0' as u32) + r);
        let t = decimal(n);
        assert(t == decimal(q).push(c));
        assert(t.drop_last() =~= decimal(q));
        assert(q * 10 + r == n) by (nonlinear_arith)
            requires
                q == n / 10,
                r == n % 10,
        ;
        assert(t.last() == c);
        assert(digits_value(t) == digits_value(decimal(q)) * 10 + ((c as u32) - ('0' as u32)) as nat);
        assert forall|i: int| 0 <= i < t.len() implies is_digit(#[trigger] t[i]) by {
            if i < t.len() - 1 {
                assert(t[i] == decimal(q)[i]);
            }
        }
        assert(t[0] == decimal(q)[0]);
    }
}

/// The `host:port` text names the host and the whole port: it starts with the
/// host, then a ':', then only decimal digits, with no leading zero, that read
/// as the port — for every host and every port.
pub proof fn lemma_host_port_names_port(host: Seq<char>, port: u32)
    ensures
        ({
            let t = host_port(host, port);
            let digits = t.subrange(host.len() + 1int, t.len() as int);
            &&& t.len() > host.len() + 1
            &&& t.subrange(0, host.len() as int) == host
            &&& t[host.len() as int] == ':'
            &&& forall|i: int| 0 <= i < digits.len() ==> is_digit(#[trigger] digits[i])
            &&& digits_value(digits) == port
            &&& digits[0] == '0' ==> digits.len() == 1
        }),
{
    let t = host_port(host, port);
    lemma_decimal_reads_back(port as nat);
    assert(t.subrange(0, host.len() as int) =~= host);
    assert(t.subrange(host.len() + 1int, t.len() as int) =~= decimal(port as nat));
}

/// The relay server dials the host and the port of the frame it read: for
/// every frame it can read, it dials a target that is the frame's address,
/// a ':', and decimal digits that read as the frame's port.
pub proof fn lemma_dial_target_has_port(s: Session, frame: Seq<u8>)
    requires
        s.role == Role::Remote,
        s.phase == Phase::Request,
        frame_fits(frame),
    ensures
        ({
            let v = frame_view(frame);
            let t = host_port(v.addr, v.port);
            &&& transition(s, Side::Client, Input::Data(frame)) == (
                at_phase(s, Phase::Relay),
                Effect::Dial { request: v, target: t },
            )
            &&& t.subrange(0, v.addr.len() as int) == v.addr
            &&& t[v.addr.len() as int] == ':'
            &&& digits_value(t.subrange(v.addr.len() + 1int, t.len() as int)) == v.port
        }),
{
    let v = frame_view(frame);
    lemma_host_port_names_port(v.addr, v.port);
}

/// A relaying session passes every read of bytes to the other side unchanged,
/// except a read of no bytes where it stops on end of stream, which closes
/// it; a failed read closes it on either side.
pub proof fn lemma_relay_step(s: Session, side: Side, d: Seq<u8>)
    requires
        s.phase == Phase::Relay,
    ensures
        transition(s, side, Input::Data(d)) == (if d.len() == 0 && s.stop_on_eof {
            (Session { role: s.role, phase: Phase::Closed, stop_on_eof: s.stop_on_eof }, Effect::Close)
        } else {
            (s, Effect::Forward {
                to: if side == Side::Client { Side::Upstream } else { Side::Client },
                bytes: d,
            })
        }),
        transition(s, side, Input::Failed) == (
            Session { role: s.role, phase: Phase::Closed, stop_on_eof: s.stop_on_eof },
            Effect::Close,
        ),
{
}

/// A closed session does nothing more: on any read it stays closed and waits.
pub proof fn lemma_closed_is_final(s: Session, side: Side, input: Input)
    requires
        s.phase == Phase::Closed,
    ensures
        transition(s, side, input) == (s, Effect::Wait),
{
}

/// Before the relay starts, reads on the upstream side are not taken into
/// account, and a read that would block changes nothing.
pub proof fn lemma_handshake_ignores_upstream(s: Session, input: Input, side: Side)
    requires
        s.phase == Phase::Greeting || s.phase == Phase::Request,
    ensures
        transition(s, Side::Upstream, input) == (s, Effect::Wait),
        transition(s, side, Input::WouldBlock) == (s, Effect::Wait),
{
}

/// The front end answers a connect request of four bytes or more with the
/// success reply `[5, 0, 0, 1, 0, 0, 0, 0, 8, 174]` and a frame that starts
/// with the request's address type; a shorter request closes the connection.
pub proof fn lemma_connect_request_answered(s: Session, d: Seq<u8>)
    requires
        s.role == Role::Proxy,
        s.phase == Phase::Request,
    ensures
        d.len() < 4 ==> transition(s, Side::Client, Input::Data(d)) == (
            Session { role: s.role, phase: Phase::Closed, stop_on_eof: s.stop_on_eof },
            Effect::Close,
        ),
        d.len() >= 4 ==> ({
            let (next, effect) = transition(s, Side::Client, Input::Data(d));
            &&& next == Session { role: s.role, phase: Phase::Relay, stop_on_eof: s.stop_on_eof }
            &&& effect matches Effect::Connect { request, to_upstream, to_client }
                && to_client == seq![5u8, 0u8, 0u8, 1u8, 0u8, 0u8, 0u8, 0u8, 8u8, 174u8]
                && to_upstream.len() >= 4
                && to_upstream[0] == d[3]
                && request.mode == d[1]
                && request.addr_type == d[3]
        }),
{
    if d.len() >= 4 {
        assert(connect_reply() =~= seq![5u8, 0u8, 0u8, 1u8, 0u8, 0u8, 0u8, 0u8, 8u8, 174u8]);
    }
}

} // verus!
