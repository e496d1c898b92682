//! The per-connection state machine.
//!
//! A connection advances `Init → Conn → Send → Recv → Done` and never moves
//! backward. Each handler is a pure decision: the unverified shell performs
//! the socket operation, reports what it observed as a plain value, and
//! carries out the returned action. A would-block observation leaves the
//! state in place; a fatal error ends the connection.

use vstd::prelude::*;

use crate::addr::Addr;
use crate::bytes::{copy_range, lower};
use crate::config::{App, Route};
use crate::dns::{query_model, Dns, Query, QueryModel};
use crate::error::{ConnError, IoKind};
use crate::parse::{host_value, is_http_get, BUFFER_SIZE};

verus! {

/// The state of one connection.
#[derive(Clone, Copy, PartialEq, Eq, Structural, Debug)]
pub enum State {
    Init,
    Conn,
    Send,
    Recv,
    Done,
}

/// How far along its life a state is.
pub open spec fn rank(s: State) -> int {
    match s {
        State::Init => 0,
        State::Conn => 1,
        State::Send => 2,
        State::Recv => 3,
        State::Done => 4,
    }
}

/// The transition relation of the state machine: a state may hold its
/// place, advance to its successor, or fail to `Done`.
pub open spec fn steps_to(a: State, b: State) -> bool {
    match (a, b) {
        (State::Init, State::Init) => true,
        (State::Init, State::Conn) => true,
        (State::Init, State::Done) => true,
        (State::Conn, State::Conn) => true,
        (State::Conn, State::Send) => true,
        (State::Conn, State::Done) => true,
        (State::Send, State::Send) => true,
        (State::Send, State::Recv) => true,
        (State::Send, State::Done) => true,
        (State::Recv, State::Recv) => true,
        (State::Recv, State::Done) => true,
        (State::Done, State::Done) => true,
        _ => false,
    }
}

/// The state machine progresses monotonically: no transition lowers the
/// rank, `Done` is never left, and `Recv` never returns to `Send`.
pub proof fn lemma_state_monotonic(a: State, b: State)
    requires
        steps_to(a, b),
    ensures
        rank(b) >= rank(a),
        a is Done ==> b is Done,
        !(a is Recv && b is Send),
{
}

/// Reachability under any number of transitions never lowers the rank.
pub proof fn lemma_no_backward_run(states: Seq<State>)
    requires
        forall|i: int| 0 <= i < states.len() - 1 ==> #[trigger] steps_to(states[i], states[i + 1]),
    ensures
        forall|i: int, j: int| 0 <= i <= j < states.len() ==> rank(states[i]) <= rank(states[j]),
    decreases states.len(),
{
    if states.len() > 1 {
        lemma_no_backward_run(states.subrange(0, states.len() - 1));
        assert forall|i: int, j: int| 0 <= i <= j < states.len() implies rank(states[i]) <= rank(
            states[j],
        ) by {
            if j < states.len() - 1 {
                assert(states.subrange(0, states.len() - 1)[i] == states[i]);
                assert(states.subrange(0, states.len() - 1)[j] == states[j]);
            } else if i < j {
                assert(states.subrange(0, states.len() - 1)[i] == states[i]);
                assert(states.subrange(0, states.len() - 1)[j - 1] == states[j - 1]);
                assert(steps_to(states[j - 1], states[j - 1 + 1]));
            }
        }
    }
}

/// Byte-exact relay: over any run of reads in one direction, forwarding
/// each read's bytes verbatim — which `send` and `recv` promise of every
/// chunk — reproduces the source byte stream exactly, in order.
pub proof fn lemma_relay_byte_exact(reads: Seq<Seq<u8>>, writes: Seq<Seq<u8>>)
    requires
        writes.len() == reads.len(),
        forall|i: int| 0 <= i < reads.len() ==> writes[i] == reads[i],
    ensures
        writes.flatten() == reads.flatten(),
{
    assert(writes =~= reads);
}

/// One client session: its identity and where its state machine stands.
/// The sockets themselves are owned by the unverified shell.
#[derive(Clone, Copy, PartialEq, Eq, Structural, Debug)]
pub struct Connection {
    pub id: u64,
    pub state: State,
}

/// What `init` asks the shell to do.
pub enum InitAction {
    /// Nothing usable was peeked; try again next tick.
    Wait,
    /// The request is bad; tear the connection down.
    Reject(ConnError),
    /// Begin a non-blocking connect to this address.
    Connect(Addr),
    /// Ask the system resolver for `name` at `port`, under cache key `key`,
    /// and report the outcome through `resolved`.
    Resolve { key: Vec<u8>, name: Vec<u8>, port: u16 },
}

/// The model of an `InitAction`.
pub enum InitModel {
    Wait,
    Reject(ConnError),
    Connect(Addr),
    Resolve(Seq<u8>, Seq<u8>, u16),
}

/// The action as its model.
pub open spec fn init_action_view(a: InitAction) -> InitModel {
    match a {
        InitAction::Wait => InitModel::Wait,
        InitAction::Reject(e) => InitModel::Reject(e),
        InitAction::Connect(addr) => InitModel::Connect(addr),
        InitAction::Resolve { key, name, port } => InitModel::Resolve(key@, name@, port),
    }
}

/// What peeking the request head must decide: stay on no data, reject a
/// head that is not a `GET` or names no host, connect to the configured
/// proxy for a configured host, and otherwise take the DIRECT path through
/// the resolver cache.
pub open spec fn init_model(app: App, dns: Map<Seq<u8>, Addr>, peeked: Option<Seq<u8>>) -> InitModel {
    match peeked {
        None => InitModel::Wait,
        Some(d) => {
            if !is_http_get(d) {
                InitModel::Reject(ConnError::NotHttp)
            } else {
                match host_value(lower(d)) {
                    None => InitModel::Reject(ConnError::ParseError),
                    Some(h) => {
                        if app.decision(h) is Proxy {
                            InitModel::Connect(app.proxy)
                        } else {
                            match query_model(dns, h) {
                                QueryModel::Cached(a) => InitModel::Connect(a),
                                QueryModel::Lookup(name, port) => InitModel::Resolve(
                                    h,
                                    name,
                                    port,
                                ),
                                QueryModel::Invalid => InitModel::Reject(ConnError::DnsError),
                            }
                        }
                    },
                }
            }
        },
    }
}

/// The state each `InitModel` leaves the connection in.
pub open spec fn init_next(m: InitModel) -> State {
    match m {
        InitModel::Wait => State::Init,
        InitModel::Reject(_) => State::Done,
        InitModel::Connect(_) => State::Conn,
        InitModel::Resolve(_, _, _) => State::Init,
    }
}

/// What polling the in-flight upstream connect reported.
pub enum ConnEvent {
    /// The peer-address probe failed with this kind.
    PeerErr(IoKind),
    /// The probe succeeded but switching off Nagle's algorithm failed.
    NodelayErr(IoKind),
    /// The upstream socket is connected and configured.
    Ready,
}

/// A handler verdict without data: hold the state, fail, or advance.
#[derive(Clone, Copy, PartialEq, Eq, Structural, Debug)]
pub enum StepAction {
    Wait,
    Fail(ConnError),
    Proceed,
}

/// What the connect poll must decide: not-yet-connected signals hold the
/// state, an invalid-input answer to the Nagle switch holds it too, any
/// other error is fatal, and a connected socket advances to the request
/// relay.
pub open spec fn connect_model(ev: ConnEvent) -> StepAction {
    match ev {
        ConnEvent::PeerErr(k) => if k is NotConnected || k is WouldBlock {
            StepAction::Wait
        } else {
            StepAction::Fail(ConnError::IOError(k))
        },
        ConnEvent::NodelayErr(k) => if k is InvalidInput {
            StepAction::Wait
        } else {
            StepAction::Fail(ConnError::IOError(k))
        },
        ConnEvent::Ready => StepAction::Proceed,
    }
}

/// The state a connect verdict leaves the connection in.
pub open spec fn connect_next(a: StepAction) -> State {
    match a {
        StepAction::Wait => State::Conn,
        StepAction::Fail(_) => State::Done,
        StepAction::Proceed => State::Send,
    }
}

/// What `send` or `recv` asks the shell to do with the relayed bytes.
pub enum RelayAction {
    /// No data was ready; try again next tick.
    Wait,
    /// This direction is finished; move on without writing.
    Advance,
    /// Write exactly these bytes to the other side, in full.
    Forward(Vec<u8>),
}

/// What the client 1-byte peek during the response phase reported.
pub enum ProbeEvent {
    /// The peek succeeded with this many bytes.
    Bytes(usize),
    /// The peek failed with this kind.
    Failed(IoKind),
}

/// The session is over once the client closed its socket (a successful
/// peek of zero bytes) or the peek failed with anything but would-block.
pub open spec fn probe_closed(ev: ProbeEvent) -> bool {
    match ev {
        ProbeEvent::Bytes(n) => n == 0,
        ProbeEvent::Failed(k) => !(k is WouldBlock),
    }
}

impl Connection {
    /// A connection as the acceptor hands it to a worker.
    pub fn new(id: u64) -> (r: Connection)
        ensures
            r.id == id,
            r.state is Init,
    {
        Connection { id, state: State::Init }
    }

    /// Drive the `Init` state from the peeked request head (`None` when the
    /// peek would block). The decision is `init_model`.
    pub fn init(&mut self, app: &App, dns: &Dns, peeked: Option<&[u8]>) -> (r: InitAction)
        requires
            old(self).state is Init,
            app.wf(),
            dns.wf(),
        ensures
            final(self).id == old(self).id,
            init_action_view(r) == init_model(
                *app,
                dns@,
                match peeked {
                    Some(d) => Some(d@),
                    None => None,
                },
            ),
            final(self).state == init_next(init_action_view(r)),
            steps_to(old(self).state, final(self).state),
    {
        let d = match peeked {
            Some(d) => d,
            None => {
                return InitAction::Wait;
            },
        };
        if !crate::parse::check_http(d) {
            self.state = State::Done;
            return InitAction::Reject(ConnError::NotHttp);
        }
        let host = match crate::parse::parse_host(d) {
            Ok(h) => h,
            Err(e) => {
                self.state = State::Done;
                return InitAction::Reject(e);
            },
        };
        match app.route(host.as_slice()) {
            Route::Proxy => {
                self.state = State::Conn;
                InitAction::Connect(app.proxy)
            },
            Route::Direct => match dns.resolve(host.as_slice()) {
                Query::Cached(a) => {
                    self.state = State::Conn;
                    InitAction::Connect(a)
                },
                Query::Lookup(name, port) => InitAction::Resolve { key: host, name, port },
                Query::Invalid => {
                    self.state = State::Done;
                    InitAction::Reject(ConnError::DnsError)
                },
            },
        }
    }

    /// Record the system resolver's answer for the key `init` asked about:
    /// a success is cached and connected to, a failure ends the connection
    /// with `DnsError`.
    pub fn resolved(&mut self, dns: &mut Dns, key: &[u8], addr: Option<Addr>) -> (r: StepAction)
        requires
            old(self).state is Init,
            old(dns).wf(),
        ensures
            final(self).id == old(self).id,
            final(dns).wf(),
            match addr {
                Some(a) => {
                    &&& final(dns)@ == old(dns)@.insert(key@, a)
                    &&& final(self).state is Conn
                    &&& r == StepAction::Proceed
                },
                None => {
                    &&& final(dns)@ == old(dns)@
                    &&& final(self).state is Done
                    &&& r == StepAction::Fail(ConnError::DnsError)
                },
            },
            steps_to(old(self).state, final(self).state),
    {
        match addr {
            Some(a) => {
                dns.insert(key, a);
                self.state = State::Conn;
                StepAction::Proceed
            },
            None => {
                self.state = State::Done;
                StepAction::Fail(ConnError::DnsError)
            },
        }
    }

    /// Drive the `Conn` state from the connect poll. The decision is
    /// `connect_model`.
    pub fn connect(&mut self, ev: ConnEvent) -> (r: StepAction)
        requires
            old(self).state is Conn,
        ensures
            final(self).id == old(self).id,
            r == connect_model(ev),
            final(self).state == connect_next(r),
            steps_to(old(self).state, final(self).state),
    {
        match ev {
            ConnEvent::PeerErr(k) => match k {
                IoKind::NotConnected | IoKind::WouldBlock => StepAction::Wait,
                _ => {
                    self.state = State::Done;
                    StepAction::Fail(ConnError::IOError(k))
                },
            },
            ConnEvent::NodelayErr(k) => match k {
                IoKind::InvalidInput => StepAction::Wait,
                _ => {
                    self.state = State::Done;
                    StepAction::Fail(ConnError::IOError(k))
                },
            },
            ConnEvent::Ready => {
                self.state = State::Send;
                StepAction::Proceed
            },
        }
    }

    /// Drive the `Send` state from one client read: `None` when the read
    /// would block, the bytes read otherwise (empty on a half-closed
    /// client). The bytes to forward upstream are exactly the bytes read; a
    /// read shorter than the scratch buffer ends the request phase.
    pub fn send(&mut self, data: Option<&[u8]>) -> (r: RelayAction)
        requires
            old(self).state is Send,
            data matches Some(d) ==> d@.len() <= BUFFER_SIZE,
        ensures
            final(self).id == old(self).id,
            match data {
                None => r is Wait && final(self).state is Send,
                Some(d) => {
                    if d@.len() == 0 {
                        r is Advance && final(self).state is Recv
                    } else {
                        &&& r matches RelayAction::Forward(out) && out@ == d@
                        &&& final(self).state == if d@.len() < BUFFER_SIZE {
                            State::Recv
                        } else {
                            State::Send
                        }
                    }
                },
            },
            steps_to(old(self).state, final(self).state),
    {
        match data {
            None => RelayAction::Wait,
            Some(d) => {
                if d.len() == 0 {
                    self.state = State::Recv;
                    RelayAction::Advance
                } else {
                    if d.len() < BUFFER_SIZE {
                        self.state = State::Recv;
                    }
                    RelayAction::Forward(copy_range(d, 0, d.len()))
                }
            },
        }
    }

    /// Check the client during the response phase: a closed or failed
    /// client ends the session. Returns whether the session finished.
    pub fn recv_probe(&mut self, ev: ProbeEvent) -> (r: bool)
        requires
            old(self).state is Recv,
        ensures
            final(self).id == old(self).id,
            r == probe_closed(ev),
            final(self).state == if r {
                State::Done
            } else {
                State::Recv
            },
            steps_to(old(self).state, final(self).state),
    {
        let closed = match ev {
            ProbeEvent::Bytes(n) => n == 0,
            ProbeEvent::Failed(k) => !matches!(k, IoKind::WouldBlock),
        };
        if closed {
            self.state = State::Done;
        }
        closed
    }

    /// Drive the `Recv` state from one upstream read: `None` when the read
    /// would block, the bytes read otherwise (empty once the upstream
    /// closed). The bytes to forward to the client are exactly the bytes
    /// read.
    pub fn recv(&mut self, data: Option<&[u8]>) -> (r: RelayAction)
        requires
            old(self).state is Recv,
        ensures
            final(self).id == old(self).id,
            match data {
                None => r is Wait && final(self).state is Recv,
                Some(d) => {
                    if d@.len() == 0 {
                        r is Advance && final(self).state is Done
                    } else {
                        &&& r matches RelayAction::Forward(out) && out@ == d@
                        &&& final(self).state is Recv
                    }
                },
            },
            steps_to(old(self).state, final(self).state),
    {
        match data {
            None => RelayAction::Wait,
            Some(d) => {
                if d.len() == 0 {
                    self.state = State::Done;
                    RelayAction::Advance
                } else {
                    RelayAction::Forward(copy_range(d, 0, d.len()))
                }
            },
        }
    }

    /// Record a fatal socket error the shell hit while carrying out an
    /// action: the connection is finished.
    pub fn fail(&mut self)
        ensures
            final(self).id == old(self).id,
            final(self).state is Done,
            steps_to(old(self).state, final(self).state),
    {
        self.state = State::Done;
    }

}

} // verus!
