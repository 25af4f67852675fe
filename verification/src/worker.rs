//! The handshake state machine.  An owner drives the worker by `tick`,
//! handing it the current wall-clock time in milliseconds and at most one
//! message drained from the transport relay; the worker queues its outbound
//! messages and its upward events on itself, for the owner to drain and
//! deliver.  The whole transition of one tick is pinned by `tick_spec`.

use vstd::prelude::*;
use crate::json::bytes_eq;
use crate::protocol::{Protocol, ProtoView};
use crate::protocol_wrapper::{
    enc_control, parse_control, parse_control_exec, ConfigData, CtlView, ProtocolWrapper,
    StateData, StateView,
};
use crate::words::{v_need_config, v_ready, v_undefined, w_need_config, w_ready, w_undefined};

verus! {

/// The locally-known connection states, with an open case for labels this
/// layer does not interpret.
#[derive(Debug)]
pub enum ConnectionState {
    Undefined,
    NeedConfig,
    Ready,
    Other(Vec<u8>),
}

#[verifier::ext_equal]
pub enum StateLabel {
    Undefined,
    NeedConfig,
    Ready,
    Other(Seq<u8>),
}

impl View for ConnectionState {
    type V = StateLabel;

    open spec fn view(&self) -> StateLabel {
        match self {
            ConnectionState::Undefined => StateLabel::Undefined,
            ConnectionState::NeedConfig => StateLabel::NeedConfig,
            ConnectionState::Ready => StateLabel::Ready,
            ConnectionState::Other(v) => StateLabel::Other(v@),
        }
    }
}

/// The state a reported label names.
pub open spec fn label_of(s: Seq<u8>) -> StateLabel {
    if s == w_undefined() {
        StateLabel::Undefined
    } else if s == w_need_config() {
        StateLabel::NeedConfig
    } else if s == w_ready() {
        StateLabel::Ready
    } else {
        StateLabel::Other(s)
    }
}

fn state_from_label(v: Vec<u8>) -> (r: ConnectionState)
    ensures
        r@ == label_of(v@),
{
    if bytes_eq(&v, &v_undefined()) {
        ConnectionState::Undefined
    } else if bytes_eq(&v, &v_need_config()) {
        ConnectionState::NeedConfig
    } else if bytes_eq(&v, &v_ready()) {
        ConnectionState::Ready
    } else {
        ConnectionState::Other(v)
    }
}

/// The net worker: connection state, the single-shot readiness flag, the
/// time of the last health probe, and the two queues the owner drains.
#[derive(Debug)]
pub struct IpcNetWorker {
    pub state: ConnectionState,
    pub is_ready: bool,
    pub last_state_millis: u64,
    pub outbound: Vec<Protocol>,
    pub events: Vec<Protocol>,
}

#[verifier::ext_equal]
pub struct WorkerView {
    pub state: StateLabel,
    pub is_ready: bool,
    pub last_state_millis: u64,
    pub outbound: Seq<ProtoView>,
    pub events: Seq<ProtoView>,
}

pub open spec fn proto_views(s: Seq<Protocol>) -> Seq<ProtoView> {
    s.map_values(|p: Protocol| p@)
}

impl View for IpcNetWorker {
    type V = WorkerView;

    open spec fn view(&self) -> WorkerView {
        WorkerView {
            state: self.state@,
            is_ready: self.is_ready,
            last_state_millis: self.last_state_millis,
            outbound: proto_views(self.outbound@),
            events: proto_views(self.events@),
        }
    }
}

proof fn lemma_proto_views_push(s: Seq<Protocol>, x: Protocol)
    ensures
        proto_views(s.push(x)) == proto_views(s).push(x@),
{
    assert(proto_views(s.push(x)) =~= proto_views(s).push(x@));
}

// --- the transition, as specification ---

/// The state-request probe, as it travels.
pub open spec fn request_state_msg() -> ProtoView {
    ProtoView::Json(enc_control(CtlView::RequestState))
}

/// The default-config request, as it travels.
pub open spec fn request_default_config_msg() -> ProtoView {
    ProtoView::Json(enc_control(CtlView::RequestDefaultConfig))
}

/// The set-config message echoing the blob `c`, as it travels.
pub open spec fn set_config_msg(c: Seq<u8>) -> ProtoView {
    ProtoView::Json(enc_control(CtlView::SetConfig(c)))
}

/// A health probe is due when the remote is not yet ready and at least
/// 500 ms have passed since the last probe.
pub open spec fn probe_due(w: WorkerView, now: u64) -> bool {
    !(w.state is Ready) && now >= w.last_state_millis + 500
}

/// Self-driven part of a tick: queue a state request when the probe is due.
pub open spec fn probe_step(w: WorkerView, now: u64) -> WorkerView {
    if probe_due(w, now) {
        WorkerView {
            outbound: w.outbound.push(request_state_msg()),
            last_state_millis: now,
            ..w
        }
    } else {
        w
    }
}

/// The control message a wire message carries, if any.
pub open spec fn control_of(p: ProtoView) -> Option<CtlView> {
    match p {
        ProtoView::Json(s) => parse_control(s),
        _ => None,
    }
}

/// A state report moves the worker to the reported state; a report of
/// `need_config` also queues a default-config request.
pub open spec fn handle_state_spec(w: WorkerView, sd: StateView) -> WorkerView {
    let ns = label_of(sd.state);
    let wb = WorkerView { state: ns, ..w };
    if ns is NeedConfig {
        WorkerView { outbound: wb.outbound.push(request_default_config_msg()), ..wb }
    } else {
        wb
    }
}

/// A default-config report is echoed back verbatim as a set-config message,
/// but only while configuration is actually needed.
pub open spec fn handle_default_config_spec(w: WorkerView, c: Seq<u8>) -> WorkerView {
    if w.state is NeedConfig {
        WorkerView { outbound: w.outbound.push(set_config_msg(c)), ..w }
    } else {
        w
    }
}

/// Reactive part of a tick: interpret a control message, forward the raw
/// message upward, and announce readiness the first time the state becomes
/// `ready`.
pub open spec fn react_step(w: WorkerView, p: ProtoView) -> WorkerView {
    let w1 = match control_of(p) {
        Some(CtlView::State(sd)) => handle_state_spec(w, sd),
        Some(CtlView::DefaultConfig(c)) => handle_default_config_spec(w, c),
        _ => w,
    };
    let w2 = WorkerView { events: w1.events.push(p), ..w1 };
    if !w2.is_ready && w2.state is Ready {
        WorkerView { is_ready: true, events: w2.events.push(ProtoView::P2pReady), ..w2 }
    } else {
        w2
    }
}

/// One whole tick: the probe step, then the reaction to the drained message
/// if one was pending.
pub open spec fn tick_spec(w: WorkerView, now: u64, inbound: Option<ProtoView>) -> WorkerView {
    let w1 = probe_step(w, now);
    match inbound {
        None => w1,
        Some(p) => react_step(w1, p),
    }
}

pub open spec fn opt_view(p: Option<Protocol>) -> Option<ProtoView> {
    match p {
        Some(x) => Some(x@),
        None => None,
    }
}

/// A freshly constructed worker: state undefined, nothing announced, the
/// probe clock at zero, both queues empty.
pub open spec fn initial_worker() -> WorkerView {
    WorkerView {
        state: StateLabel::Undefined,
        is_ready: false,
        last_state_millis: 0,
        outbound: Seq::empty(),
        events: Seq::empty(),
    }
}

impl IpcNetWorker {
    pub(crate) fn priv_new() -> (w: IpcNetWorker)
        ensures
            w@ == initial_worker(),
    {
        let w = IpcNetWorker {
            state: ConnectionState::Undefined,
            is_ready: false,
            last_state_millis: 0,
            outbound: Vec::new(),
            events: Vec::new(),
        };
        proof {
            assert(proto_views(Seq::<Protocol>::empty()) =~= Seq::<ProtoView>::empty());
            assert(w@ =~= initial_worker());
        }
        w
    }

    /// A worker wired for an in-memory transport: the caller plays the
    /// remote by handing messages to `tick` and draining the queues.
    pub fn new_test() -> (w: IpcNetWorker)
        ensures
            w@ == initial_worker(),
    {
        IpcNetWorker::priv_new()
    }

    /// Enqueue an outbound message from the owner, forwarded to the relay
    /// unmodified.
    pub fn receive(&mut self, data: Protocol)
        ensures
            (final(self)@ == WorkerView {
                outbound: old(self)@.outbound.push(data@),
                ..old(self)@
            }),
    {
        proof {
            lemma_proto_views_push(self.outbound@, data);
        }
        self.outbound.push(data);
        proof {
            assert(final(self)@ =~= (WorkerView {
                outbound: old(self)@.outbound.push(data@),
                ..old(self)@
            }));
        }
    }

    /// Queue a state request if the probe cadence says one is due.
    fn priv_check_init(&mut self, now: u64)
        requires
            !(old(self)@.state is Ready),
        ensures
            final(self)@ == probe_step(old(self)@, now),
    {
        let elapsed = if now >= self.last_state_millis {
            now - self.last_state_millis
        } else {
            0
        };
        if elapsed >= 500 {
            let msg = ProtocolWrapper::RequestState.encode();
            proof {
                lemma_proto_views_push(self.outbound@, Protocol::Json(msg));
            }
            self.outbound.push(Protocol::Json(msg));
            self.last_state_millis = now;
            proof {
                assert(final(self)@ =~= probe_step(old(self)@, now));
            }
        } else {
            proof {
                assert(!probe_due(old(self)@, now));
                assert(final(self)@ =~= probe_step(old(self)@, now));
            }
        }
    }

    /// Adopt a reported state; ask for the default configuration when the
    /// remote says it needs configuring.
    fn priv_handle_state(&mut self, sd: StateData)
        ensures
            final(self)@ == handle_state_spec(old(self)@, sd@),
    {
        let ghost sv = sd@;
        self.state = state_from_label(sd.state);
        if matches!(self.state, ConnectionState::NeedConfig) {
            let msg = ProtocolWrapper::RequestDefaultConfig.encode();
            proof {
                lemma_proto_views_push(self.outbound@, Protocol::Json(msg));
            }
            self.outbound.push(Protocol::Json(msg));
        }
        proof {
            assert(final(self)@ =~= handle_state_spec(old(self)@, sv));
        }
    }

    /// Echo a default-config report back as a set-config message, but only
    /// while configuration is needed.
    fn priv_handle_default_config(&mut self, cd: ConfigData)
        ensures
            final(self)@ == handle_default_config_spec(old(self)@, cd.config@),
    {
        let ghost c = cd.config@;
        if matches!(self.state, ConnectionState::NeedConfig) {
            let msg = ProtocolWrapper::SetConfig(cd).encode();
            proof {
                lemma_proto_views_push(self.outbound@, Protocol::Json(msg));
            }
            self.outbound.push(Protocol::Json(msg));
        }
        proof {
            assert(final(self)@ =~= handle_default_config_spec(old(self)@, c));
        }
    }

    /// One non-blocking unit of work: run the probe cadence, interpret and
    /// forward the drained message if one was pending, and announce
    /// readiness the first time the state becomes `ready`.  Reports whether
    /// a pending message was processed.
    pub fn tick(&mut self, now: u64, inbound: Option<Protocol>) -> (did: bool)
        ensures
            final(self)@ == tick_spec(old(self)@, now, opt_view(inbound)),
            did == (inbound is Some),
    {
        if !(matches!(self.state, ConnectionState::Ready)) {
            self.priv_check_init(now);
        } else {
            proof {
                assert(self@ =~= probe_step(old(self)@, now));
            }
        }
        let ghost w1 = probe_step(old(self)@, now);
        match inbound {
            None => false,
            Some(data) => {
                let ghost pv = data@;
                let wrap: Option<ProtocolWrapper> = match &data {
                    Protocol::Json(v) => parse_control_exec(v),
                    _ => None,
                };
                match wrap {
                    Some(ProtocolWrapper::State(sd)) => {
                        self.priv_handle_state(sd);
                    },
                    Some(ProtocolWrapper::DefaultConfig(cd)) => {
                        self.priv_handle_default_config(cd);
                    },
                    _ => {
                        proof {
                            assert(self@ =~= (match control_of(pv) {
                                Some(CtlView::State(sv)) => handle_state_spec(w1, sv),
                                Some(CtlView::DefaultConfig(c)) => handle_default_config_spec(
                                    w1,
                                    c,
                                ),
                                _ => w1,
                            }));
                        }
                    },
                }
                proof {
                    lemma_proto_views_push(self.events@, data);
                }
                self.events.push(data);
                if !self.is_ready && matches!(self.state, ConnectionState::Ready) {
                    self.is_ready = true;
                    proof {
                        lemma_proto_views_push(self.events@, Protocol::P2pReady);
                    }
                    self.events.push(Protocol::P2pReady);
                }
                proof {
                    assert(final(self)@ =~= react_step(w1, pv));
                }
                true
            },
        }
    }

    /// Tear the worker down.  The relay and transport it was driving belong
    /// to the owner, which releases them; after this no further tick can be
    /// asked of it.
    pub fn stop(self) {
    }
}

// --- laws of the state machine ---

/// A state report carrying `need_config` has, by the time the tick returns,
/// already queued a default-config request as the newest outbound message,
/// whatever state the worker was in.
pub proof fn lemma_need_config_requests_default(
    w: WorkerView,
    now: u64,
    p: ProtoView,
    sd: StateView,
)
    requires
        control_of(p) == Some(CtlView::State(sd)),
        label_of(sd.state) is NeedConfig,
    ensures
        tick_spec(w, now, Some(p)).outbound.len() > 0,
        tick_spec(w, now, Some(p)).outbound.last() == request_default_config_msg(),
{
}

/// A default-config report received while configuration is needed is echoed
/// back verbatim: the one new outbound message of the reaction is a
/// set-config message carrying the identical blob.
pub proof fn lemma_default_config_echoed(w: WorkerView, now: u64, p: ProtoView, c: Seq<u8>)
    requires
        control_of(p) == Some(CtlView::DefaultConfig(c)),
        w.state is NeedConfig,
    ensures
        tick_spec(w, now, Some(p)).outbound == probe_step(w, now).outbound.push(set_config_msg(c)),
{
}

/// A default-config report received in any other state queues nothing.
pub proof fn lemma_default_config_ignored(w: WorkerView, now: u64, p: ProtoView, c: Seq<u8>)
    requires
        control_of(p) == Some(CtlView::DefaultConfig(c)),
        !(w.state is NeedConfig),
    ensures
        tick_spec(w, now, Some(p)).outbound == probe_step(w, now).outbound,
{
}

/// How many readiness events a queue of delivered events holds.
pub open spec fn ready_count(evs: Seq<ProtoView>) -> int {
    evs.filter(|p: ProtoView| p is P2pReady).len() as int
}

/// The bond between the single-shot flag and the events delivered so far: a
/// fresh worker satisfies it, and every tick preserves it, so the readiness
/// event is delivered at most once in a worker's lifetime however many
/// `ready` reports arrive.  A raw inbound message that is itself the
/// readiness signal is forwarded verbatim like any other traffic and is
/// therefore left out.
pub proof fn lemma_readiness_once(w: WorkerView, now: u64, inbound: Option<ProtoView>)
    requires
        ready_count(w.events) == (if w.is_ready {
            1int
        } else {
            0int
        }),
        (match inbound {
            Some(p) => !(p is P2pReady),
            None => true,
        }),
    ensures
        ready_count(tick_spec(w, now, inbound).events) == (if tick_spec(w, now, inbound).is_ready {
            1int
        } else {
            0int
        }),
{
    let w1 = probe_step(w, now);
    match inbound {
        None => {},
        Some(p) => {
            let wa = match control_of(p) {
                Some(CtlView::State(sd)) => handle_state_spec(w1, sd),
                Some(CtlView::DefaultConfig(c)) => handle_default_config_spec(w1, c),
                _ => w1,
            };
            assert(wa.events == w.events);
            assert(wa.is_ready == w.is_ready);
            lemma_ready_count_push(wa.events, p);
            let w2 = WorkerView { events: wa.events.push(p), ..wa };
            if !w2.is_ready && w2.state is Ready {
                lemma_ready_count_push(w2.events, ProtoView::P2pReady);
            }
        },
    }
}

/// The fresh worker satisfies the bond: nothing announced, nothing counted.
pub proof fn lemma_readiness_initially()
    ensures
        ready_count(initial_worker().events) == 0,
        !initial_worker().is_ready,
{
    reveal_with_fuel(Seq::filter, 2);
    assert(Seq::<ProtoView>::empty().filter(|p: ProtoView| p is P2pReady).len() == 0);
}

proof fn lemma_ready_count_push(evs: Seq<ProtoView>, p: ProtoView)
    ensures
        ready_count(evs.push(p)) == ready_count(evs) + (if p is P2pReady {
            1int
        } else {
            0int
        }),
{
    reveal_with_fuel(Seq::filter, 2);
    let pred = |q: ProtoView| q is P2pReady;
    assert(evs.push(p).drop_last() =~= evs);
    assert(evs.push(p).last() == p);
    assert(evs.push(p).filter(pred) == (if pred(p) {
        evs.filter(pred).push(p)
    } else {
        evs.filter(pred)
    }));
}

/// An idle tick is a no-op: with no message pending and the probe not yet
/// due, the worker is unchanged, and `tick` reports that no work was done.
pub proof fn lemma_idle_tick(w: WorkerView, now: u64)
    requires
        !probe_due(w, now),
    ensures
        tick_spec(w, now, None) == w,
{
    assert(tick_spec(w, now, None) =~= w);
}

/// Once announced, always announced: no tick clears the readiness flag.
pub proof fn lemma_ready_flag_monotone(w: WorkerView, now: u64, inbound: Option<ProtoView>)
    requires
        w.is_ready,
    ensures
        tick_spec(w, now, inbound).is_ready,
{
}

/// A worker run: the state after a sequence of ticks, each bringing a clock
/// reading and at most one drained message.
pub open spec fn run_spec(w: WorkerView, steps: Seq<(u64, Option<ProtoView>)>) -> WorkerView
    decreases steps.len(),
{
    if steps.len() == 0 {
        w
    } else {
        run_spec(tick_spec(w, steps.first().0, steps.first().1), steps.drop_first())
    }
}

/// No drained message of the run is itself the raw readiness frame (such a
/// message is foreign traffic and would be forwarded verbatim).
pub open spec fn no_raw_ready(steps: Seq<(u64, Option<ProtoView>)>) -> bool {
    forall|k: int|
        0 <= k && k < steps.len() ==> (match #[trigger] steps[k].1 {
            Some(p) => !(p is P2pReady),
            None => true,
        })
}

proof fn lemma_run_preserves_bond(w: WorkerView, steps: Seq<(u64, Option<ProtoView>)>)
    requires
        ready_count(w.events) == (if w.is_ready {
            1int
        } else {
            0int
        }),
        no_raw_ready(steps),
    ensures
        ready_count(run_spec(w, steps).events) == (if run_spec(w, steps).is_ready {
            1int
        } else {
            0int
        }),
    decreases steps.len(),
{
    if steps.len() > 0 {
        let w1 = tick_spec(w, steps.first().0, steps.first().1);
        lemma_readiness_once(w, steps.first().0, steps.first().1);
        assert(no_raw_ready(steps.drop_first())) by {
            assert(forall|k: int|
                0 <= k && k < steps.drop_first().len() ==> steps.drop_first()[k] == steps[k + 1]);
        }
        lemma_run_preserves_bond(w1, steps.drop_first());
    }
}

/// Lifetime form of the single-shot law: starting from a fresh worker, a
/// run of any length delivers the readiness event at most once, however
/// many `ready` reports its ticks drain.
pub proof fn lemma_readiness_once_lifetime(steps: Seq<(u64, Option<ProtoView>)>)
    requires
        no_raw_ready(steps),
    ensures
        ready_count(run_spec(initial_worker(), steps).events) <= 1,
{
    lemma_readiness_initially();
    lemma_run_preserves_bond(initial_worker(), steps);
}

} // verus!

