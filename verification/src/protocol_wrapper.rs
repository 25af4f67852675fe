//! The control sub-protocol: the JSON-tagged handshake messages layered atop
//! the generic JSON wire variant.  A payload is an object whose `method`
//! field selects the message; unrecognized methods or malformed payloads
//! parse to `None` rather than erroring, so that foreign traffic is simply
//! passed upward.

use vstd::prelude::*;
use crate::json::{
    bytes_eq, esc, esc_exec, lemma_parse_escaped, lemma_parse_plain_word, parse_str_array,
    parse_str_array_exec, parse_string, parse_string_exec, push_all, seq_views, skip_value,
    skip_value_exec, skip_ws, skip_ws_exec,
};
use crate::words::{
    v_bindings, v_config, v_default_config, v_id, v_method, v_request_default_config,
    v_request_state, v_set_config, v_state, w_bindings, w_config, w_default_config, w_id,
    w_method, w_request_default_config, w_request_state, w_set_config, w_state,
};

verus! {

/// A current-state report from the remote: its state label, node identifier
/// and binding addresses.  Absent fields parse as empty.
pub struct StateData {
    pub state: Vec<u8>,
    pub id: Vec<u8>,
    pub bindings: Vec<Vec<u8>>,
}

/// An opaque configuration blob.
pub struct ConfigData {
    pub config: Vec<u8>,
}

/// The control messages of the handshake.
pub enum ProtocolWrapper {
    RequestState,
    State(StateData),
    RequestDefaultConfig,
    DefaultConfig(ConfigData),
    SetConfig(ConfigData),
}

#[verifier::ext_equal]
pub struct StateView {
    pub state: Seq<u8>,
    pub id: Seq<u8>,
    pub bindings: Seq<Seq<u8>>,
}

#[verifier::ext_equal]
pub enum CtlView {
    RequestState,
    State(StateView),
    RequestDefaultConfig,
    DefaultConfig(Seq<u8>),
    SetConfig(Seq<u8>),
}

impl View for StateData {
    type V = StateView;

    open spec fn view(&self) -> StateView {
        StateView { state: self.state@, id: self.id@, bindings: seq_views(self.bindings@) }
    }
}

impl View for ProtocolWrapper {
    type V = CtlView;

    open spec fn view(&self) -> CtlView {
        match self {
            ProtocolWrapper::RequestState => CtlView::RequestState,
            ProtocolWrapper::State(sd) => CtlView::State(sd@),
            ProtocolWrapper::RequestDefaultConfig => CtlView::RequestDefaultConfig,
            ProtocolWrapper::DefaultConfig(c) => CtlView::DefaultConfig(c.config@),
            ProtocolWrapper::SetConfig(c) => CtlView::SetConfig(c.config@),
        }
    }
}

// --- parsing ---

/// The fields a control object may carry.
#[verifier::ext_equal]
pub struct CtlFields {
    pub method: Option<Seq<u8>>,
    pub state: Option<Seq<u8>>,
    pub id: Option<Seq<u8>>,
    pub config: Option<Seq<u8>>,
    pub bindings: Option<Seq<Seq<u8>>>,
}

pub open spec fn no_fields() -> CtlFields {
    CtlFields { method: None, state: None, id: None, config: None, bindings: None }
}

/// Scan the `key: value` pairs of a control object from `i` (just after the
/// opening brace), filling `f`; yields the fields and the index just after
/// the closing brace.  A known key must carry a value of its shape; an
/// unknown key's value is skipped.
pub open spec fn parse_pairs(s: Seq<u8>, i: int, f: CtlFields, fuel: nat) -> Option<
    (CtlFields, int),
>
    decreases fuel,
{
    if fuel == 0 {
        None
    } else {
        let i1 = skip_ws(s, i);
        if i1 < s.len() && s[i1] == 125 {
            Some((f, i1 + 1))
        } else {
            match parse_string(s, i1) {
                None => None,
                Some(kp) => {
                    let i2 = skip_ws(s, kp.1);
                    if i2 < s.len() && s[i2] == 58 {
                        let i3 = skip_ws(s, i2 + 1);
                        let step: Option<(CtlFields, int)> = if kp.0 == w_method() {
                            match parse_string(s, i3) {
                                Some(vp) => Some(
                                    (CtlFields { method: Some(vp.0), ..f }, vp.1),
                                ),
                                None => None,
                            }
                        } else if kp.0 == w_state() {
                            match parse_string(s, i3) {
                                Some(vp) => Some((CtlFields { state: Some(vp.0), ..f }, vp.1)),
                                None => None,
                            }
                        } else if kp.0 == w_id() {
                            match parse_string(s, i3) {
                                Some(vp) => Some((CtlFields { id: Some(vp.0), ..f }, vp.1)),
                                None => None,
                            }
                        } else if kp.0 == w_config() {
                            match parse_string(s, i3) {
                                Some(vp) => Some((CtlFields { config: Some(vp.0), ..f }, vp.1)),
                                None => None,
                            }
                        } else if kp.0 == w_bindings() {
                            if i3 < s.len() && s[i3] == 91 {
                                match parse_str_array(s, i3 + 1, Seq::empty(), fuel) {
                                    Some(ap) => Some(
                                        (CtlFields { bindings: Some(ap.0), ..f }, ap.1),
                                    ),
                                    None => None,
                                }
                            } else {
                                None
                            }
                        } else {
                            match skip_value(s, i3, fuel) {
                                Some(j) => Some((f, j)),
                                None => None,
                            }
                        };
                        match step {
                            None => None,
                            Some(fp) => {
                                let i4 = skip_ws(s, fp.1);
                                if i4 < s.len() && s[i4] == 44 {
                                    parse_pairs(s, i4 + 1, fp.0, (fuel - 1) as nat)
                                } else if i4 < s.len() && s[i4] == 125 {
                                    Some((fp.0, i4 + 1))
                                } else {
                                    None
                                }
                            },
                        }
                    } else {
                        None
                    }
                },
            }
        }
    }
}

/// Turn collected fields into a control message: `method` selects the kind,
/// a state report needs its label, config messages need their blob, and a
/// method of another protocol yields nothing.
pub open spec fn finish_fields(f: CtlFields) -> Option<CtlView> {
    match f.method {
        None => None,
        Some(m) => if m == w_request_state() {
            Some(CtlView::RequestState)
        } else if m == w_state() {
            match f.state {
                Some(st) => Some(
                    CtlView::State(
                        StateView {
                            state: st,
                            id: (match f.id {
                                Some(x) => x,
                                None => Seq::empty(),
                            }),
                            bindings: (match f.bindings {
                                Some(x) => x,
                                None => Seq::empty(),
                            }),
                        },
                    ),
                ),
                None => None,
            }
        } else if m == w_request_default_config() {
            Some(CtlView::RequestDefaultConfig)
        } else if m == w_default_config() {
            match f.config {
                Some(c) => Some(CtlView::DefaultConfig(c)),
                None => None,
            }
        } else if m == w_set_config() {
            match f.config {
                Some(c) => Some(CtlView::SetConfig(c)),
                None => None,
            }
        } else {
            None
        },
    }
}

/// Parse a whole control payload: one object and nothing but whitespace
/// around it.
pub open spec fn parse_control(s: Seq<u8>) -> Option<CtlView> {
    let i = skip_ws(s, 0);
    if i < s.len() && s[i] == 123 {
        match parse_pairs(s, i + 1, no_fields(), s.len()) {
            Some(fp) => if skip_ws(s, fp.1) == s.len() {
                finish_fields(fp.0)
            } else {
                None
            },
            None => None,
        }
    } else {
        None
    }
}

struct CtlFieldsX {
    method: Option<Vec<u8>>,
    state: Option<Vec<u8>>,
    id: Option<Vec<u8>>,
    config: Option<Vec<u8>>,
    bindings: Option<Vec<Vec<u8>>>,
}

spec fn fields_view(f: &CtlFieldsX) -> CtlFields {
    CtlFields {
        method: (match f.method {
            Some(ref v) => Some(v@),
            None => None,
        }),
        state: (match f.state {
            Some(ref v) => Some(v@),
            None => None,
        }),
        id: (match f.id {
            Some(ref v) => Some(v@),
            None => None,
        }),
        config: (match f.config {
            Some(ref v) => Some(v@),
            None => None,
        }),
        bindings: (match f.bindings {
            Some(ref v) => Some(seq_views(v@)),
            None => None,
        }),
    }
}

fn parse_pairs_rec(s: &Vec<u8>, i: usize, f: CtlFieldsX, fuel: usize) -> (r: Option<
    (CtlFieldsX, usize),
>)
    requires
        i <= s@.len(),
    ensures
        (match r {
            Some(p) => parse_pairs(s@, i as int, fields_view(&f), fuel as nat) == Some(
                (fields_view(&p.0), p.1 as int),
            ) && p.1 <= s@.len(),
            None => parse_pairs(s@, i as int, fields_view(&f), fuel as nat) is None,
        }),
    decreases fuel,
{
    if fuel == 0 {
        return None;
    }
    let i1 = skip_ws_exec(s, i);
    if i1 < s.len() && s[i1] == 125 {
        return Some((f, i1 + 1));
    }
    match parse_string_exec(s, i1) {
        None => None,
        Some((key, k1)) => {
            let i2 = skip_ws_exec(s, k1);
            if i2 < s.len() && s[i2] == 58 {
                let i3 = skip_ws_exec(s, i2 + 1);
                let step: Option<(CtlFieldsX, usize)> = if bytes_eq(&key, &v_method()) {
                    match parse_string_exec(s, i3) {
                        Some((v, j)) => Some((CtlFieldsX { method: Some(v), ..f }, j)),
                        None => None,
                    }
                } else if bytes_eq(&key, &v_state()) {
                    match parse_string_exec(s, i3) {
                        Some((v, j)) => Some((CtlFieldsX { state: Some(v), ..f }, j)),
                        None => None,
                    }
                } else if bytes_eq(&key, &v_id()) {
                    match parse_string_exec(s, i3) {
                        Some((v, j)) => Some((CtlFieldsX { id: Some(v), ..f }, j)),
                        None => None,
                    }
                } else if bytes_eq(&key, &v_config()) {
                    match parse_string_exec(s, i3) {
                        Some((v, j)) => Some((CtlFieldsX { config: Some(v), ..f }, j)),
                        None => None,
                    }
                } else if bytes_eq(&key, &v_bindings()) {
                    if i3 < s.len() && s[i3] == 91 {
                        match parse_str_array_exec(s, i3 + 1, fuel) {
                            Some((a, j)) => Some((CtlFieldsX { bindings: Some(a), ..f }, j)),
                            None => None,
                        }
                    } else {
                        None
                    }
                } else {
                    match skip_value_exec(s, i3, fuel) {
                        Some(j) => Some((f, j)),
                        None => None,
                    }
                };
                match step {
                    None => None,
                    Some((f2, j)) => {
                        let i4 = skip_ws_exec(s, j);
                        if i4 < s.len() && s[i4] == 44 {
                            parse_pairs_rec(s, i4 + 1, f2, fuel - 1)
                        } else if i4 < s.len() && s[i4] == 125 {
                            Some((f2, i4 + 1))
                        } else {
                            None
                        }
                    },
                }
            } else {
                None
            }
        },
    }
}

fn finish_fields_exec(f: CtlFieldsX) -> (r: Option<ProtocolWrapper>)
    ensures
        (match r {
            Some(w) => finish_fields(fields_view(&f)) == Some(w@),
            None => finish_fields(fields_view(&f)) is None,
        }),
{
    match f.method {
        None => None,
        Some(m) => {
            if bytes_eq(&m, &v_request_state()) {
                Some(ProtocolWrapper::RequestState)
            } else if bytes_eq(&m, &v_state()) {
                match f.state {
                    Some(st) => {
                        let id = match f.id {
                            Some(x) => x,
                            None => Vec::new(),
                        };
                        let bindings = match f.bindings {
                            Some(x) => x,
                            None => Vec::new(),
                        };
                        proof {
                            assert(seq_views(Seq::<Vec<u8>>::empty())
                                =~= Seq::<Seq<u8>>::empty());
                        }
                        Some(ProtocolWrapper::State(StateData { state: st, id, bindings }))
                    },
                    None => None,
                }
            } else if bytes_eq(&m, &v_request_default_config()) {
                Some(ProtocolWrapper::RequestDefaultConfig)
            } else if bytes_eq(&m, &v_default_config()) {
                match f.config {
                    Some(c) => Some(ProtocolWrapper::DefaultConfig(ConfigData { config: c })),
                    None => None,
                }
            } else if bytes_eq(&m, &v_set_config()) {
                match f.config {
                    Some(c) => Some(ProtocolWrapper::SetConfig(ConfigData { config: c })),
                    None => None,
                }
            } else {
                None
            }
        },
    }
}

/// Parse a JSON payload as a control message; `None` means the payload is
/// malformed or belongs to another protocol.
pub fn parse_control_exec(s: &Vec<u8>) -> (r: Option<ProtocolWrapper>)
    ensures
        (match r {
            Some(w) => parse_control(s@) == Some(w@),
            None => parse_control(s@) is None,
        }),
{
    let i = skip_ws_exec(s, 0);
    if i < s.len() && s[i] == 123 {
        let f0 = CtlFieldsX { method: None, state: None, id: None, config: None, bindings: None };
        proof {
            assert(fields_view(&f0) =~= no_fields());
        }
        match parse_pairs_rec(s, i + 1, f0, s.len()) {
            Some((f, j)) => {
                if skip_ws_exec(s, j) == s.len() {
                    finish_fields_exec(f)
                } else {
                    None
                }
            },
            None => None,
        }
    } else {
        None
    }
}

// --- encoding ---

/// A quoted word that needs no escaping.
pub open spec fn qraw(w: Seq<u8>) -> Seq<u8> {
    seq![34u8] + w + seq![34u8]
}

/// A quoted string body, escaped.
pub open spec fn qstr(v: Seq<u8>) -> Seq<u8> {
    seq![34u8] + esc(v) + seq![34u8]
}

pub open spec fn enc_arr_items(bs: Seq<Seq<u8>>) -> Seq<u8>
    decreases bs.len(),
{
    if bs.len() == 0 {
        Seq::empty()
    } else if bs.len() == 1 {
        qstr(bs[0])
    } else {
        qstr(bs.first()) + seq![44u8] + enc_arr_items(bs.drop_first())
    }
}

pub open spec fn enc_arr(bs: Seq<Seq<u8>>) -> Seq<u8> {
    seq![91u8] + enc_arr_items(bs) + seq![93u8]
}

/// The canonical encoding of a control message: an object whose first pair
/// is the method tag, followed by the message's own fields.
pub open spec fn enc_control(c: CtlView) -> Seq<u8> {
    match c {
        CtlView::RequestState => seq![123u8] + qraw(w_method()) + seq![58u8] + qraw(
            w_request_state(),
        ) + seq![125u8],
        CtlView::RequestDefaultConfig => seq![123u8] + qraw(w_method()) + seq![58u8] + qraw(
            w_request_default_config(),
        ) + seq![125u8],
        CtlView::State(sd) => seq![123u8] + qraw(w_method()) + seq![58u8] + qraw(w_state())
            + seq![44u8] + qraw(w_state()) + seq![58u8] + qstr(sd.state) + seq![44u8] + qraw(
            w_id(),
        ) + seq![58u8] + qstr(sd.id) + seq![44u8] + qraw(w_bindings()) + seq![58u8] + enc_arr(
            sd.bindings,
        ) + seq![125u8],
        CtlView::DefaultConfig(c) => seq![123u8] + qraw(w_method()) + seq![58u8] + qraw(
            w_default_config(),
        ) + seq![44u8] + qraw(w_config()) + seq![58u8] + qstr(c) + seq![125u8],
        CtlView::SetConfig(c) => seq![123u8] + qraw(w_method()) + seq![58u8] + qraw(
            w_set_config(),
        ) + seq![44u8] + qraw(w_config()) + seq![58u8] + qstr(c) + seq![125u8],
    }
}

proof fn lemma_enc_arr_items_push(bs: Seq<Seq<u8>>, x: Seq<u8>)
    ensures
        bs.len() == 0 ==> enc_arr_items(bs.push(x)) == qstr(x),
        bs.len() > 0 ==> enc_arr_items(bs.push(x)) == enc_arr_items(bs) + seq![44u8] + qstr(x),
    decreases bs.len(),
{
    let p = bs.push(x);
    if bs.len() == 0 {
        assert(p.len() == 1);
        assert(p[0] == x);
    } else if bs.len() == 1 {
        assert(p.first() == bs[0]);
        assert(p.drop_first() =~= seq![x]);
        assert(enc_arr_items(seq![x]) == qstr(x));
        assert(enc_arr_items(p) =~= enc_arr_items(bs) + seq![44u8] + qstr(x));
    } else {
        lemma_enc_arr_items_push(bs.drop_first(), x);
        assert(p.drop_first() =~= bs.drop_first().push(x));
        assert(p.first() == bs.first());
        assert(enc_arr_items(p) =~= enc_arr_items(bs) + seq![44u8] + qstr(x));
    }
}

fn qstr_exec(v: &Vec<u8>) -> (r: Vec<u8>)
    ensures
        r@ == qstr(v@),
{
    let mut out: Vec<u8> = Vec::new();
    out.push(34);
    let e = esc_exec(v);
    push_all(&mut out, &e);
    out.push(34);
    proof {
        assert(out@ =~= qstr(v@));
    }
    out
}

fn enc_arr_exec(bs: &Vec<Vec<u8>>) -> (r: Vec<u8>)
    ensures
        r@ == enc_arr(seq_views(bs@)),
{
    let mut out: Vec<u8> = Vec::new();
    out.push(91);
    let mut k: usize = 0;
    proof {
        assert(seq_views(bs@).take(0) =~= Seq::<Seq<u8>>::empty());
        assert(out@ =~= seq![91u8] + enc_arr_items(seq_views(bs@).take(0)));
    }
    while k < bs.len()
        invariant
            k <= bs@.len(),
            out@ == seq![91u8] + enc_arr_items(seq_views(bs@).take(k as int)),
        decreases bs@.len() - k,
    {
        if k > 0 {
            out.push(44);
        }
        let q = qstr_exec(&bs[k]);
        push_all(&mut out, &q);
        proof {
            let vs = seq_views(bs@);
            assert(vs.take(k + 1) =~= vs.take(k as int).push(vs[k as int]));
            lemma_enc_arr_items_push(vs.take(k as int), vs[k as int]);
            assert(vs[k as int] == bs@[k as int]@);
            assert(out@ =~= seq![91u8] + enc_arr_items(vs.take(k + 1)));
        }
        k = k + 1;
    }
    out.push(93);
    proof {
        assert(seq_views(bs@).take(bs@.len() as int) =~= seq_views(bs@));
        assert(out@ =~= enc_arr(seq_views(bs@)));
    }
    out
}

impl ProtocolWrapper {
    /// The wire payload of this control message.
    #[verifier::rlimit(60)]
    pub fn encode(&self) -> (r: Vec<u8>)
        ensures
            r@ == enc_control(self@),
    {
        let mut out: Vec<u8> = Vec::new();
        out.push(123);
        out.push(34);
        push_all(&mut out, &v_method());
        out.push(34);
        out.push(58);
        match self {
            ProtocolWrapper::RequestState => {
                out.push(34);
                push_all(&mut out, &v_request_state());
                out.push(34);
                out.push(125);
                proof {
                    assert(out@ =~= enc_control(self@));
                }
            },
            ProtocolWrapper::RequestDefaultConfig => {
                out.push(34);
                push_all(&mut out, &v_request_default_config());
                out.push(34);
                out.push(125);
                proof {
                    assert(out@ =~= enc_control(self@));
                }
            },
            ProtocolWrapper::State(sd) => {
                out.push(34);
                push_all(&mut out, &v_state());
                out.push(34);
                out.push(44);
                out.push(34);
                push_all(&mut out, &v_state());
                out.push(34);
                out.push(58);
                let q = qstr_exec(&sd.state);
                push_all(&mut out, &q);
                out.push(44);
                out.push(34);
                push_all(&mut out, &v_id());
                out.push(34);
                out.push(58);
                let q2 = qstr_exec(&sd.id);
                push_all(&mut out, &q2);
                out.push(44);
                out.push(34);
                push_all(&mut out, &v_bindings());
                out.push(34);
                out.push(58);
                let a = enc_arr_exec(&sd.bindings);
                push_all(&mut out, &a);
                out.push(125);
                proof {
                    assert(out@ =~= enc_control(self@));
                }
            },
            ProtocolWrapper::DefaultConfig(c) => {
                out.push(34);
                push_all(&mut out, &v_default_config());
                out.push(34);
                out.push(44);
                out.push(34);
                push_all(&mut out, &v_config());
                out.push(34);
                out.push(58);
                let q = qstr_exec(&c.config);
                push_all(&mut out, &q);
                out.push(125);
                proof {
                    assert(out@ =~= enc_control(self@));
                }
            },
            ProtocolWrapper::SetConfig(c) => {
                out.push(34);
                push_all(&mut out, &v_set_config());
                out.push(34);
                out.push(44);
                out.push(34);
                push_all(&mut out, &v_config());
                out.push(34);
                out.push(58);
                let q = qstr_exec(&c.config);
                push_all(&mut out, &q);
                out.push(125);
                proof {
                    assert(out@ =~= enc_control(self@));
                }
            },
        }
        out
    }
}

// --- losslessness of the control codec ---

/// A quoted, escaped string at `i` reads back as the string itself.
pub proof fn lemma_parse_quoted(s: Seq<u8>, i: int, v: Seq<u8>)
    requires
        0 <= i,
        i + qstr(v).len() <= s.len(),
        forall|k: int| 0 <= k && k < qstr(v).len() ==> s[i + k] == #[trigger] qstr(v)[k],
    ensures
        parse_string(s, i) == Some((v, i + qstr(v).len())),
{
    assert(qstr(v).len() == esc(v).len() + 2);
    assert(s[i] == qstr(v)[0]);
    assert(qstr(v)[0] == 34);
    assert forall|k: int| 0 <= k && k < esc(v).len() implies s[(i + 1) + k] == #[trigger] esc(
        v,
    )[k] by {
        assert(qstr(v)[1 + k] == esc(v)[k]);
        assert(s[i + (1 + k)] == qstr(v)[1 + k]);
    }
    assert(s[(i + 1) + esc(v).len()] == qstr(v)[qstr(v).len() - 1]);
    assert(qstr(v)[qstr(v).len() - 1] == 34);
    lemma_parse_escaped(s, i + 1, v, Seq::empty());
    assert(Seq::<u8>::empty() + v =~= v);
}

proof fn lemma_enc_arr_items_len(bs: Seq<Seq<u8>>)
    ensures
        enc_arr_items(bs).len() >= bs.len(),
    decreases bs.len(),
{
    if bs.len() > 1 {
        lemma_enc_arr_items_len(bs.drop_first());
    }
}

/// An encoded array of strings, scanned from just after its opening
/// bracket, reads back as exactly those strings.
pub proof fn lemma_parse_arr(s: Seq<u8>, i: int, bs: Seq<Seq<u8>>, acc: Seq<Seq<u8>>, fuel: nat)
    requires
        0 <= i,
        i + enc_arr_items(bs).len() + 1 <= s.len(),
        forall|k: int|
            0 <= k && k < enc_arr_items(bs).len() ==> s[i + k] == #[trigger] enc_arr_items(bs)[k],
        s[i + enc_arr_items(bs).len()] == 93,
        fuel >= bs.len() + 1,
    ensures
        parse_str_array(s, i, acc, fuel) == Some((acc + bs, i + enc_arr_items(bs).len() + 1)),
    decreases bs.len(),
{
    if bs.len() == 0 {
        assert(enc_arr_items(bs) =~= Seq::<u8>::empty());
        assert(s[i] == 93);
        assert(skip_ws(s, i) == i);
        assert(acc + bs =~= acc);
    } else {
        let e = enc_arr_items(bs);
        let q = qstr(bs.first());
        if bs.len() == 1 {
            assert(e == q);
        } else {
            assert(e == q + seq![44u8] + enc_arr_items(bs.drop_first()));
        }
        assert forall|k: int| 0 <= k && k < q.len() implies s[i + k] == #[trigger] q[k] by {
            assert(e[k] == q[k]);
        }
        assert(q[0] == 34);
        assert(s[i] == 34);
        assert(skip_ws(s, i) == i);
        lemma_parse_quoted(s, i, bs.first());
        let j = i + q.len();
        if bs.len() == 1 {
            assert(s[j] == 93);
            assert(skip_ws(s, j) == j);
            assert(acc.push(bs.first()) =~= acc + bs);
        } else {
            let bs2 = bs.drop_first();
            let e2 = enc_arr_items(bs2);
            assert(s[j] == e[q.len() as int]);
            assert(e[q.len() as int] == 44);
            assert(skip_ws(s, j) == j);
            assert forall|k: int| 0 <= k && k < e2.len() implies s[(j + 1) + k] == #[trigger] e2[k]
                by {
                assert(e[q.len() + 1 + k] == e2[k]);
                assert(s[i + (q.len() + 1 + k)] == e[q.len() + 1 + k]);
            }
            assert(s[(j + 1) + e2.len()] == s[i + e.len()]);
            lemma_parse_arr(s, j + 1, bs2, acc.push(bs.first()), (fuel - 1) as nat);
            assert(acc.push(bs.first()) + bs2 =~= acc + bs);
        }
    }
}

/// The walk for a message that carries only its method tag:
/// `{"method":<tag>}`.
#[verifier::rlimit(100)]
proof fn lemma_tag_only_variant(s: Seq<u8>, tag: Seq<u8>)
    requires
        s == seq![123u8] + qraw(w_method()) + seq![58u8] + qraw(tag) + seq![125u8],
        forall|k: int| 0 <= k && k < tag.len() ==> #[trigger] tag[k] != 34 && tag[k] != 92,
    ensures
        parse_pairs(s, 1, no_fields(), s.len()) == Some(
            (CtlFields { method: Some(tag), ..no_fields() }, s.len() as int),
        ),
        skip_ws(s, 0) == 0,
        s.len() >= 2,
        s[0] == 123,
        skip_ws(s, s.len() as int) == s.len(),
{
    let tl = tag.len() as int;
    assert(s.len() == 13 + tl);
    assert forall|k: int| 0 <= k && k < 6 implies #[trigger] w_method()[k] != 34 && w_method()[k]
        != 92 by {}
    assert(s[0] == 123 && s[1] == 34 && s[8] == 34 && s[9] == 58 && s[10] == 34);
    assert forall|k: int| 0 <= k && k < 6 implies s[2 + k] == w_method()[k] by {}
    assert forall|k: int| 0 <= k && k < tl implies s[11 + k] == tag[k] by {}
    assert(s[11 + tl] == 34);
    assert(s[12 + tl] == 125);
    assert(skip_ws(s, 0) == 0);
    assert(skip_ws(s, 1) == 1);
    lemma_parse_plain_word(s, 2, w_method(), Seq::empty());
    assert(Seq::<u8>::empty() + w_method() =~= w_method());
    assert(skip_ws(s, 9) == 9);
    assert(skip_ws(s, 10) == 10);
    lemma_parse_plain_word(s, 11, tag, Seq::empty());
    assert(Seq::<u8>::empty() + tag =~= tag);
    assert(skip_ws(s, 12 + tl) == 12 + tl);
    assert(skip_ws(s, 13 + tl) == 13 + tl);
    assert(parse_pairs(s, 1, no_fields(), s.len()) == Some(
        (CtlFields { method: Some(tag), ..no_fields() }, s.len() as int),
    ));
}

#[verifier::rlimit(100)]
proof fn lemma_request_state_rt()
    ensures
        parse_control(enc_control(CtlView::RequestState)) == Some(CtlView::RequestState),
{
    let s = enc_control(CtlView::RequestState);
    assert forall|k: int|
        0 <= k && k < 12 implies #[trigger] w_request_state()[k] != 34 && w_request_state()[k]
            != 92 by {}
    lemma_tag_only_variant(s, w_request_state());
}

#[verifier::rlimit(100)]
proof fn lemma_request_default_config_rt()
    ensures
        parse_control(enc_control(CtlView::RequestDefaultConfig)) == Some(
            CtlView::RequestDefaultConfig,
        ),
{
    let s = enc_control(CtlView::RequestDefaultConfig);
    assert forall|k: int|
        0 <= k && k < 20 implies #[trigger] w_request_default_config()[k] != 34
            && w_request_default_config()[k] != 92 by {}
    lemma_tag_only_variant(s, w_request_default_config());
    assert(w_request_default_config().len() != w_request_state().len());
    assert(w_request_default_config().len() != w_state().len());
}

#[verifier::rlimit(100)]
proof fn lemma_default_config_rt(cv: Seq<u8>)
    ensures
        parse_control(enc_control(CtlView::DefaultConfig(cv))) == Some(CtlView::DefaultConfig(cv)),
{
    let s = enc_control(CtlView::DefaultConfig(cv));
    assert forall|k: int|
        0 <= k && k < 13 implies #[trigger] w_default_config()[k] != 34 && w_default_config()[k]
            != 92 by {}
    lemma_config_variant(s, w_default_config(), cv);
    assert(w_default_config().len() != w_request_state().len());
    assert(w_default_config().len() != w_state().len());
    assert(w_default_config().len() != w_request_default_config().len());
}

#[verifier::rlimit(100)]
proof fn lemma_set_config_rt(cv: Seq<u8>)
    ensures
        parse_control(enc_control(CtlView::SetConfig(cv))) == Some(CtlView::SetConfig(cv)),
{
    let s = enc_control(CtlView::SetConfig(cv));
    assert forall|k: int|
        0 <= k && k < 9 implies #[trigger] w_set_config()[k] != 34 && w_set_config()[k] != 92
        by {}
    lemma_config_variant(s, w_set_config(), cv);
    assert(w_set_config().len() != w_request_state().len());
    assert(w_set_config().len() != w_state().len());
    assert(w_set_config().len() != w_request_default_config().len());
    assert(w_set_config().len() != w_default_config().len());
}

/// Every control message reads back from its canonical encoding exactly:
/// the control codec is lossless.
pub proof fn lemma_control_round_trip(c: CtlView)
    ensures
        parse_control(enc_control(c)) == Some(c),
{
    match c {
        CtlView::RequestState => lemma_request_state_rt(),
        CtlView::RequestDefaultConfig => lemma_request_default_config_rt(),
        CtlView::DefaultConfig(cv) => lemma_default_config_rt(cv),
        CtlView::SetConfig(cv) => lemma_set_config_rt(cv),
        CtlView::State(sd) => {
            lemma_state_variant(sd);
            assert(w_state().len() != w_request_state().len());
        },
    }
}

/// The common walk for the two config-carrying messages, whose encodings
/// share one shape: `{"method":<tag>,"config":<blob>}`.
#[verifier::rlimit(100)]
proof fn lemma_config_variant(s: Seq<u8>, tag: Seq<u8>, cv: Seq<u8>)
    requires
        s == seq![123u8] + qraw(w_method()) + seq![58u8] + qraw(tag) + seq![44u8] + qraw(
            w_config(),
        ) + seq![58u8] + qstr(cv) + seq![125u8],
        forall|k: int| 0 <= k && k < tag.len() ==> #[trigger] tag[k] != 34 && tag[k] != 92,
        tag.len() != w_method().len() || tag[0] != w_method()[0],
        tag.len() != w_state().len(),
        tag.len() != w_id().len(),
        tag.len() != w_bindings().len(),
        tag != w_config(),
    ensures
        parse_pairs(s, 1, no_fields(), s.len()) == Some(
            (CtlFields { method: Some(tag), config: Some(cv), ..no_fields() }, s.len() as int),
        ),
        skip_ws(s, 0) == 0,
        s.len() >= 2,
        s[0] == 123,
        skip_ws(s, s.len() as int) == s.len(),
{
    let tl = tag.len() as int;
    let ql = qstr(cv).len() as int;
    let t = 12 + tl;
    assert(s.len() == 23 + tl + ql);
    assert forall|k: int| 0 <= k && k < 6 implies #[trigger] w_method()[k] != 34 && w_method()[k]
        != 92 by {}
    assert forall|k: int| 0 <= k && k < 6 implies #[trigger] w_config()[k] != 34 && w_config()[k]
        != 92 by {}
    assert(s[0] == 123 && s[1] == 34 && s[8] == 34 && s[9] == 58 && s[10] == 34);
    assert forall|k: int| 0 <= k && k < 6 implies s[2 + k] == w_method()[k] by {}
    assert forall|k: int| 0 <= k && k < tl implies s[11 + k] == tag[k] by {}
    assert(s[11 + tl] == 34);
    assert(s[t] == 44 && s[t + 1] == 34 && s[t + 8] == 34 && s[t + 9] == 58);
    assert forall|k: int| 0 <= k && k < 6 implies s[t + 2 + k] == w_config()[k] by {}
    assert forall|k: int| 0 <= k && k < ql implies s[t + 10 + k] == #[trigger] qstr(cv)[k] by {}
    assert(s[t + 10 + ql] == 125);

    assert(skip_ws(s, 0) == 0);
    assert(skip_ws(s, 1) == 1);
    lemma_parse_plain_word(s, 2, w_method(), Seq::empty());
    assert(Seq::<u8>::empty() + w_method() =~= w_method());
    assert(skip_ws(s, 9) == 9);
    assert(skip_ws(s, 10) == 10);
    lemma_parse_plain_word(s, 11, tag, Seq::empty());
    assert(Seq::<u8>::empty() + tag =~= tag);
    assert(skip_ws(s, t) == t);
    assert(parse_pairs(s, 1, no_fields(), s.len()) == parse_pairs(
        s,
        t + 1,
        CtlFields { method: Some(tag), ..no_fields() },
        (s.len() - 1) as nat,
    ));
    assert(skip_ws(s, t + 1) == t + 1);
    lemma_parse_plain_word(s, t + 2, w_config(), Seq::empty());
    assert(Seq::<u8>::empty() + w_config() =~= w_config());
    assert(skip_ws(s, t + 9) == t + 9);
    assert(skip_ws(s, t + 10) == t + 10);
    assert(qstr(cv)[0] == 34);
    lemma_parse_quoted(s, t + 10, cv);
    assert(skip_ws(s, t + 10 + ql) == t + 10 + ql);
    assert(w_config().len() != w_method().len() || w_config()[0] != w_method()[0]);
    assert(parse_pairs(s, t + 1, CtlFields { method: Some(tag), ..no_fields() }, (s.len()
        - 1) as nat) == Some(
        (CtlFields { method: Some(tag), config: Some(cv), ..no_fields() }, t + 11 + ql),
    ));
    assert(skip_ws(s, s.len() as int) == s.len());
}

spec fn state_enc(sd: StateView) -> Seq<u8> {
    enc_control(CtlView::State(sd))
}

/// Where every byte of a state report's encoding stands.
#[verifier::rlimit(100)]
proof fn lemma_state_bytes(sd: StateView)
    ensures
        state_enc(sd).len() == 47 + qstr(sd.state).len() + qstr(sd.id).len() + enc_arr_items(
            sd.bindings,
        ).len(),
        state_enc(sd)[0] == 123,
        state_enc(sd)[1] == 34,
        state_enc(sd)[8] == 34,
        state_enc(sd)[9] == 58,
        state_enc(sd)[10] == 34,
        state_enc(sd)[16] == 34,
        state_enc(sd)[17] == 44,
        state_enc(sd)[18] == 34,
        state_enc(sd)[24] == 34,
        state_enc(sd)[25] == 58,
        forall|k: int| 0 <= k && k < 6 ==> state_enc(sd)[2 + k] == #[trigger] w_method()[k],
        forall|k: int| 0 <= k && k < 5 ==> state_enc(sd)[11 + k] == #[trigger] w_state()[k],
        forall|k: int| 0 <= k && k < 5 ==> state_enc(sd)[19 + k] == w_state()[k],
        forall|k: int|
            0 <= k && k < qstr(sd.state).len() ==> state_enc(sd)[26 + k] == #[trigger] qstr(
                sd.state,
            )[k],
        state_enc(sd)[26 + qstr(sd.state).len() as int] == 44,
        state_enc(sd)[27 + qstr(sd.state).len() as int] == 34,
        state_enc(sd)[30 + qstr(sd.state).len() as int] == 34,
        state_enc(sd)[31 + qstr(sd.state).len() as int] == 58,
        forall|k: int|
            0 <= k && k < 2 ==> state_enc(sd)[28 + qstr(sd.state).len() as int + k] == #[trigger] w_id()[
                k
            ],
        forall|k: int|
            0 <= k && k < qstr(sd.id).len() ==> state_enc(sd)[32 + qstr(sd.state).len() as int + k]
                == #[trigger] qstr(sd.id)[k],
        state_enc(sd)[32 + qstr(sd.state).len() + qstr(sd.id).len() as int] == 44,
        state_enc(sd)[33 + qstr(sd.state).len() + qstr(sd.id).len() as int] == 34,
        state_enc(sd)[42 + qstr(sd.state).len() + qstr(sd.id).len() as int] == 34,
        state_enc(sd)[43 + qstr(sd.state).len() + qstr(sd.id).len() as int] == 58,
        forall|k: int|
            0 <= k && k < 8 ==> state_enc(sd)[34 + qstr(sd.state).len() + qstr(sd.id).len() as int + k]
                == #[trigger] w_bindings()[k],
        state_enc(sd)[44 + qstr(sd.state).len() + qstr(sd.id).len() as int] == 91,
        forall|k: int|
            0 <= k && k < enc_arr_items(sd.bindings).len() ==> state_enc(sd)[45 + qstr(
                sd.state,
            ).len() + qstr(sd.id).len() as int + k] == #[trigger] enc_arr_items(sd.bindings)[k],
        state_enc(sd)[45 + qstr(sd.state).len() + qstr(sd.id).len() + enc_arr_items(
            sd.bindings,
        ).len() as int] == 93,
        state_enc(sd)[46 + qstr(sd.state).len() + qstr(sd.id).len() + enc_arr_items(
            sd.bindings,
        ).len() as int] == 125,
{
    let s = state_enc(sd);
    let qs = qstr(sd.state).len() as int;
    let qi = qstr(sd.id).len() as int;
    let el = enc_arr_items(sd.bindings).len() as int;
    assert(s.len() == 47 + qs + qi + el);
}


/// The front half of a state report's walk, over any text that spells its
/// shape: the opening brace and the `method` and `state` pairs.
#[verifier::rlimit(100)]
proof fn lemma_state_walk_head(s: Seq<u8>, st: Seq<u8>, qi: int, el: int)
    requires
        qi >= 0,
        el >= 0,
        s.len() == 47 + qstr(st).len() + qi + el,
        s[0] == 123,
        s[1] == 34,
        s[8] == 34,
        s[9] == 58,
        s[10] == 34,
        s[16] == 34,
        s[17] == 44,
        s[18] == 34,
        s[24] == 34,
        s[25] == 58,
        forall|k: int| 0 <= k && k < 6 ==> s[2 + k] == #[trigger] w_method()[k],
        forall|k: int| 0 <= k && k < 5 ==> s[11 + k] == #[trigger] w_state()[k],
        forall|k: int| 0 <= k && k < 5 ==> s[19 + k] == w_state()[k],
        forall|k: int| 0 <= k && k < qstr(st).len() ==> s[26 + k] == #[trigger] qstr(st)[k],
        s[26 + qstr(st).len() as int] == 44,
    ensures
        parse_pairs(s, 1, no_fields(), s.len()) == parse_pairs(
            s,
            27 + qstr(st).len() as int,
            CtlFields { method: Some(w_state()), state: Some(st), ..no_fields() },
            (s.len() - 2) as nat,
        ),
{
    let qs = qstr(st).len() as int;
    assert forall|k: int| 0 <= k && k < 6 implies #[trigger] w_method()[k] != 34 && w_method()[k]
        != 92 by {}
    assert forall|k: int| 0 <= k && k < 5 implies #[trigger] w_state()[k] != 34 && w_state()[k]
        != 92 by {}
    let a = 26 + qs;

    assert(skip_ws(s, 0) == 0);
    assert(skip_ws(s, 1) == 1);
    lemma_parse_plain_word(s, 2, w_method(), Seq::empty());
    assert(Seq::<u8>::empty() + w_method() =~= w_method());
    assert(skip_ws(s, 9) == 9);
    assert(skip_ws(s, 10) == 10);
    lemma_parse_plain_word(s, 11, w_state(), Seq::empty());
    assert(Seq::<u8>::empty() + w_state() =~= w_state());
    assert(skip_ws(s, 17) == 17);
    let f0 = no_fields();
    let f1 = CtlFields { method: Some(w_state()), ..f0 };
    assert(parse_pairs(s, 1, f0, s.len()) == parse_pairs(s, 18, f1, (s.len() - 1) as nat));

    assert(skip_ws(s, 18) == 18);
    lemma_parse_plain_word(s, 19, w_state(), Seq::empty());
    assert(skip_ws(s, 25) == 25);
    assert(qstr(st)[0] == 34);
    assert(s[26] == 34);
    assert(skip_ws(s, 26) == 26);
    lemma_parse_quoted(s, 26, st);
    assert(skip_ws(s, a) == a);
    assert(w_state().len() != w_method().len());
    let f2 = CtlFields { state: Some(st), ..f1 };
    assert(parse_pairs(s, 18, f1, (s.len() - 1) as nat) == parse_pairs(s, a + 1, f2, (s.len()
        - 2) as nat));
    assert(f2 =~= (CtlFields { method: Some(w_state()), state: Some(st), ..no_fields() }));
}

/// The back half of a state report's walk, over any text that spells its
/// shape: the `id` and `bindings` pairs and the closing brace.
#[verifier::rlimit(100)]
proof fn lemma_state_walk_tail(s: Seq<u8>, st: Seq<u8>, idv: Seq<u8>, bs: Seq<Seq<u8>>)
    requires
        s.len() == 47 + qstr(st).len() + qstr(idv).len() + enc_arr_items(bs).len(),
        s[27 + qstr(st).len() as int] == 34,
        s[30 + qstr(st).len() as int] == 34,
        s[31 + qstr(st).len() as int] == 58,
        forall|k: int| 0 <= k && k < 2 ==> s[28 + qstr(st).len() as int + k] == #[trigger] w_id()[
            k
        ],
        forall|k: int|
            0 <= k && k < qstr(idv).len() ==> s[32 + qstr(st).len() as int + k] == #[trigger] qstr(
                idv,
            )[k],
        s[32 + qstr(st).len() + qstr(idv).len() as int] == 44,
        s[33 + qstr(st).len() + qstr(idv).len() as int] == 34,
        s[42 + qstr(st).len() + qstr(idv).len() as int] == 34,
        s[43 + qstr(st).len() + qstr(idv).len() as int] == 58,
        forall|k: int|
            0 <= k && k < 8 ==> s[34 + qstr(st).len() + qstr(idv).len() as int + k]
                == #[trigger] w_bindings()[k],
        s[44 + qstr(st).len() + qstr(idv).len() as int] == 91,
        forall|k: int|
            0 <= k && k < enc_arr_items(bs).len() ==> s[45 + qstr(st).len() + qstr(
                idv,
            ).len() as int + k] == #[trigger] enc_arr_items(bs)[k],
        s[45 + qstr(st).len() + qstr(idv).len() + enc_arr_items(bs).len() as int] == 93,
        s[46 + qstr(st).len() + qstr(idv).len() + enc_arr_items(bs).len() as int] == 125,
    ensures
        parse_pairs(
            s,
            27 + qstr(st).len() as int,
            CtlFields { method: Some(w_state()), state: Some(st), ..no_fields() },
            (s.len() - 2) as nat,
        ) == Some(
            (
                CtlFields {
                    method: Some(w_state()),
                    state: Some(st),
                    id: Some(idv),
                    bindings: Some(bs),
                    ..no_fields()
                },
                s.len() as int,
            ),
        ),
{
    let qs = qstr(st).len() as int;
    let qi = qstr(idv).len() as int;
    let el = enc_arr_items(bs).len() as int;
    lemma_enc_arr_items_len(bs);
    assert forall|k: int| 0 <= k && k < 2 implies #[trigger] w_id()[k] != 34 && w_id()[k] != 92
        by {}
    assert forall|k: int| 0 <= k && k < 8 implies #[trigger] w_bindings()[k] != 34
        && w_bindings()[k] != 92 by {}
    let a = 26 + qs;
    let b = a + 6 + qi;

    let f1 = CtlFields { method: Some(w_state()), ..no_fields() };
    let f2 = CtlFields { state: Some(st), ..f1 };
    assert(skip_ws(s, a + 1) == a + 1);
    lemma_parse_plain_word(s, a + 2, w_id(), Seq::empty());
    assert(Seq::<u8>::empty() + w_id() =~= w_id());
    assert(skip_ws(s, a + 5) == a + 5);
    assert(qstr(idv)[0] == 34);
    assert(s[a + 6] == 34);
    assert(skip_ws(s, a + 6) == a + 6);
    lemma_parse_quoted(s, a + 6, idv);
    assert(skip_ws(s, b) == b);
    assert(w_id().len() != w_method().len() && w_id().len() != w_state().len());
    let f3 = CtlFields { id: Some(idv), ..f2 };
    assert(parse_pairs(s, a + 1, f2, (s.len() - 2) as nat) == parse_pairs(s, b + 1, f3, (s.len()
        - 3) as nat));

    assert(skip_ws(s, b + 1) == b + 1);
    lemma_parse_plain_word(s, b + 2, w_bindings(), Seq::empty());
    assert(Seq::<u8>::empty() + w_bindings() =~= w_bindings());
    assert(skip_ws(s, b + 11) == b + 11);
    assert(skip_ws(s, b + 12) == b + 12);
    assert((s.len() - 3) as nat >= bs.len() + 1);
    lemma_parse_arr(s, b + 13, bs, Seq::empty(), (s.len() - 3) as nat);
    assert(Seq::<Seq<u8>>::empty() + bs =~= bs);
    assert(skip_ws(s, b + 14 + el) == b + 14 + el);
    assert(w_bindings().len() != w_method().len() && w_bindings().len() != w_state().len()
        && w_bindings().len() != w_id().len() && w_bindings().len() != w_config().len());
    let f4 = CtlFields { bindings: Some(bs), ..f3 };
    assert(parse_pairs(s, b + 1, f3, (s.len() - 3) as nat) == Some((f4, b + 15 + el)));
    assert(b + 15 + el == s.len());
    assert(f4 =~= (CtlFields {
        method: Some(w_state()),
        state: Some(st),
        id: Some(idv),
        bindings: Some(bs),
        ..no_fields()
    }));
}

/// The pairs of a state report's encoding, end to end.
#[verifier::rlimit(100)]
proof fn lemma_state_pairs(sd: StateView)
    ensures
        parse_pairs(state_enc(sd), 1, no_fields(), state_enc(sd).len()) == Some(
            (
                CtlFields {
                    method: Some(w_state()),
                    state: Some(sd.state),
                    id: Some(sd.id),
                    bindings: Some(sd.bindings),
                    ..no_fields()
                },
                state_enc(sd).len() as int,
            ),
        ),
        state_enc(sd)[0] == 123,
        state_enc(sd).len() >= 2,
{
    let s = state_enc(sd);
    lemma_state_bytes(sd);
    lemma_state_walk_head(s, sd.state, qstr(sd.id).len() as int, enc_arr_items(
        sd.bindings,
    ).len() as int);
    lemma_state_walk_tail(s, sd.state, sd.id, sd.bindings);
}

/// The walk for a full state report:
/// `{"method":"state","state":X,"id":Y,"bindings":[Z]}`.
#[verifier::rlimit(100)]
proof fn lemma_state_variant(sd: StateView)
    ensures
        parse_control(enc_control(CtlView::State(sd))) == Some(CtlView::State(sd)),
{
    let s = state_enc(sd);
    lemma_state_pairs(sd);
    let f4 = CtlFields {
        method: Some(w_state()),
        state: Some(sd.state),
        id: Some(sd.id),
        bindings: Some(sd.bindings),
        ..no_fields()
    };
    assert(skip_ws(s, 0) == 0);
    assert(skip_ws(s, s.len() as int) == s.len());
    assert(w_state().len() != w_request_state().len());
    assert(finish_fields(f4) == Some(
        CtlView::State(StateView { state: sd.state, id: sd.id, bindings: sd.bindings }),
    ));
    assert(StateView { state: sd.state, id: sd.id, bindings: sd.bindings } =~= sd);
}

} // verus!
