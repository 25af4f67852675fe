//! The wire protocol: a closed union of message kinds, each carried on the
//! transport as a four-frame envelope `[empty, empty, method-name, payload]`.
//! An envelope with an unknown method name decodes to a raw named-binary
//! message so that foreign traffic survives the trip upward unmodified.

use vstd::prelude::*;
use crate::json::{
    bytes_eq, dec_exec, dec_of, is_digit, lemma_dec_digits, lemma_parse_number_at,
    lemma_parse_plain_word, parse_number, parse_number_exec, parse_string, parse_string_exec,
    push_all, skip_value, skip_value_exec, skip_ws, skip_ws_exec,
};
use crate::words::{v_json, v_orig, v_p2p_ready, v_pong, v_recv, w_json, w_orig, w_p2p_ready, w_pong, w_recv};
use crate::protocol_wrapper::qraw;

verus! {

/// A latency probe response: when the probe left its origin and when it was
/// received, in milliseconds.
#[derive(Clone, Copy, Debug, PartialEq, Eq, Structural)]
pub struct PongData {
    pub orig: u64,
    pub recv: u64,
}

/// A raw wire message: its method name and payload bytes.
#[derive(Debug, Clone)]
pub struct NamedBinaryData {
    pub name: Vec<u8>,
    pub data: Vec<u8>,
}

/// The wire-level message kinds: a generic JSON payload, a latency probe
/// response, the readiness signal, and anything else as raw named binary.
#[derive(Debug, Clone)]
pub enum Protocol {
    Json(Vec<u8>),
    Pong(PongData),
    P2pReady,
    NamedBinary(NamedBinaryData),
}

#[verifier::ext_equal]
pub enum ProtoView {
    Json(Seq<u8>),
    Pong { orig: u64, recv: u64 },
    P2pReady,
    NamedBinary { name: Seq<u8>, data: Seq<u8> },
}

impl View for Protocol {
    type V = ProtoView;

    open spec fn view(&self) -> ProtoView {
        match self {
            Protocol::Json(v) => ProtoView::Json(v@),
            Protocol::Pong(p) => ProtoView::Pong { orig: p.orig, recv: p.recv },
            Protocol::P2pReady => ProtoView::P2pReady,
            Protocol::NamedBinary(nb) => ProtoView::NamedBinary { name: nb.name@, data: nb.data@ },
        }
    }
}

impl PartialEq for Protocol {
    fn eq(&self, other: &Protocol) -> (r: bool) {
        match (self, other) {
            (Protocol::Json(a), Protocol::Json(b)) => bytes_eq(a, b),
            (Protocol::Pong(a), Protocol::Pong(b)) => a.orig == b.orig && a.recv == b.recv,
            (Protocol::P2pReady, Protocol::P2pReady) => true,
            (Protocol::NamedBinary(a), Protocol::NamedBinary(b)) => bytes_eq(&a.name, &b.name)
                && bytes_eq(&a.data, &b.data),
            _ => false,
        }
    }
}

impl vstd::std_specs::cmp::PartialEqSpecImpl for Protocol {
    open spec fn obeys_eq_spec() -> bool {
        true
    }

    open spec fn eq_spec(&self, other: &Protocol) -> bool {
        self@ == other@
    }
}

/// The payload of a pong: an object with the numeric fields `orig` and
/// `recv`.
pub open spec fn enc_pong(orig: u64, recv: u64) -> Seq<u8> {
    seq![123u8] + qraw(w_orig()) + seq![58u8] + dec_of(orig as nat) + seq![44u8] + qraw(w_recv())
        + seq![58u8] + dec_of(recv as nat) + seq![125u8]
}

/// Scan the pairs of a pong object from `i` (just after the opening brace):
/// `orig` and `recv` carry numbers, an unknown key's value is skipped.
pub open spec fn parse_pong_pairs(
    s: Seq<u8>,
    i: int,
    orig: Option<u64>,
    recv: Option<u64>,
    fuel: nat,
) -> Option<((Option<u64>, Option<u64>), int)>
    decreases fuel,
{
    if fuel == 0 {
        None
    } else {
        let i1 = skip_ws(s, i);
        if i1 < s.len() && s[i1] == 125 {
            Some(((orig, recv), i1 + 1))
        } else {
            match parse_string(s, i1) {
                None => None,
                Some(kp) => {
                    let i2 = skip_ws(s, kp.1);
                    if i2 < s.len() && s[i2] == 58 {
                        let i3 = skip_ws(s, i2 + 1);
                        let step: Option<((Option<u64>, Option<u64>), int)> = if kp.0
                            == w_orig() {
                            match parse_number(s, i3) {
                                Some(np) => Some(((Some(np.0), recv), np.1)),
                                None => None,
                            }
                        } else if kp.0 == w_recv() {
                            match parse_number(s, i3) {
                                Some(np) => Some(((orig, Some(np.0)), np.1)),
                                None => None,
                            }
                        } else {
                            match skip_value(s, i3, fuel) {
                                Some(j) => Some(((orig, recv), j)),
                                None => None,
                            }
                        };
                        match step {
                            None => None,
                            Some(sp) => {
                                let i4 = skip_ws(s, sp.1);
                                if i4 < s.len() && s[i4] == 44 {
                                    parse_pong_pairs(s, i4 + 1, sp.0.0, sp.0.1, (fuel - 1) as nat)
                                } else if i4 < s.len() && s[i4] == 125 {
                                    Some((sp.0, i4 + 1))
                                } else {
                                    None
                                }
                            },
                        }
                    } else {
                        None
                    }
                },
            }
        }
    }
}

/// Parse a pong payload; both fields must be present.
pub open spec fn parse_pong(s: Seq<u8>) -> Option<(u64, u64)> {
    let i = skip_ws(s, 0);
    if i < s.len() && s[i] == 123 {
        match parse_pong_pairs(s, i + 1, None, None, s.len()) {
            Some(p) => if skip_ws(s, p.1) == s.len() {
                match p.0.0 {
                    Some(o) => match p.0.1 {
                        Some(r) => Some((o, r)),
                        None => None,
                    },
                    None => None,
                }
            } else {
                None
            },
            None => None,
        }
    } else {
        None
    }
}

fn parse_pong_pairs_rec(
    s: &Vec<u8>,
    i: usize,
    orig: Option<u64>,
    recv: Option<u64>,
    fuel: usize,
) -> (r: Option<((Option<u64>, Option<u64>), usize)>)
    requires
        i <= s@.len(),
    ensures
        (match r {
            Some(p) => parse_pong_pairs(s@, i as int, orig, recv, fuel as nat) == Some(
                (p.0, p.1 as int),
            ) && p.1 <= s@.len(),
            None => parse_pong_pairs(s@, i as int, orig, recv, fuel as nat) is None,
        }),
    decreases fuel,
{
    if fuel == 0 {
        return None;
    }
    let i1 = skip_ws_exec(s, i);
    if i1 < s.len() && s[i1] == 125 {
        return Some(((orig, recv), i1 + 1));
    }
    match parse_string_exec(s, i1) {
        None => None,
        Some((key, k1)) => {
            let i2 = skip_ws_exec(s, k1);
            if i2 < s.len() && s[i2] == 58 {
                let i3 = skip_ws_exec(s, i2 + 1);
                let step: Option<((Option<u64>, Option<u64>), usize)> = if bytes_eq(
                    &key,
                    &v_orig(),
                ) {
                    match parse_number_exec(s, i3) {
                        Some((v, j)) => Some(((Some(v), recv), j)),
                        None => None,
                    }
                } else if bytes_eq(&key, &v_recv()) {
                    match parse_number_exec(s, i3) {
                        Some((v, j)) => Some(((orig, Some(v)), j)),
                        None => None,
                    }
                } else {
                    match skip_value_exec(s, i3, fuel) {
                        Some(j) => Some(((orig, recv), j)),
                        None => None,
                    }
                };
                match step {
                    None => None,
                    Some((acc, j)) => {
                        let i4 = skip_ws_exec(s, j);
                        if i4 < s.len() && s[i4] == 44 {
                            parse_pong_pairs_rec(s, i4 + 1, acc.0, acc.1, fuel - 1)
                        } else if i4 < s.len() && s[i4] == 125 {
                            Some((acc, i4 + 1))
                        } else {
                            None
                        }
                    },
                }
            } else {
                None
            }
        },
    }
}

pub fn parse_pong_exec(s: &Vec<u8>) -> (r: Option<PongData>)
    ensures
        (match r {
            Some(p) => parse_pong(s@) == Some((p.orig, p.recv)),
            None => parse_pong(s@) is None,
        }),
{
    let i = skip_ws_exec(s, 0);
    if i < s.len() && s[i] == 123 {
        match parse_pong_pairs_rec(s, i + 1, None, None, s.len()) {
            Some((acc, j)) => {
                if skip_ws_exec(s, j) == s.len() {
                    match (acc.0, acc.1) {
                        (Some(o), Some(rv)) => Some(PongData { orig: o, recv: rv }),
                        _ => None,
                    }
                } else {
                    None
                }
            },
            None => None,
        }
    } else {
        None
    }
}

// --- the envelope ---

/// The method name a message travels under.
pub open spec fn name_of(p: ProtoView) -> Seq<u8> {
    match p {
        ProtoView::Json(_) => w_json(),
        ProtoView::Pong { .. } => w_pong(),
        ProtoView::P2pReady => w_p2p_ready(),
        ProtoView::NamedBinary { name, .. } => name,
    }
}

/// The payload bytes a message travels with.
pub open spec fn payload_of(p: ProtoView) -> Seq<u8> {
    match p {
        ProtoView::Json(v) => v,
        ProtoView::Pong { orig, recv } => enc_pong(orig, recv),
        ProtoView::P2pReady => Seq::empty(),
        ProtoView::NamedBinary { data, .. } => data,
    }
}

/// The four-frame envelope of a message.
pub open spec fn enc_frames(p: ProtoView) -> Seq<Seq<u8>> {
    seq![Seq::empty(), Seq::empty(), name_of(p), payload_of(p)]
}

/// Decode a four-frame envelope.  A recognized method name whose payload is
/// malformed yields `None`; an unrecognized name yields the raw message.
pub open spec fn dec_frames(fr: Seq<Seq<u8>>) -> Option<ProtoView> {
    if fr.len() != 4 || fr[0].len() != 0 || fr[1].len() != 0 {
        None
    } else {
        let name = fr[2];
        let data = fr[3];
        if name == w_json() {
            Some(ProtoView::Json(data))
        } else if name == w_pong() {
            match parse_pong(data) {
                Some(p) => Some(ProtoView::Pong { orig: p.0, recv: p.1 }),
                None => None,
            }
        } else if name == w_p2p_ready() {
            Some(ProtoView::P2pReady)
        } else {
            Some(ProtoView::NamedBinary { name, data })
        }
    }
}

pub open spec fn frame_views(fr: Seq<Vec<u8>>) -> Seq<Seq<u8>> {
    fr.map_values(|x: Vec<u8>| x@)
}

impl Protocol {
    /// The message as a named pair: method name and payload bytes.
    pub fn to_named(&self) -> (r: NamedBinaryData)
        ensures
            r.name@ == name_of(self@),
            r.data@ == payload_of(self@),
    {
        match self {
            Protocol::Json(v) => {
                let mut data: Vec<u8> = Vec::new();
                push_all(&mut data, v);
                proof {
                    assert(data@ =~= v@);
                }
                NamedBinaryData { name: v_json(), data }
            },
            Protocol::Pong(p) => {
                let mut data: Vec<u8> = Vec::new();
                data.push(123);
                data.push(34);
                push_all(&mut data, &v_orig());
                data.push(34);
                data.push(58);
                let d1 = dec_exec(p.orig);
                push_all(&mut data, &d1);
                data.push(44);
                data.push(34);
                push_all(&mut data, &v_recv());
                data.push(34);
                data.push(58);
                let d2 = dec_exec(p.recv);
                push_all(&mut data, &d2);
                data.push(125);
                proof {
                    assert(data@ =~= enc_pong(p.orig, p.recv));
                }
                NamedBinaryData { name: v_pong(), data }
            },
            Protocol::P2pReady => {
                let data: Vec<u8> = Vec::new();
                proof {
                    assert(data@ =~= Seq::<u8>::empty());
                }
                NamedBinaryData { name: v_p2p_ready(), data }
            },
            Protocol::NamedBinary(nb) => {
                let mut name: Vec<u8> = Vec::new();
                push_all(&mut name, &nb.name);
                let mut data: Vec<u8> = Vec::new();
                push_all(&mut data, &nb.data);
                proof {
                    assert(name@ =~= nb.name@);
                    assert(data@ =~= nb.data@);
                }
                NamedBinaryData { name, data }
            },
        }
    }

    /// Encode the message as its four-frame envelope.
    pub fn encode(&self) -> (r: Vec<Vec<u8>>)
        ensures
            frame_views(r@) == enc_frames(self@),
    {
        let named = self.to_named();
        let f0: Vec<u8> = Vec::new();
        let f1: Vec<u8> = Vec::new();
        let r: Vec<Vec<u8>> = vec![f0, f1, named.name, named.data];
        proof {
            assert(frame_views(r@) =~= enc_frames(self@));
        }
        r
    }

    /// Decode a four-frame envelope; `None` means a malformed envelope or a
    /// recognized method with a malformed payload.
    pub fn decode(frames: &Vec<Vec<u8>>) -> (r: Option<Protocol>)
        ensures
            (match r {
                Some(p) => dec_frames(frame_views(frames@)) == Some(p@),
                None => dec_frames(frame_views(frames@)) is None,
            }),
    {
        if frames.len() != 4 {
            return None;
        }
        if frames[0].len() != 0 || frames[1].len() != 0 {
            return None;
        }
        let name = &frames[2];
        let data = &frames[3];
        let mut owned: Vec<u8> = Vec::new();
        push_all(&mut owned, data);
        proof {
            assert(owned@ =~= data@);
        }
        if bytes_eq(name, &v_json()) {
            Some(Protocol::Json(owned))
        } else if bytes_eq(name, &v_pong()) {
            match parse_pong_exec(&owned) {
                Some(p) => Some(Protocol::Pong(p)),
                None => None,
            }
        } else if bytes_eq(name, &v_p2p_ready()) {
            Some(Protocol::P2pReady)
        } else {
            let mut owned_name: Vec<u8> = Vec::new();
            push_all(&mut owned_name, name);
            proof {
                assert(owned_name@ =~= name@);
            }
            Some(Protocol::NamedBinary(NamedBinaryData { name: owned_name, data: owned }))
        }
    }
}

// --- the round-trip law ---

/// Wire-valid messages: everything except a raw message travelling under
/// one of the reserved method names.
pub open spec fn wire_valid(p: ProtoView) -> bool {
    match p {
        ProtoView::NamedBinary { name, .. } => name != w_json() && name != w_pong() && name
            != w_p2p_ready(),
        _ => true,
    }
}

/// A pong payload built by the encoder reads back as exactly the two
/// timestamps it was built from.
#[verifier::rlimit(100)]
pub proof fn lemma_parse_pong_of_enc(o: u64, rv: u64)
    ensures
        parse_pong(enc_pong(o, rv)) == Some((o, rv)),
{
    let dl = dec_of(o as nat);
    let dr = dec_of(rv as nat);
    lemma_dec_digits(o as nat);
    lemma_dec_digits(rv as nat);
    let lo = dl.len() as int;
    let lr = dr.len() as int;
    let s = enc_pong(o, rv);
    assert(s.len() == 17 + lo + lr);
    assert(s[0] == 123);
    assert(s[1] == 34);
    assert forall|k: int| 0 <= k && k < 4 implies s[2 + k] == w_orig()[k] by {}
    assert(s[6] == 34);
    assert(s[7] == 58);
    assert forall|k: int| 0 <= k && k < lo implies s[8 + k] == dl[k] by {}
    assert(s[8 + lo] == 44);
    assert(s[9 + lo] == 34);
    assert forall|k: int| 0 <= k && k < 4 implies s[10 + lo + k] == w_recv()[k] by {}
    assert(s[14 + lo] == 34);
    assert(s[15 + lo] == 58);
    assert forall|k: int| 0 <= k && k < lr implies s[16 + lo + k] == dr[k] by {}
    assert(s[16 + lo + lr] == 125);

    assert(skip_ws(s, 0) == 0);
    assert(skip_ws(s, 1) == 1);
    assert forall|k: int|
        0 <= k && k < w_orig().len() implies #[trigger] w_orig()[k] != 34 && w_orig()[k] != 92
        by {}
    lemma_parse_plain_word(s, 2, w_orig(), Seq::empty());
    assert(Seq::<u8>::empty() + w_orig() =~= w_orig());
    assert(parse_string(s, 1) == Some((w_orig(), 7int)));
    assert(skip_ws(s, 7) == 7);
    assert(is_digit(dl[0]) && s[8] == dl[0]);
    assert(skip_ws(s, 8) == 8);
    lemma_parse_number_at(s, 8, o);
    assert(parse_number(s, 8) == Some((o, 8 + lo)));
    assert(skip_ws(s, 8 + lo) == 8 + lo);
    let fl = s.len();
    assert(parse_pong_pairs(s, 1, None, None, fl) == parse_pong_pairs(
        s,
        9 + lo,
        Some(o),
        None,
        (fl - 1) as nat,
    ));

    assert(skip_ws(s, 9 + lo) == 9 + lo);
    assert forall|k: int|
        0 <= k && k < w_recv().len() implies #[trigger] w_recv()[k] != 34 && w_recv()[k] != 92
        by {}
    lemma_parse_plain_word(s, 10 + lo, w_recv(), Seq::empty());
    assert(Seq::<u8>::empty() + w_recv() =~= w_recv());
    assert(parse_string(s, 9 + lo) == Some((w_recv(), 15 + lo)));
    assert(skip_ws(s, 15 + lo) == 15 + lo);
    assert(is_digit(dr[0]) && s[16 + lo] == dr[0]);
    assert(skip_ws(s, 16 + lo) == 16 + lo);
    assert(w_recv()[0] != w_orig()[0]);
    lemma_parse_number_at(s, 16 + lo, rv);
    assert(parse_number(s, 16 + lo) == Some((rv, 16 + lo + lr)));
    assert(skip_ws(s, 16 + lo + lr) == 16 + lo + lr);
    assert(parse_pong_pairs(s, 9 + lo, Some(o), None, (fl - 1) as nat) == Some(
        ((Some(o), Some(rv)), 17 + lo + lr),
    ));
    assert(skip_ws(s, s.len() as int) == s.len() as int);
    assert(parse_pong(s) == Some((o, rv)));
}

/// Encode-then-decode reproduces every wire-valid message exactly: the
/// round-trip law of the codec.
#[verifier::rlimit(100)]
pub proof fn lemma_round_trip(p: ProtoView)
    requires
        wire_valid(p),
    ensures
        dec_frames(enc_frames(p)) == Some(p),
{
    let fr = enc_frames(p);
    assert(fr.len() == 4);
    assert(fr[0].len() == 0 && fr[1].len() == 0);
    match p {
        ProtoView::Json(v) => {
            assert(fr[2] == w_json());
        },
        ProtoView::Pong { orig, recv } => {
            assert(w_pong()[0] != w_json()[0]);
            lemma_parse_pong_of_enc(orig, recv);
        },
        ProtoView::P2pReady => {
            assert(w_p2p_ready().len() != w_json().len());
            assert(w_p2p_ready().len() != w_pong().len());
        },
        ProtoView::NamedBinary { name, data } => {},
    }
}

} // verus!
