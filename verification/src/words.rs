//! The literal words of the wire protocol, as byte sequences.  Each word has
//! a specification form and an executable twin that allocates it.

use vstd::prelude::*;

verus! {

/// "method"
pub open spec fn w_method() -> Seq<u8> {
    seq![109u8, 101u8, 116u8, 104u8, 111u8, 100u8]
}

/// "state"
pub open spec fn w_state() -> Seq<u8> {
    seq![115u8, 116u8, 97u8, 116u8, 101u8]
}

/// "id"
pub open spec fn w_id() -> Seq<u8> {
    seq![105u8, 100u8]
}

/// "bindings"
pub open spec fn w_bindings() -> Seq<u8> {
    seq![98u8, 105u8, 110u8, 100u8, 105u8, 110u8, 103u8, 115u8]
}

/// "config"
pub open spec fn w_config() -> Seq<u8> {
    seq![99u8, 111u8, 110u8, 102u8, 105u8, 103u8]
}

/// "requestState"
pub open spec fn w_request_state() -> Seq<u8> {
    seq![114u8, 101u8, 113u8, 117u8, 101u8, 115u8, 116u8, 83u8, 116u8, 97u8, 116u8, 101u8]
}

/// "requestDefaultConfig"
pub open spec fn w_request_default_config() -> Seq<u8> {
    seq![
        114u8,
        101u8,
        113u8,
        117u8,
        101u8,
        115u8,
        116u8,
        68u8,
        101u8,
        102u8,
        97u8,
        117u8,
        108u8,
        116u8,
        67u8,
        111u8,
        110u8,
        102u8,
        105u8,
        103u8,
    ]
}

/// "defaultConfig"
pub open spec fn w_default_config() -> Seq<u8> {
    seq![100u8, 101u8, 102u8, 97u8, 117u8, 108u8, 116u8, 67u8, 111u8, 110u8, 102u8, 105u8, 103u8]
}

/// "setConfig"
pub open spec fn w_set_config() -> Seq<u8> {
    seq![115u8, 101u8, 116u8, 67u8, 111u8, 110u8, 102u8, 105u8, 103u8]
}

/// "json"
pub open spec fn w_json() -> Seq<u8> {
    seq![106u8, 115u8, 111u8, 110u8]
}

/// "pong"
pub open spec fn w_pong() -> Seq<u8> {
    seq![112u8, 111u8, 110u8, 103u8]
}

/// "p2pReady"
pub open spec fn w_p2p_ready() -> Seq<u8> {
    seq![112u8, 50u8, 112u8, 82u8, 101u8, 97u8, 100u8, 121u8]
}

/// "orig"
pub open spec fn w_orig() -> Seq<u8> {
    seq![111u8, 114u8, 105u8, 103u8]
}

/// "recv"
pub open spec fn w_recv() -> Seq<u8> {
    seq![114u8, 101u8, 99u8, 118u8]
}

/// "need_config"
pub open spec fn w_need_config() -> Seq<u8> {
    seq![110u8, 101u8, 101u8, 100u8, 95u8, 99u8, 111u8, 110u8, 102u8, 105u8, 103u8]
}

/// "ready"
pub open spec fn w_ready() -> Seq<u8> {
    seq![114u8, 101u8, 97u8, 100u8, 121u8]
}

/// "undefined"
pub open spec fn w_undefined() -> Seq<u8> {
    seq![117u8, 110u8, 100u8, 101u8, 102u8, 105u8, 110u8, 101u8, 100u8]
}

pub fn v_method() -> (v: Vec<u8>)
    ensures
        v@ == w_method(),
{
    let v: Vec<u8> = vec![109, 101, 116, 104, 111, 100];
    proof {
        assert(v@ =~= w_method());
    }
    v
}

pub fn v_state() -> (v: Vec<u8>)
    ensures
        v@ == w_state(),
{
    let v: Vec<u8> = vec![115, 116, 97, 116, 101];
    proof {
        assert(v@ =~= w_state());
    }
    v
}

pub fn v_id() -> (v: Vec<u8>)
    ensures
        v@ == w_id(),
{
    let v: Vec<u8> = vec![105, 100];
    proof {
        assert(v@ =~= w_id());
    }
    v
}

pub fn v_bindings() -> (v: Vec<u8>)
    ensures
        v@ == w_bindings(),
{
    let v: Vec<u8> = vec![98, 105, 110, 100, 105, 110, 103, 115];
    proof {
        assert(v@ =~= w_bindings());
    }
    v
}

pub fn v_config() -> (v: Vec<u8>)
    ensures
        v@ == w_config(),
{
    let v: Vec<u8> = vec![99, 111, 110, 102, 105, 103];
    proof {
        assert(v@ =~= w_config());
    }
    v
}

pub fn v_request_state() -> (v: Vec<u8>)
    ensures
        v@ == w_request_state(),
{
    let v: Vec<u8> = vec![114, 101, 113, 117, 101, 115, 116, 83, 116, 97, 116, 101];
    proof {
        assert(v@ =~= w_request_state());
    }
    v
}

pub fn v_request_default_config() -> (v: Vec<u8>)
    ensures
        v@ == w_request_default_config(),
{
    let v: Vec<u8> = vec![
        114,
        101,
        113,
        117,
        101,
        115,
        116,
        68,
        101,
        102,
        97,
        117,
        108,
        116,
        67,
        111,
        110,
        102,
        105,
        103,
    ];
    proof {
        assert(v@ =~= w_request_default_config());
    }
    v
}

pub fn v_default_config() -> (v: Vec<u8>)
    ensures
        v@ == w_default_config(),
{
    let v: Vec<u8> = vec![100, 101, 102, 97, 117, 108, 116, 67, 111, 110, 102, 105, 103];
    proof {
        assert(v@ =~= w_default_config());
    }
    v
}

pub fn v_set_config() -> (v: Vec<u8>)
    ensures
        v@ == w_set_config(),
{
    let v: Vec<u8> = vec![115, 101, 116, 67, 111, 110, 102, 105, 103];
    proof {
        assert(v@ =~= w_set_config());
    }
    v
}

pub fn v_json() -> (v: Vec<u8>)
    ensures
        v@ == w_json(),
{
    let v: Vec<u8> = vec![106, 115, 111, 110];
    proof {
        assert(v@ =~= w_json());
    }
    v
}

pub fn v_pong() -> (v: Vec<u8>)
    ensures
        v@ == w_pong(),
{
    let v: Vec<u8> = vec![112, 111, 110, 103];
    proof {
        assert(v@ =~= w_pong());
    }
    v
}

pub fn v_p2p_ready() -> (v: Vec<u8>)
    ensures
        v@ == w_p2p_ready(),
{
    let v: Vec<u8> = vec![112, 50, 112, 82, 101, 97, 100, 121];
    proof {
        assert(v@ =~= w_p2p_ready());
    }
    v
}

pub fn v_orig() -> (v: Vec<u8>)
    ensures
        v@ == w_orig(),
{
    let v: Vec<u8> = vec![111, 114, 105, 103];
    proof {
        assert(v@ =~= w_orig());
    }
    v
}

pub fn v_recv() -> (v: Vec<u8>)
    ensures
        v@ == w_recv(),
{
    let v: Vec<u8> = vec![114, 101, 99, 118];
    proof {
        assert(v@ =~= w_recv());
    }
    v
}

pub fn v_need_config() -> (v: Vec<u8>)
    ensures
        v@ == w_need_config(),
{
    let v: Vec<u8> = vec![110, 101, 101, 100, 95, 99, 111, 110, 102, 105, 103];
    proof {
        assert(v@ =~= w_need_config());
    }
    v
}

pub fn v_ready() -> (v: Vec<u8>)
    ensures
        v@ == w_ready(),
{
    let v: Vec<u8> = vec![114, 101, 97, 100, 121];
    proof {
        assert(v@ =~= w_ready());
    }
    v
}

pub fn v_undefined() -> (v: Vec<u8>)
    ensures
        v@ == w_undefined(),
{
    let v: Vec<u8> = vec![117, 110, 100, 101, 102, 105, 110, 101, 100];
    proof {
        assert(v@ =~= w_undefined());
    }
    v
}

} // verus!
