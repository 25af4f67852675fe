//! Production-mode construction: the configuration blob is JSON text naming
//! a socket type, a transport URI and an optional blocking flag.  The JSON
//! reading itself is done by an outside library behind a trusted wrapper
//! whose results are named, so that construction can promise exactly when
//! it succeeds; the decision over the extracted values is verified.

use vstd::prelude::*;
use crate::worker::{initial_worker, IpcNetWorker};

verus! {

/// Why construction of a worker was refused.
#[derive(Debug, PartialEq, Eq, Structural)]
pub enum ConfigError {
    NotJson,
    WrongSocketType,
    MissingUri,
}

/// The connection parameters the owner needs to open the transport.
#[derive(Debug)]
pub struct IpcConfig {
    pub ipc_uri: String,
    pub block_connect: bool,
}

/// Whether the text is a well-formed JSON document.
pub uninterp spec fn cfg_is_json(s: Seq<char>) -> bool;

/// The text of the document's `socketType` field, where the document is an
/// object carrying that field as a string.
pub uninterp spec fn cfg_socket_type(s: Seq<char>) -> Option<Seq<char>>;

/// The text of the document's `ipcUri` field, where the document is an
/// object carrying that field as a string.
pub uninterp spec fn cfg_uri(s: Seq<char>) -> Option<Seq<char>>;

/// The value of the document's `blockConnect` field, where the document is
/// an object carrying that field as a boolean.
pub uninterp spec fn cfg_block(s: Seq<char>) -> Option<bool>;

/// Relies on serde_json::from_str, Value::get, Value::as_str and
/// Value::as_bool: whether the text parses as JSON, and the three
/// configuration fields it carries.  Each result is a function of the text
/// alone, so the results are named; the intermediate document value never
/// leaves this wrapper.
#[verifier::external_body]
fn read_config_fields(s: &str) -> (r: (bool, Option<String>, Option<String>, Option<bool>))
    ensures
        r.0 == cfg_is_json(s@),
        (match r.1 {
            Some(st) => cfg_socket_type(s@) == Some(st@),
            None => cfg_socket_type(s@) is None,
        }),
        (match r.2 {
            Some(u) => cfg_uri(s@) == Some(u@),
            None => cfg_uri(s@) is None,
        }),
        r.3 == cfg_block(s@),
{
    match serde_json::from_str::<serde_json::Value>(s) {
        Ok(v) => (
            true,
            v.get("socketType").and_then(|x| x.as_str()).map(String::from),
            v.get("ipcUri").and_then(|x| x.as_str()).map(String::from),
            v.get("blockConnect").and_then(|x| x.as_bool()),
        ),
        Err(_) => (false, None, None, None),
    }
}

/// The one supported socket type.
pub open spec fn zmq_label() -> Seq<char> {
    "zmq"@
}

/// Decide construction from the extracted configuration values: the socket
/// type must name the one supported transport and a URI must be present;
/// the blocking flag defaults to off.
pub fn config_from_values(
    socket_type: Option<String>,
    uri: Option<String>,
    block: Option<bool>,
) -> (r: Result<IpcConfig, ConfigError>)
    ensures
        r is Ok <==> ((socket_type matches Some(st) && st@ == zmq_label()) && uri is Some),
        (match r {
            Ok(c) => (uri matches Some(u) && c.ipc_uri@ == u@) && c.block_connect == (match block {
                Some(b) => b,
                None => false,
            }),
            Err(e) => e == (if !(socket_type matches Some(st) && st@ == zmq_label()) {
                ConfigError::WrongSocketType
            } else {
                ConfigError::MissingUri
            }),
        }),
{
    let st_ok: bool = match &socket_type {
        Some(st) => {
            let z = String::from_str("zmq");
            st.eq(&z)
        },
        None => false,
    };
    if !st_ok {
        return Err(ConfigError::WrongSocketType);
    }
    match uri {
        Some(u) => Ok(
            IpcConfig {
                ipc_uri: u,
                block_connect: (match block {
                    Some(b) => b,
                    None => false,
                }),
            },
        ),
        None => Err(ConfigError::MissingUri),
    }
}

impl IpcNetWorker {
    /// Production-mode construction: validate the configuration blob and
    /// hand back a fresh worker together with the connection parameters the
    /// owner needs to open the transport.  Succeeds exactly on a JSON blob
    /// whose socket type names the one supported transport and which
    /// carries a URI; a bad or incomplete blob is refused with the matching
    /// error before any I/O could be attempted.
    pub fn new(config: &str) -> (r: Result<(IpcNetWorker, IpcConfig), ConfigError>)
        ensures
            r is Ok <==> (cfg_is_json(config@) && (cfg_socket_type(config@) matches Some(st) && st
                == zmq_label()) && cfg_uri(config@) is Some),
            (match r {
                Ok(p) => p.0@ == initial_worker() && (cfg_uri(config@) matches Some(u)
                    && p.1.ipc_uri@ == u) && p.1.block_connect == (match cfg_block(config@) {
                    Some(b) => b,
                    None => false,
                }),
                Err(e) => e == (if !cfg_is_json(config@) {
                    ConfigError::NotJson
                } else if !(cfg_socket_type(config@) matches Some(st) && st == zmq_label()) {
                    ConfigError::WrongSocketType
                } else {
                    ConfigError::MissingUri
                }),
            }),
    {
        let (is_json, st, uri, block) = read_config_fields(config);
        if !is_json {
            return Err(ConfigError::NotJson);
        }
        match config_from_values(st, uri, block) {
            Ok(c) => Ok((IpcNetWorker::priv_new(), c)),
            Err(e) => Err(e),
        }
    }
}

} // verus!

