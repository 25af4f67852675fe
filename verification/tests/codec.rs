use ipc_net_worker::protocol::{NamedBinaryData, PongData, Protocol};
use ipc_net_worker::protocol_wrapper::{parse_control_exec, ConfigData, ProtocolWrapper, StateData};

#[test]
fn pong_round_trips_through_the_envelope() {
    let msg = Protocol::Pong(PongData { orig: 1234567, recv: 1234571 });
    let frames = msg.encode();
    assert_eq!(frames.len(), 4);
    assert!(frames[0].is_empty() && frames[1].is_empty());
    assert_eq!(frames[2], b"pong".to_vec());
    assert_eq!(frames[3], b"{\"orig\":1234567,\"recv\":1234571}".to_vec());
    assert_eq!(Protocol::decode(&frames).unwrap(), msg);
}

#[test]
fn pong_round_trips_at_the_edges() {
    for (o, r) in [(0u64, 0u64), (u64::MAX, 1), (7, u64::MAX)] {
        let msg = Protocol::Pong(PongData { orig: o, recv: r });
        assert_eq!(Protocol::decode(&msg.encode()).unwrap(), msg);
    }
}

#[test]
fn json_and_ready_and_raw_round_trip() {
    let msg = Protocol::Json(b"{\"whatever\": [1, 2]}".to_vec());
    assert_eq!(Protocol::decode(&msg.encode()).unwrap(), msg);

    let msg = Protocol::P2pReady;
    assert_eq!(Protocol::decode(&msg.encode()).unwrap(), msg);
    assert_eq!(msg.encode()[2], b"p2pReady".to_vec());

    let msg = Protocol::NamedBinary(NamedBinaryData {
        name: b"ping".to_vec(),
        data: vec![0, 159, 146, 150],
    });
    assert_eq!(Protocol::decode(&msg.encode()).unwrap(), msg);
}

#[test]
fn malformed_envelopes_are_refused() {
    // wrong frame count
    assert!(Protocol::decode(&vec![vec![], b"json".to_vec(), vec![]]).is_none());
    // routing frames must be empty
    assert!(Protocol::decode(&vec![b"x".to_vec(), vec![], b"json".to_vec(), vec![]]).is_none());
    // a recognized method with a payload that does not parse
    assert!(Protocol::decode(&vec![vec![], vec![], b"pong".to_vec(), b"{\"orig\":1}".to_vec()])
        .is_none());
    assert!(Protocol::decode(&vec![vec![], vec![], b"pong".to_vec(), b"nonsense".to_vec()])
        .is_none());
}

#[test]
fn pong_payload_parsing_is_tolerant() {
    // any field order, whitespace, an ignored extra field, a dropped fraction
    let frames = vec![
        vec![],
        vec![],
        b"pong".to_vec(),
        b" { \"recv\" : 7.5 , \"note\" : \"x\" , \"orig\" : 3 } ".to_vec(),
    ];
    let msg = Protocol::decode(&frames).unwrap();
    assert_eq!(msg, Protocol::Pong(PongData { orig: 3, recv: 7 }));
}

#[test]
fn control_messages_read_back_from_their_encoding() {
    let cases: Vec<ProtocolWrapper> = vec![
        ProtocolWrapper::RequestState,
        ProtocolWrapper::RequestDefaultConfig,
        ProtocolWrapper::DefaultConfig(ConfigData { config: b"blob".to_vec() }),
        ProtocolWrapper::SetConfig(ConfigData { config: b"with \"quotes\" \\ inside".to_vec() }),
        ProtocolWrapper::State(StateData {
            state: b"ready".to_vec(),
            id: b"node-1".to_vec(),
            bindings: vec![b"tcp://a".to_vec(), b"tcp://b".to_vec()],
        }),
    ];
    for case in cases {
        let payload = case.encode();
        let back = parse_control_exec(&payload).unwrap();
        let payload_again = back.encode();
        assert_eq!(payload, payload_again);
    }
}

#[test]
fn control_parsing_accepts_remote_shapes() {
    // field order does not matter and unknown fields are skipped
    let p = b"{ \"state\": \"ready\", \"extra\": null, \"method\": \"state\", \"id\": \"i\", \"bindings\": [] }"
        .to_vec();
    match parse_control_exec(&p) {
        Some(ProtocolWrapper::State(sd)) => {
            assert_eq!(sd.state, b"ready".to_vec());
            assert_eq!(sd.id, b"i".to_vec());
            assert!(sd.bindings.is_empty());
        }
        other => panic!("parsed as {:?}", other.is_some()),
    }
    // a state report without id or bindings defaults them to empty
    let p = b"{\"method\":\"state\",\"state\":\"need_config\"}".to_vec();
    match parse_control_exec(&p) {
        Some(ProtocolWrapper::State(sd)) => {
            assert_eq!(sd.state, b"need_config".to_vec());
            assert!(sd.id.is_empty());
            assert!(sd.bindings.is_empty());
        }
        other => panic!("parsed as {:?}", other.is_some()),
    }
    // escapes in strings are decoded
    let p = b"{\"method\":\"setConfig\",\"config\":\"a\\\"b\\\\c\\n\"}".to_vec();
    match parse_control_exec(&p) {
        Some(ProtocolWrapper::SetConfig(cd)) => {
            assert_eq!(cd.config, b"a\"b\\c\n".to_vec());
        }
        other => panic!("parsed as {:?}", other.is_some()),
    }
}

#[test]
fn foreign_methods_and_junk_are_not_control_messages() {
    assert!(parse_control_exec(&b"{\"method\":\"dht\"}".to_vec()).is_none());
    assert!(parse_control_exec(&b"{\"nomethod\":1}".to_vec()).is_none());
    assert!(parse_control_exec(&b"[1,2,3]".to_vec()).is_none());
    assert!(parse_control_exec(&b"".to_vec()).is_none());
    assert!(parse_control_exec(&b"{\"method\":\"state\"}".to_vec()).is_none());
    assert!(parse_control_exec(&b"{\"method\":\"defaultConfig\"}".to_vec()).is_none());
    // trailing rubbish after the object
    assert!(parse_control_exec(&b"{\"method\":\"requestState\"} x".to_vec()).is_none());
}
