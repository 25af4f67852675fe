use ipc_net_worker::protocol::{NamedBinaryData, PongData, Protocol};
use ipc_net_worker::worker::IpcNetWorker;

fn get_millis() -> u64 {
    std::time::SystemTime::now()
        .duration_since(std::time::UNIX_EPOCH)
        .unwrap()
        .as_millis() as u64
}

#[test]
fn it_ipc_networker_zmq_create() {
    IpcNetWorker::new(
        "{\"socketType\":\"zmq\",\"ipcUri\":\"tcp://127.0.0.1:0\",\"blockConnect\":false}",
    )
    .unwrap();
}

#[test]
fn it_ipc_networker_flow() {
    let now = get_millis();
    let pong = Protocol::Pong(PongData {
        orig: now - 4,
        recv: now - 2,
    });
    let data: NamedBinaryData = pong.to_named();
    let frames = vec![vec![], vec![], b"pong".to_vec(), data.data];

    let mut cli = IpcNetWorker::new_test();

    let inbound = Protocol::decode(&frames).unwrap();
    cli.tick(now, Some(inbound));

    let res = cli.events.remove(0);
    assert_eq!(pong, res);

    let json = Protocol::Json(b"{\"method\":\"state\",\"state\":\"need_config\"}".to_vec());
    let data: NamedBinaryData = json.to_named();
    let frames = vec![vec![], vec![], b"json".to_vec(), data.data];
    let inbound = Protocol::decode(&frames).unwrap();
    cli.tick(now, Some(inbound));

    let res = cli.events.remove(0);
    assert_eq!(json, res);

    let res = cli.outbound.remove(0).encode();
    let res = String::from_utf8_lossy(&res[3]).to_string();
    assert!(res.contains("requestState"));

    let res = cli.outbound.remove(0).encode();
    let res = String::from_utf8_lossy(&res[3]).to_string();
    assert!(res.contains("requestDefaultConfig"));

    let json = Protocol::Json(b"{\"method\":\"defaultConfig\",\"config\":\"test_config\"}".to_vec());
    let data: NamedBinaryData = json.to_named();
    let frames = vec![vec![], vec![], b"json".to_vec(), data.data];
    let inbound = Protocol::decode(&frames).unwrap();
    cli.tick(now, Some(inbound));

    cli.events.remove(0);

    let res = cli.outbound.remove(0).encode();
    let res = String::from_utf8_lossy(&res[3]).to_string();
    assert!(res.contains("setConfig"));

    let json = Protocol::Json(
        b"{\"method\":\"state\",\"state\":\"ready\",\"id\":\"test_id\",\"bindings\":[\"test_binding_1\"]}"
            .to_vec(),
    );
    let data: NamedBinaryData = json.to_named();
    let frames = vec![vec![], vec![], b"json".to_vec(), data.data];
    let inbound = Protocol::decode(&frames).unwrap();
    cli.tick(now, Some(inbound));

    cli.events.remove(0);

    let res = cli.events.remove(0);
    assert_eq!(Protocol::P2pReady, res);

    cli.stop();
}

#[test]
fn need_config_report_queues_default_config_request() {
    let mut w = IpcNetWorker::new_test();
    let msg = Protocol::Json(b"{\"method\":\"state\",\"state\":\"need_config\"}".to_vec());
    let did = w.tick(0, Some(msg.clone()));
    assert!(did);
    assert_eq!(w.outbound.len(), 1);
    let frames = w.outbound.remove(0).encode();
    let text = String::from_utf8_lossy(&frames[3]).to_string();
    assert_eq!(text, "{\"method\":\"requestDefaultConfig\"}");
    assert_eq!(w.events.len(), 1);
    assert_eq!(w.events[0], msg);
}

#[test]
fn default_config_echoed_verbatim_only_when_needed() {
    let mut w = IpcNetWorker::new_test();
    // while not in need_config the report is ignored
    let msg = Protocol::Json(b"{\"method\":\"defaultConfig\",\"config\":\"X\"}".to_vec());
    w.tick(0, Some(msg));
    assert_eq!(w.outbound.len(), 0);

    // move to need_config, then the echo must carry the blob byte for byte
    let report = Protocol::Json(b"{\"method\":\"state\",\"state\":\"need_config\"}".to_vec());
    w.tick(0, Some(report));
    w.outbound.clear();
    let msg = Protocol::Json(b"{\"method\":\"defaultConfig\",\"config\":\"X\"}".to_vec());
    w.tick(0, Some(msg));
    assert_eq!(w.outbound.len(), 1);
    let frames = w.outbound.remove(0).encode();
    let text = String::from_utf8_lossy(&frames[3]).to_string();
    assert_eq!(text, "{\"method\":\"setConfig\",\"config\":\"X\"}");
}

#[test]
fn readiness_announced_at_most_once() {
    let mut w = IpcNetWorker::new_test();
    let ready = b"{\"method\":\"state\",\"state\":\"ready\"}".to_vec();
    w.tick(0, Some(Protocol::Json(ready.clone())));
    w.tick(0, Some(Protocol::Json(ready.clone())));
    w.tick(0, Some(Protocol::Json(ready.clone())));
    let announcements = w
        .events
        .iter()
        .filter(|e| matches!(e, Protocol::P2pReady))
        .count();
    assert_eq!(announcements, 1);
}

#[test]
fn idle_tick_does_nothing_and_says_so() {
    let mut w = IpcNetWorker::new_test();
    // probe cadence: 500 ms have not yet passed since the initial probe time
    let did = w.tick(400, None);
    assert!(!did);
    assert_eq!(w.outbound.len(), 0);
    assert_eq!(w.events.len(), 0);
    assert!(!w.is_ready);
}

#[test]
fn probe_sent_when_due_and_cadence_kept() {
    let mut w = IpcNetWorker::new_test();
    let did = w.tick(501, None);
    assert!(!did); // a self-driven probe is not "work done" for the poller
    assert_eq!(w.outbound.len(), 1);
    let frames = w.outbound.remove(0).encode();
    let text = String::from_utf8_lossy(&frames[3]).to_string();
    assert_eq!(text, "{\"method\":\"requestState\"}");
    // within the cadence no second probe leaves
    w.tick(900, None);
    assert_eq!(w.outbound.len(), 0);
    // after the cadence it fires again
    w.tick(1101, None);
    assert_eq!(w.outbound.len(), 1);
}

#[test]
fn unknown_state_label_is_kept_without_readiness() {
    let mut w = IpcNetWorker::new_test();
    let msg = Protocol::Json(b"{\"method\":\"state\",\"state\":\"someday_maybe\"}".to_vec());
    w.tick(0, Some(msg));
    assert_eq!(w.events.len(), 1);
    assert!(!w.is_ready);
    assert_eq!(w.outbound.len(), 0);
}

#[test]
fn foreign_and_malformed_json_is_forwarded_without_effect() {
    let mut w = IpcNetWorker::new_test();
    // another protocol's method: forwarded, no state effect
    let msg = Protocol::Json(b"{\"method\":\"gossip\",\"payload\":\"hi\"}".to_vec());
    let did = w.tick(0, Some(msg));
    assert!(did);
    assert_eq!(w.events.len(), 1);
    assert_eq!(w.outbound.len(), 0);
    // not JSON at all: still forwarded raw
    let msg = Protocol::Json(b"%%%".to_vec());
    w.tick(0, Some(msg));
    assert_eq!(w.events.len(), 2);
    assert_eq!(w.outbound.len(), 0);
}

#[test]
fn owner_messages_are_relayed_unmodified() {
    let mut w = IpcNetWorker::new_test();
    let msg = Protocol::Json(b"{\"anything\":1}".to_vec());
    w.receive(msg.clone());
    assert_eq!(w.outbound.len(), 1);
    assert_eq!(w.outbound[0], msg);
}

#[test]
fn probe_fires_at_exactly_the_cadence() {
    let mut w = IpcNetWorker::new_test();
    // at exactly 500 ms elapsed the probe leaves
    let did = w.tick(500, None);
    assert!(!did);
    assert_eq!(w.outbound.len(), 1);
    let frames = w.outbound.remove(0).encode();
    let text = String::from_utf8_lossy(&frames[3]).to_string();
    assert_eq!(text, "{\"method\":\"requestState\"}");
    // 499 ms after the new probe time nothing more leaves
    w.tick(999, None);
    assert_eq!(w.outbound.len(), 0);
    // at the boundary it fires again
    w.tick(1000, None);
    assert_eq!(w.outbound.len(), 1);
}
