use ipc_net_worker::config::{config_from_values, ConfigError};
use ipc_net_worker::dht::{poll_action_outcome, Action, ActionPoll, ActionWrapper};
use ipc_net_worker::worker::IpcNetWorker;

#[test]
fn construction_reads_the_blob() {
    let (w, c) = IpcNetWorker::new(
        "{\"socketType\":\"zmq\",\"ipcUri\":\"tcp://10.0.0.1:5555\",\"blockConnect\":true}",
    )
    .unwrap();
    assert_eq!(c.ipc_uri, "tcp://10.0.0.1:5555");
    assert!(c.block_connect);
    assert!(w.outbound.is_empty() && w.events.is_empty() && !w.is_ready);
}

#[test]
fn construction_refuses_bad_blobs() {
    assert_eq!(IpcNetWorker::new("not json at all").unwrap_err(), ConfigError::NotJson);
    assert_eq!(
        IpcNetWorker::new("{\"ipcUri\":\"tcp://x\"}").unwrap_err(),
        ConfigError::WrongSocketType
    );
    assert_eq!(
        IpcNetWorker::new("{\"socketType\":\"mqtt\",\"ipcUri\":\"tcp://x\"}").unwrap_err(),
        ConfigError::WrongSocketType
    );
    assert_eq!(
        IpcNetWorker::new("{\"socketType\":\"zmq\"}").unwrap_err(),
        ConfigError::MissingUri
    );
}

#[test]
fn blocking_flag_defaults_to_off() {
    let (_, c) = IpcNetWorker::new("{\"socketType\":\"zmq\",\"ipcUri\":\"tcp://x\"}").unwrap();
    assert!(!c.block_connect);
}

#[test]
fn config_decision_is_exact() {
    let ok = config_from_values(
        Some("zmq".to_string()),
        Some("tcp://x".to_string()),
        Some(true),
    )
    .unwrap();
    assert_eq!(ok.ipc_uri, "tcp://x");
    assert!(ok.block_connect);
    assert_eq!(
        config_from_values(None, Some("tcp://x".to_string()), None).unwrap_err(),
        ConfigError::WrongSocketType
    );
    assert_eq!(
        config_from_values(Some("zmq".to_string()), None, None).unwrap_err(),
        ConfigError::MissingUri
    );
}

#[test]
fn action_polls_resolve_exactly() {
    assert!(matches!(poll_action_outcome(None), ActionPoll::Pending));
    assert!(matches!(poll_action_outcome(Some(None)), ActionPoll::Pending));
    assert!(matches!(poll_action_outcome(Some(Some(Ok(())))), ActionPoll::Ready));
    match poll_action_outcome(Some(Some(Err("gone".to_string())))) {
        ActionPoll::Failed(msg) => assert_eq!(msg, "gone"),
        _ => panic!("expected a failure"),
    }
}

#[test]
fn action_wrappers_carry_what_they_were_built_from() {
    let w = ActionWrapper::new(7, Action::RemoveEntry(b"addr".to_vec()));
    assert_eq!(w.id, 7);
    assert!(matches!(w.action, Action::RemoveEntry(a) if a == b"addr".to_vec()));
}
