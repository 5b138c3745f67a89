use sshctx::config::{Config, HostConfig};
use sshctx::json::Json;
use sshctx::pending::Pending;
use sshctx::pool::{
    after_attempt, call_next, must_connect, settle, AfterAttempt, Attempt, CallError, CallNext, CallStage,
    ConnectionPool, PoolError, Waited, REQUEST_SECONDS,
};
use sshctx::protocol::{Frame, Response};
use sshctx::string_map::StringMap;

fn host(address: &str) -> HostConfig {
    HostConfig {
        address: address.to_string(),
        port: 22,
        username: "u".to_string(),
        identity_file: "id".to_string(),
        python: "python3".to_string(),
        allowed_roots: vec!["/tmp".to_string()],
        max_operations: 1,
    }
}

fn pool() -> ConnectionPool {
    let mut hosts = StringMap::new();
    hosts.insert("b".to_string(), host("two"));
    hosts.insert("a".to_string(), host("one"));
    ConnectionPool::new(Config { hosts })
}

fn frame(id: &str) -> Frame<Response> {
    Frame {
        header: Response {
            id: id.to_string(),
            ok: true,
            result: Json::Null,
            error: None,
            metadata: StringMap::new(),
        },
        payload: vec![1],
    }
}

#[test]
fn the_pool_holds_the_configuration() {
    let pool = pool();
    assert_eq!(pool.aliases(), vec!["a", "b"]);
    assert_eq!(pool.host_config("b").unwrap(), host("two"));
    assert_eq!(pool.host("a").unwrap().alias, "a");
    let error = pool.host_config("c \"").unwrap_err();
    assert_eq!(error, PoolError::UnknownAlias("c \"".to_string()));
    assert_eq!(error.message(), "unknown host alias \"c \\\"\"");
    assert_eq!(pool.reconnect("a").unwrap().config, host("one"));
    assert!(pool.reconnect("x").is_err());
}

#[test]
fn calls_get_fresh_identifiers() {
    let pool = pool();
    let (handle, first) = pool.call("a", "stat", Json::Null, true).unwrap();
    assert_eq!(handle.alias, "a");
    assert_eq!(first.method, "stat");
    assert!(first.readonly);
    assert_eq!(first.id.len(), 36);
    assert_eq!(&first.id[14..15], "4");
    let (_, second) = pool.call("a", "stat", Json::Null, true).unwrap();
    assert_ne!(first.id, second.id);
    assert!(pool.call("nobody", "stat", Json::Null, true).is_err());
}

#[test]
fn connections_are_opened_when_there_is_none() {
    assert!(must_connect(None));
    assert!(must_connect(Some(true)));
    assert!(!must_connect(Some(false)));
}

#[test]
fn stages_of_an_attempt() {
    assert_eq!(call_next(CallStage::Connect, true), CallNext::Enter(CallStage::Register));
    assert_eq!(call_next(CallStage::Connect, false), CallNext::Failed);
    assert_eq!(call_next(CallStage::Register, true), CallNext::Enter(CallStage::Send));
    assert_eq!(call_next(CallStage::Send, true), CallNext::Enter(CallStage::Wait));
    assert_eq!(call_next(CallStage::Send, false), CallNext::Enter(CallStage::Withdraw));
    assert_eq!(call_next(CallStage::Withdraw, true), CallNext::Failed);
    assert_eq!(call_next(CallStage::Wait, true), CallNext::Answered);
    assert_eq!(call_next(CallStage::Wait, false), CallNext::Failed);
}

#[test]
fn only_reads_are_repeated() {
    assert_eq!(after_attempt(Attempt::First, true, None), AfterAttempt::Return);
    assert_eq!(after_attempt(Attempt::First, false, None), AfterAttempt::Return);
    assert_eq!(
        after_attempt(Attempt::First, false, Some("gone".to_string())),
        AfterAttempt::DisconnectAndFail("gone".to_string())
    );
    let second = match after_attempt(Attempt::First, true, Some("gone".to_string())) {
        AfterAttempt::DisconnectAndRetry(attempt) => attempt,
        other => panic!("{other:?}"),
    };
    assert_eq!(second, Attempt::Second { first_error: "gone".to_string() });
    assert_eq!(
        after_attempt(second, true, Some("again".to_string())),
        AfterAttempt::Fail {
            context: "retry after connection failure; first error: gone".to_string(),
            error: "again".to_string()
        }
    );
}

#[test]
fn answers_are_held_to_their_requests() {
    assert_eq!(settle("7", Waited::Answered(frame("7"))), Ok(frame("7")));
    assert_eq!(settle("7", Waited::Answered(frame("8"))), Err(CallError::IdMismatch));
    assert_eq!(settle("7", Waited::TimedOut).unwrap_err().message(), "remote request timed out");
    assert_eq!(settle("7", Waited::DispatcherStopped).unwrap_err().message(), "remote response dispatcher stopped");
    assert_eq!(settle("7", Waited::Failed("eof".to_string())).unwrap_err().message(), "eof");
    assert_eq!(CallError::IdMismatch.message(), "response id mismatch");
    assert_eq!(REQUEST_SECONDS, 24 * 60 * 60);
}

#[test]
fn every_waiter_is_served_once() {
    let mut pending: Pending<u8> = Pending::new();
    assert_eq!(pending.register("x".to_string(), 1), None);
    assert_eq!(pending.register("y".to_string(), 2), None);
    assert_eq!(pending.register("z".to_string(), 3), None);
    assert_eq!(pending.take("y"), Some(2));
    assert_eq!(pending.take("y"), None);
    assert!(!pending.dead);
    assert_eq!(pending.fail(), vec![("x".to_string(), 1), ("z".to_string(), 3)]);
    assert!(pending.dead);
    assert_eq!(pending.fail(), vec![]);
    let mut other: Pending<u8> = Pending::new();
    other.mark_dead();
    assert!(other.dead);
}
