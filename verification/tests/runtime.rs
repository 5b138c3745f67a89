use sshctx::activity::{Activity, IDLE_CHECK_SECONDS, IDLE_SECONDS};
use sshctx::audit::{audit_fields, audit_line, completion_record, redact_error, start_record, Outcome};
use sshctx::json::Json;
use sshctx::pool::build_request;
use sshctx::protocol::{read_frame, write_frame, Frame, Request, Response};
use sshctx::runtime::{
    dispatch, handling_next, hosts_answer, ok, reconnect_answer, response_for, ClientError, DispatchError,
    HandlingNext, HandlingStage, RuntimeAction, RuntimeClient, MAX_CALL_NESTING,
};
use sshctx::startup::{
    after_pipe_error, runtime_host_args, start_next, HostArgument, NextTry, StartNext, StartStage, StartupError,
    PIPE_PAUSE_MILLIS, PIPE_TRIES, READY_PAUSE_MILLIS, READY_POLLS,
};
use sshctx::string_map::StringMap;

fn parse(text: &str) -> Json {
    Json::from_value(serde_json::from_str(text).unwrap())
}

fn request(method: &str, params: &str) -> Request {
    build_request("7".to_string(), method, parse(params), false)
}

fn client() -> RuntimeClient {
    RuntimeClient::new("/tmp/sock".to_string())
}

fn refused(error: Option<&str>) -> Frame<Response> {
    Frame {
        header: Response {
            id: "7".to_string(),
            ok: false,
            result: Json::Null,
            error: error.map(|s| s.to_string()),
            metadata: StringMap::new(),
        },
        payload: vec![],
    }
}

#[test]
fn requests_arrive_as_they_were_meant() {
    let call = client().call("gpu", "stat", parse("{\"path\":\"/x\"}"), true);
    assert_eq!(call.method, "call");
    assert!(call.readonly);
    assert_eq!(call.id.len(), 36);
    assert_eq!(
        call.params,
        parse("{\"host\":\"gpu\",\"method\":\"stat\",\"params\":{\"path\":\"/x\"},\"readonly\":true}")
    );
    assert_eq!(
        dispatch(&call),
        Ok(RuntimeAction::Call {
            host: "gpu".to_string(),
            method: "stat".to_string(),
            params: parse("{\"path\":\"/x\"}"),
            readonly: true
        })
    );
    let hosts = client().aliases();
    assert!(hosts.readonly);
    assert_eq!(hosts.params, parse("{}"));
    assert_eq!(dispatch(&hosts), Ok(RuntimeAction::Hosts));
    let reconnect = client().reconnect("gpu");
    assert!(!reconnect.readonly);
    assert_eq!(dispatch(&reconnect), Ok(RuntimeAction::Reconnect { host: "gpu".to_string() }));
    assert_eq!(client().clone().endpoint, "/tmp/sock");
}

#[test]
fn incomplete_requests_are_refused() {
    assert_eq!(dispatch(&request("reconnect", "{}")), Err(DispatchError::MissingHost));
    assert_eq!(dispatch(&request("call", "{\"host\":3}")), Err(DispatchError::MissingHost));
    assert_eq!(dispatch(&request("call", "[]")), Err(DispatchError::MissingHost));
    assert_eq!(dispatch(&request("call", "{\"host\":\"h\"}")), Err(DispatchError::MissingMethod));
    assert_eq!(dispatch(&request("other", "{}")), Err(DispatchError::UnknownMethod));
    assert_eq!(DispatchError::MissingHost.message(), "missing host");
    assert_eq!(DispatchError::MissingMethod.message(), "missing method");
    assert_eq!(DispatchError::UnknownMethod.message(), "unknown runtime method");
}

#[test]
fn what_a_call_leaves_out_is_null_and_may_change_something() {
    assert_eq!(
        dispatch(&request("call", "{\"host\":\"h\",\"method\":\"m\",\"readonly\":\"yes\"}")),
        Ok(RuntimeAction::Call {
            host: "h".to_string(),
            method: "m".to_string(),
            params: Json::Null,
            readonly: false
        })
    );
}

#[test]
fn answers_of_the_control_center() {
    let answer = hosts_answer("7".to_string(), &vec!["a".to_string(), "b".to_string()]);
    assert_eq!(answer.header.result, parse("[\"a\",\"b\"]"));
    assert_eq!(RuntimeClient::aliases_in(answer), Ok(vec!["a".to_string(), "b".to_string()]));
    let answer = reconnect_answer("7".to_string(), "a");
    assert_eq!(answer.header.id, "7");
    assert_eq!(answer.header.result, parse("{\"reconnected\":\"a\"}"));
    assert_eq!(RuntimeClient::confirm(answer), Ok(()));
}

#[test]
fn refusals_reach_the_client() {
    let error = RuntimeClient::aliases_in(refused(Some("no"))).unwrap_err();
    assert_eq!(error, ClientError::Refused("no".to_string()));
    assert_eq!(error.message(), "no");
    assert_eq!(RuntimeClient::confirm(refused(None)).unwrap_err().message(), "");
}

#[test]
fn aliases_that_are_none_are_reported() {
    let value: serde_json::Value = serde_json::from_str("[\"a\",3]").unwrap();
    let expected = serde_json::from_value::<Vec<String>>(value).unwrap_err().to_string();
    let error = RuntimeClient::aliases_in(ok("7".to_string(), parse("[\"a\",3]"))).unwrap_err();
    assert_eq!(error, ClientError::Malformed(expected));
    let error = RuntimeClient::aliases_in(ok("7".to_string(), Json::Float("x".to_string()))).unwrap_err();
    assert_eq!(error, ClientError::NotANumber);
    assert_eq!(error.message(), "invalid number");
}

#[test]
fn failures_are_answered_with_their_causes() {
    let outcome = Outcome::Failed { message: "outer".to_string(), chain: "outer: inner".to_string() };
    assert_eq!(response_for("7".to_string(), outcome), refused(Some("outer: inner")));
    let answered = ok("8".to_string(), Json::Bool(true));
    let same = ok("8".to_string(), Json::Bool(true));
    assert_eq!(response_for("7".to_string(), Outcome::Answered(answered)), same);
}

#[test]
fn stages_of_a_request() {
    assert_eq!(handling_next(HandlingStage::RecordStart, true), HandlingNext::Enter(HandlingStage::Perform));
    assert_eq!(handling_next(HandlingStage::RecordStart, false), HandlingNext::Dropped);
    for success in [true, false] {
        assert_eq!(handling_next(HandlingStage::Perform, success), HandlingNext::Enter(HandlingStage::RecordCompletion));
        assert_eq!(handling_next(HandlingStage::RecordCompletion, success), HandlingNext::Enter(HandlingStage::Respond));
    }
    assert_eq!(handling_next(HandlingStage::Respond, true), HandlingNext::Finished);
    assert_eq!(handling_next(HandlingStage::Respond, false), HandlingNext::Dropped);
}

#[test]
fn arguments_are_not_recorded() {
    let exec = request(
        "call",
        "{\"host\":\"h\",\"method\":\"exec\",\"params\":{\"cwd\":\"/w\",\"argv\":[\"prog\",\"--password\",\"secret\"],\"env\":{\"TOKEN\":\"t\"}}}",
    );
    assert_eq!(
        audit_fields(&exec),
        parse("{\"host\":\"h\",\"type\":\"exec\",\"cwd\":\"/w\",\"path\":null,\"command\":{\"program\":\"prog\",\"argc\":3}}")
    );
    let shell = request("call", "{\"host\":\"h\",\"method\":\"exec\",\"params\":{\"command\":\"écho secret\"}}");
    assert_eq!(
        audit_fields(&shell),
        parse("{\"host\":\"h\",\"type\":\"exec\",\"cwd\":null,\"path\":null,\"command\":{\"shell\":true,\"characters\":11}}")
    );
    let read = request("call", "{\"host\":\"h\",\"method\":\"read\",\"params\":{\"path\":\"/x\"}}");
    assert_eq!(
        audit_fields(&read),
        parse("{\"host\":\"h\",\"type\":\"read\",\"cwd\":null,\"path\":\"/x\",\"command\":null}")
    );
    let empty = request("call", "{\"params\":{\"argv\":[]}}");
    assert_eq!(
        audit_fields(&empty),
        parse("{\"host\":null,\"type\":null,\"cwd\":null,\"path\":null,\"command\":{\"program\":null,\"argc\":0}}")
    );
    assert_eq!(audit_fields(&request("hosts", "{}")), parse("{\"runtime_method\":\"hosts\"}"));
}

#[test]
fn records_of_a_request() {
    let hosts = request("hosts", "{}");
    assert_eq!(
        audit_line(&start_record(12, &hosts)).unwrap(),
        "{\"operation\":{\"runtime_method\":\"hosts\"},\"readonly\":false,\"request_id\":\"7\",\"stage\":\"start\",\"timestamp\":12}\n"
    );
    let failed = Outcome::Failed { message: "bad".to_string(), chain: "bad: worse".to_string() };
    assert_eq!(
        completion_record(13, &hosts, &failed),
        parse("{\"timestamp\":13,\"stage\":\"complete\",\"request_id\":\"7\",\"ok\":false,\"exit_code\":null,\"error\":\"bad\",\"operation\":{\"runtime_method\":\"hosts\"}}")
    );
    let answered = Outcome::Answered(ok("7".to_string(), parse("{\"exit_code\":3}")));
    assert_eq!(
        completion_record(13, &hosts, &answered),
        parse("{\"timestamp\":13,\"stage\":\"complete\",\"request_id\":\"7\",\"ok\":true,\"exit_code\":3,\"error\":null,\"operation\":{\"runtime_method\":\"hosts\"}}")
    );
    let refusal = Outcome::Answered(refused(Some("no")));
    assert_eq!(completion_record(1, &hosts, &refusal).get("error"), Some(&Json::Text("no".to_string())));
    assert_eq!(audit_line(&Json::Float("x".to_string())), None);
}

#[test]
fn errors_are_cut_to_five_hundred_characters() {
    let long = "é".repeat(501);
    assert_eq!(redact_error(&long), "é".repeat(500));
    assert_eq!(redact_error("short"), "short");
}

#[test]
fn an_idle_control_center_ends() {
    let mut activity = Activity::new(1000);
    assert!(!activity.expired(1599));
    assert!(activity.expired(1600));
    assert!(!activity.expired(10));
    activity.begin(1600);
    assert_eq!(activity, Activity { active: 1, last: 1600 });
    assert!(!activity.expired(9999));
    activity.begin(1700);
    activity.end(1800);
    assert!(!activity.expired(9999));
    activity.end(2000);
    assert!(!activity.expired(2599));
    assert!(activity.expired(2600));
    assert_eq!(IDLE_SECONDS, 600);
    assert_eq!(IDLE_CHECK_SECONDS, 30);
}

fn start_run(answered_at: Option<u32>) -> (u32, u32, bool) {
    let mut stage = StartStage::First;
    let mut questions = 0;
    let mut started = 0;
    loop {
        let answered = answered_at == Some(questions);
        questions += 1;
        match start_next(stage, answered) {
            StartNext::Connected => return (questions, started, true),
            StartNext::WaitAndGiveUp => return (questions, started, false),
            StartNext::Start(later) => {
                started += 1;
                stage = later;
            }
            StartNext::WaitAndAsk(later) => stage = later,
        }
    }
}

#[test]
fn a_control_center_is_started_on_demand() {
    assert_eq!(start_next(StartStage::First, true), StartNext::Connected);
    assert_eq!(start_next(StartStage::First, false), StartNext::Start(StartStage::Polled(1)));
    assert_eq!(start_next(StartStage::Polled(1), true), StartNext::Connected);
    assert_eq!(start_next(StartStage::Polled(49), false), StartNext::WaitAndAsk(StartStage::Polled(50)));
    assert_eq!(start_next(StartStage::Polled(50), false), StartNext::WaitAndGiveUp);
    assert_eq!(start_run(Some(0)), (1, 0, true));
    assert_eq!(start_run(Some(1)), (2, 1, true));
    assert_eq!(start_run(Some(50)), (51, 1, true));
    assert_eq!(start_run(Some(51)), (51, 1, false));
    assert_eq!(start_run(None), (51, 1, false));
}

#[test]
fn a_call_arrives_over_the_wire() {
    let params = parse("{\"path\":\"/x\",\"rate\":1.50,\"deep\":[[{\"a\":-3}]]}");
    let sent = client().call("gpu", "stat", params.clone(), true);
    let header = sent.encode().unwrap();
    let mut wire = write_frame(&Frame { header, payload: b"bytes".to_vec() }).unwrap();
    wire.extend_from_slice(b"SCX1 and more");
    let (frame, _) = read_frame(&wire).unwrap();
    assert_eq!(frame.payload, b"bytes");
    let received = Request::decode(&frame.header).unwrap();
    assert_eq!(received, sent);
    assert_eq!(
        dispatch(&received),
        Ok(RuntimeAction::Call { host: "gpu".to_string(), method: "stat".to_string(), params, readonly: true })
    );
    assert!(audit_line(&start_record(1, &received)).is_some());
    let answered = Outcome::Answered(ok(received.id.clone(), parse("{\"exit_code\":0.50}")));
    assert_eq!(
        completion_record(2, &received, &answered).get("exit_code"),
        Some(&Json::Float("0.5".to_string()))
    );
    assert!(audit_line(&completion_record(2, &received, &answered)).is_some());
}

#[test]
fn calls_that_are_nested_too_deeply_are_not_read() {
    let nested = |levels: usize| {
        let mut value = Json::Null;
        for _ in 0..levels {
            value = Json::Array(vec![value]);
        }
        value
    };
    let deep = client().call("gpu", "stat", nested(125), true);
    assert_eq!(Request::decode(&deep.encode().unwrap()).unwrap(), deep);
    let deeper = client().call("gpu", "stat", nested(126), true);
    assert!(Request::decode(&deeper.encode().unwrap()).is_err());
    assert_eq!(MAX_CALL_NESTING, 125);
}

#[test]
fn an_answer_arrives_over_the_wire() {
    let sent = ok("7".to_string(), parse("{\"exit_code\":3,\"seconds\":0.25}"));
    let header = sent.header.encode().unwrap();
    let wire = write_frame(&Frame { header, payload: vec![1, 2] }).unwrap();
    let (frame, taken) = read_frame(&wire).unwrap();
    assert_eq!((frame.payload, taken), (vec![1, 2], wire.len()));
    let received = Response::decode(&frame.header).unwrap();
    assert_eq!(received, sent.header);
    assert_eq!(Response::decode(&received.encode().unwrap()).unwrap(), received);
}

#[test]
fn starting_a_control_center() {
    let text = |s: &str| HostArgument::Text(s.to_string());
    assert_eq!(
        runtime_host_args("/s", Some("/c")),
        vec![text("runtime-host"), text("--endpoint"), text("/s"), text("--config"), HostArgument::Path("/c")]
    );
    let none: Option<&str> = None;
    assert_eq!(runtime_host_args("/s", none), vec![text("runtime-host"), text("--endpoint"), text("/s")]);
    assert_eq!(after_pipe_error(19, Some(231)), NextTry::WaitAndTry);
    assert_eq!(after_pipe_error(20, Some(231)), NextTry::WaitAndGiveUp);
    assert_eq!(after_pipe_error(1, Some(2)), NextTry::Fail);
    assert_eq!(after_pipe_error(1, None), NextTry::Fail);
    assert_eq!(StartupError::NotReady.message(), "runtime-host did not become ready");
    assert_eq!(StartupError::PipeBusy.message(), "runtime named pipe is busy");
    assert_eq!((READY_POLLS, READY_PAUSE_MILLIS, PIPE_TRIES, PIPE_PAUSE_MILLIS), (50, 100, 20, 50));
}
