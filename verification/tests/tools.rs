use sshctx::budget::Page;
use sshctx::json::Json;
use sshctx::protocol::{Frame, Response};
use sshctx::requests::{
    ExecRequest, GlobRequest, GrepRequest, HostPageRequest, HostRequest, JobKillRequest, JobOutputRequest,
    JobStartRequest, PathRequest, ProcessesRequest, QueryOperation, QueryRequest, ReadRequest,
};
use sshctx::runtime::ok;
use sshctx::string_map::StringMap;
use sshctx::tools::{accepted, taken, Answer, ToolCall, ToolError, ToolService};

fn parse(text: &str) -> Json {
    Json::from_value(serde_json::from_str(text).unwrap())
}

fn service() -> ToolService<()> {
    ToolService::new(())
}

fn page() -> Page {
    Page { offset: Some(3), limit: Some(4) }
}

fn check(tool: ToolCall, method: &str, params: &str, readonly: bool, page: Page) {
    assert_eq!(tool.call.host, "h");
    assert_eq!(tool.call.method, method);
    assert_eq!(tool.call.params, parse(params));
    assert_eq!(tool.call.payload, Vec::<u8>::new());
    assert_eq!(tool.call.readonly, readonly);
    assert_eq!(tool.showing.payload_first, readonly);
    assert_eq!(tool.showing.page, page);
}

#[test]
fn reading_tools() {
    let s = service();
    let host = || "h".to_string();
    let path = || "/p".to_string();
    check(s.stat(PathRequest { host: host(), path: path() }), "stat", "{\"path\":\"/p\"}", true, Page::default());
    check(
        s.read(ReadRequest { host: host(), path: path(), byte_offset: Some(5), byte_limit: None, page: page() }),
        "read",
        "{\"path\":\"/p\",\"byte_offset\":5,\"byte_limit\":null}",
        true,
        page(),
    );
    check(
        s.grep(GrepRequest {
            host: host(),
            path: path(),
            pattern: "x".to_string(),
            case_insensitive: Some(true),
            encoding: None,
            match_limit: Some(9),
            page: page(),
        }),
        "grep",
        "{\"host\":\"h\",\"path\":\"/p\",\"pattern\":\"x\",\"case_insensitive\":true,\"encoding\":null,\"match_limit\":9,\"offset\":3,\"limit\":4}",
        true,
        page(),
    );
    check(
        s.glob(GlobRequest {
            host: host(),
            path: path(),
            pattern: "*".to_string(),
            match_limit: None,
            page: Page::default(),
        }),
        "glob",
        "{\"host\":\"h\",\"path\":\"/p\",\"pattern\":\"*\",\"match_limit\":null,\"offset\":null,\"limit\":null}",
        true,
        Page::default(),
    );
    check(s.gpu_status(HostPageRequest { host: host(), page: page() }), "gpu_status", "{}", true, page());
    check(
        s.processes(ProcessesRequest { host: host(), pattern: Some("py".to_string()), page: page() }),
        "processes",
        "{\"pattern\":\"py\"}",
        true,
        page(),
    );
    check(
        s.job_output(JobOutputRequest {
            host: host(),
            job_id: "j".to_string(),
            offset: Some(1),
            limit: Some(2),
            page: page(),
        }),
        "job_output",
        "{\"host\":\"h\",\"job_id\":\"j\",\"offset\":1,\"limit\":2}",
        true,
        page(),
    );
    check(
        s.job_output(JobOutputRequest {
            host: host(),
            job_id: "j1".to_string(),
            offset: Some(10),
            limit: Some(5),
            page: Page::default(),
        }),
        "job_output",
        "{\"host\":\"h\",\"job_id\":\"j1\",\"offset\":10,\"limit\":5}",
        true,
        Page::default(),
    );
    check(
        s.job_output(JobOutputRequest {
            host: host(),
            job_id: "j".to_string(),
            offset: None,
            limit: None,
            page: page(),
        }),
        "job_output",
        "{\"host\":\"h\",\"job_id\":\"j\",\"offset\":3,\"limit\":4}",
        true,
        page(),
    );
    check(
        s.query(QueryRequest {
            host: host(),
            operations: vec![
                QueryOperation { method: "stat".to_string(), params: parse("{\"path\":\"/a\"}") },
                QueryOperation { method: "gpu_status".to_string(), params: Json::Null },
            ],
            page: page(),
        }),
        "query",
        "{\"operations\":[{\"method\":\"stat\",\"params\":{\"path\":\"/a\"}},{\"method\":\"gpu_status\",\"params\":null}]}",
        true,
        page(),
    );
}

#[test]
fn changing_tools() {
    let s = service();
    let host = || "h".to_string();
    let mut env = StringMap::new();
    env.insert("B".to_string(), "2".to_string());
    env.insert("A".to_string(), "1".to_string());
    check(
        s.exec(ExecRequest {
            host: host(),
            cwd: "/w".to_string(),
            argv: Some(vec!["ls".to_string(), "-l".to_string()]),
            command: None,
            env,
            timeout_ms: Some(120000),
            page: page(),
        })
        .unwrap(),
        "exec",
        "{\"host\":\"h\",\"cwd\":\"/w\",\"argv\":[\"ls\",\"-l\"],\"command\":null,\"env\":{\"A\":\"1\",\"B\":\"2\"},\"timeout_ms\":120000,\"offset\":3,\"limit\":4}",
        false,
        page(),
    );
    check(
        s.job_start(JobStartRequest {
            host: host(),
            cwd: "/w".to_string(),
            argv: None,
            command: Some("sleep 1".to_string()),
            env: StringMap::new(),
        }),
        "job_start",
        "{\"host\":\"h\",\"cwd\":\"/w\",\"argv\":null,\"command\":\"sleep 1\",\"env\":{}}",
        false,
        Page::default(),
    );
    check(
        s.job_kill(JobKillRequest { host: host(), job_id: "j".to_string() }),
        "job_kill",
        "{\"host\":\"h\",\"job_id\":\"j\"}",
        false,
        Page::default(),
    );
    let update = s.agent_update(HostRequest { host: host() });
    check(update.dropped(true).unwrap(), "ping", "{}", false, Page::default());
}

#[test]
fn an_agent_is_asked_only_on_a_new_connection() {
    let update = service().agent_update(HostRequest { host: "gpu".to_string() });
    assert_eq!(update.host(), "gpu");
    assert_eq!(update.dropped(false), None);
    let update = service().agent_update(HostRequest { host: "gpu".to_string() });
    let ping = update.dropped(true).unwrap();
    assert_eq!((ping.call.host.as_str(), ping.call.method.as_str(), ping.call.readonly), ("gpu", "ping", false));
    assert_eq!(ping.showing.finish(answer("1", b"")).unwrap(), "1\n(Complete: all 1 lines shown.)");
}

fn answer(result: &str, payload: &[u8]) -> Frame<Response> {
    let mut frame = ok("7".to_string(), parse(result));
    frame.payload = payload.to_vec();
    frame
}

#[test]
fn results_are_shown_with_indentation() {
    let tool = service().stat(PathRequest { host: "h".to_string(), path: "/p".to_string() });
    assert_eq!(
        tool.showing.finish(answer("{\"size\":3}", b"")).unwrap(),
        "{\n  \"size\": 3\n}\n(Complete: all 3 lines shown.)"
    );
}

#[test]
fn payloads_are_shown_in_place_of_results() {
    let tool = service().read(ReadRequest {
        host: "h".to_string(),
        path: "/p".to_string(),
        byte_offset: None,
        byte_limit: None,
        page: Page { offset: Some(2), limit: Some(1) },
    });
    assert_eq!(
        tool.showing.finish(answer("{}", "a\nß\nc".as_bytes())).unwrap(),
        "ß\n(Partial: lines 2-2 shown. Continue with offset=3.)"
    );
    assert_eq!(
        tool.showing.finish(answer("{}", b"a\n\xffb")).unwrap(),
        "\u{fffd}b\n(Complete: all 2 lines shown.)"
    );
}

#[test]
fn what_a_changing_tool_brings_along_is_not_shown() {
    let tool = service().job_kill(JobKillRequest { host: "h".to_string(), job_id: "j".to_string() });
    assert_eq!(tool.showing.finish(answer("true", b"bytes")).unwrap(), "true\n(Complete: all 1 lines shown.)");
}

#[test]
fn failures_of_a_host_are_reported() {
    let mut frame = answer("null", b"");
    frame.header.ok = false;
    let tool = service().job_kill(JobKillRequest { host: "h".to_string(), job_id: "j".to_string() });
    assert_eq!(tool.showing.finish(frame), Err(ToolError::Remote("remote operation failed".to_string())));
    let mut frame = answer("null", b"");
    frame.header.ok = false;
    frame.header.error = Some("denied".to_string());
    let error = accepted(frame).unwrap_err();
    assert_eq!(error.message(), "denied");
    assert_eq!(accepted(answer("1", b"x")), Ok(answer("1", b"x")));
    assert_eq!(taken(Answer::Given(answer("1", b"x"))), Ok(answer("1", b"x")));
    let mut frame = answer("null", b"");
    frame.header.ok = false;
    assert_eq!(taken(Answer::Given(frame)), Err(ToolError::Remote("remote operation failed".to_string())));
    let error = taken(Answer::Missing("no route: timed out".to_string())).unwrap_err();
    assert_eq!(error, ToolError::Unreachable("no route: timed out".to_string()));
    assert_eq!(error.message(), "no route: timed out");
    let broken = ok("7".to_string(), Json::Float("x".to_string()));
    assert_eq!(tool.showing.finish(broken).unwrap_err().message(), "invalid number");
}

#[test]
fn exactly_one_command_is_run() {
    let request = |argv: Option<Vec<String>>, command: Option<String>| ExecRequest {
        host: "h".to_string(),
        cwd: "/w".to_string(),
        argv,
        command,
        env: StringMap::new(),
        timeout_ms: None,
        page: Page::default(),
    };
    let argv = || Some(vec!["ls".to_string()]);
    let line = || Some("ls".to_string());
    assert_eq!(service().exec(request(None, None)), Err(ToolError::NotOneCommand));
    let error = service().exec(request(argv(), line())).unwrap_err();
    assert_eq!(error.message(), "exactly one of argv and command is required");
    assert!(service().exec(request(argv(), None)).is_ok());
    assert!(service().exec(request(None, line()).clone()).is_ok());
}

#[test]
fn hosts_are_listed() {
    let aliases = vec!["a".to_string(), "b".to_string()];
    assert_eq!(service().hosts(&aliases), "a\nb\n(Complete: all 2 lines shown.)");
    assert_eq!(service().hosts(&vec![]), "(Complete: all 0 lines shown.)");
}
