use sshctx::deploy::Platform;
use sshctx::digest::hex_sha256;
use sshctx::json::Json;
use sshctx::local_files::{collect_local_files, manifest_name, LocalEntry};
use sshctx::protocol::{Frame, Response};
use sshctx::pull::{PullStage, PullStep, SyncPull};
use sshctx::push::{PushStage, PushStep, PushTally, SyncPush};
use sshctx::requests::{SyncPullRequest, SyncPushRequest, TransferRequest};
use sshctx::runtime::ok;
use sshctx::tools::{Answer, RemoteCall, ToolError, ToolService};
use sshctx::transfer::{Transfer, TransferStage, TransferStep, CHUNK_BYTES};

fn parse(text: &str) -> Json {
    Json::from_value(serde_json::from_str(text).unwrap())
}

fn push_request(delete: bool) -> SyncPushRequest {
    SyncPushRequest {
        host: "h".to_string(),
        local_path: "/l".to_string(),
        remote_path: "/r//".to_string(),
        exclude: vec![],
        delete,
    }
}

fn pull_request() -> SyncPullRequest {
    SyncPullRequest { host: "h".to_string(), remote_path: "/r/".to_string(), local_path: "/l".to_string() }
}

fn transfer_request() -> TransferRequest {
    TransferRequest {
        source_host: "s".to_string(),
        source_path: "/from".to_string(),
        destination_host: "d".to_string(),
        destination_path: "/to".to_string(),
        resume: false,
        verify: None,
    }
}

fn call(host: &str, method: &str, params: &str, payload: &[u8], readonly: bool) -> RemoteCall {
    RemoteCall {
        host: host.to_string(),
        method: method.to_string(),
        params: parse(params),
        payload: payload.to_vec(),
        readonly,
    }
}

fn frame(result: &str, payload: &[u8]) -> Frame<Response> {
    let mut frame = ok("7".to_string(), parse(result));
    frame.payload = payload.to_vec();
    frame
}

fn given(result: &str, payload: &[u8]) -> Answer {
    Answer::Given(frame(result, payload))
}

fn refused(reason: &str) -> Answer {
    let mut frame = frame("null", b"");
    frame.header.ok = false;
    frame.header.error = Some(reason.to_string());
    Answer::Given(frame)
}

fn missing() -> Answer {
    Answer::Missing("connection lost".to_string())
}

fn pushing(manifest: &str) -> SyncPush {
    let (mut push, _) = ToolService::new(()).sync_push(&push_request(false)).unwrap();
    assert_eq!(push.answer(given(manifest, b"")), Ok(()));
    push
}

fn pulling(platform: Platform, root: &str) -> SyncPull {
    ToolService::new(()).sync_pull(platform, &pull_request(), root.to_string()).0
}

fn transferring(stat: &str) -> (Transfer, Result<TransferStep, ToolError>) {
    let (mut transfer, _) = ToolService::new(()).transfer(transfer_request());
    let step = transfer.answer(given(stat, b""));
    (transfer, step)
}

#[test]
fn every_tool_begins_with_a_question() {
    let service = ToolService::new(());
    let (push, asked) = service.sync_push(&push_request(false)).unwrap();
    assert_eq!(asked, call("h", "manifest", "{\"path\":\"/r//\"}", b"", true));
    assert_eq!(push.stage, PushStage::Manifest);
    let (pull, asked) = service.sync_pull(Platform::Unix, &pull_request(), "/root".to_string());
    assert_eq!(asked, call("h", "manifest", "{\"path\":\"/r/\"}", b"", true));
    assert_eq!(pull.stage, PullStage::Manifest);
    let (transfer, asked) = service.transfer(transfer_request());
    assert_eq!(asked, call("s", "stat", "{\"path\":\"/from\"}", b"", true));
    assert_eq!(transfer.stage, TransferStage::Stat);
}

#[test]
fn deletions_are_refused() {
    let error = ToolService::new(()).sync_push(&push_request(true)).unwrap_err();
    assert_eq!(error, ToolError::DeleteRefused);
    assert_eq!(
        error.message(),
        "delete=true is intentionally not accepted by the v0.1 MCP surface; reconcile deletions explicitly"
    );
}

#[test]
fn only_changed_files_are_sent() {
    let known = hex_sha256(&b"same".to_vec());
    let mut push = pushing(&format!(
        "{{\"entries\":{{\"a\":{{\"sha256\":\"{known}\"}},\"b/c\":{{\"sha256\":\"00\"}},\"odd\":3}}}}"
    ));
    assert_eq!(push.offer("a", b"same".to_vec()), PushStep::Unchanged);
    let hash = hex_sha256(&b"new".to_vec());
    assert_eq!(
        push.offer("b\\c", b"new".to_vec()),
        PushStep::Send(call("h", "write_atomic", &format!("{{\"path\":\"/r/b/c\",\"sha256\":\"{hash}\"}}"), b"new", false))
    );
    assert_eq!(push.answer(given("null", b"")), Ok(()));
    assert!(matches!(push.offer("odd", b"12345".to_vec()), PushStep::Send(_)));
    assert_eq!(push.answer(given("null", b"")), Ok(()));
    assert!(matches!(push.offer("unknown", b"".to_vec()), PushStep::Send(_)));
    assert_eq!(push.summary(), None);
    assert_eq!(push.answer(given("null", b"")), Ok(()));
    assert_eq!(push.tally, PushTally { changed: 3, unchanged: 1, bytes: 8 });
    assert_eq!(
        push.summary().unwrap(),
        "changed_files=3\nunchanged_files=1\ntransferred_bytes=8\n(Complete: sync push finished; no remote files deleted.)"
    );
    assert!(push.tally.room_for(100));
    assert!(!push.tally.room_for(usize::MAX));
}

#[test]
fn a_push_ends_with_the_first_failure() {
    let (mut push, _) = ToolService::new(()).sync_push(&push_request(false)).unwrap();
    assert_eq!(push.offer("a", b"x".to_vec()), PushStep::Refused);
    assert_eq!(push.answer(missing()), Err(ToolError::Unreachable("connection lost".to_string())));
    assert_eq!(push.stage, PushStage::Over);
    assert_eq!(push.offer("a", b"x".to_vec()), PushStep::Refused);
    let mut push = pushing("{}");
    assert!(matches!(push.offer("a", b"x".to_vec()), PushStep::Send(_)));
    assert_eq!(push.offer("b", b"x".to_vec()), PushStep::Refused);
    assert_eq!(push.answer(refused("disk full")), Err(ToolError::Remote("disk full".to_string())));
    assert_eq!(push.offer("b", b"x".to_vec()), PushStep::Refused);
    assert_eq!(push.answer(given("{}", b"")), Ok(()));
    assert_eq!(push.stage, PushStage::Over);
    assert_eq!(push.summary(), None);
}

#[test]
fn a_second_push_sends_nothing() {
    let files = [("x", &b"one"[..]), ("y/z", &b"two"[..])];
    let entries: Vec<String> = files
        .iter()
        .map(|(name, content)| format!("\"{name}\":{{\"sha256\":\"{}\"}}", hex_sha256(&content.to_vec())))
        .collect();
    let mut push = pushing(&format!("{{\"entries\":{{{}}}}}", entries.join(",")));
    for (name, content) in files {
        assert_eq!(push.offer(name, content.to_vec()), PushStep::Unchanged);
    }
    assert_eq!(push.tally, PushTally { changed: 0, unchanged: 2, bytes: 0 });
}

#[test]
fn a_host_without_a_list_is_sent_everything() {
    for manifest in ["{}", "null", "{\"entries\":[1]}"] {
        let mut push = pushing(manifest);
        assert!(matches!(push.offer("a", b"x".to_vec()), PushStep::Send(_)));
    }
}

fn entry(path: &str, is_file: bool) -> LocalEntry {
    LocalEntry {
        components: path.split('/').map(|c| c.as_bytes().to_vec()).collect(),
        relative: path.to_string(),
        is_file,
    }
}

#[test]
fn files_are_collected_in_path_order() {
    let names = [
        "z", "a/b", "a-b", "a", ".git/config", "src/target/x", "data", "datafile", "logs/l", "dir", "keep/me",
        "skip/this", "skipped", "m/models", "x/__pycache__/y", "outputs.txt", "a/a",
    ];
    let entries: Vec<LocalEntry> = names.iter().map(|n| entry(n, *n != "dir")).collect();
    let places = collect_local_files(&entries, &vec!["skip/".to_string()]);
    let found: Vec<&str> = places.iter().map(|i| names[*i]).collect();
    assert_eq!(found, vec!["a", "a/a", "a/b", "a-b", "datafile", "keep/me", "outputs.txt", "z"]);
    let mut sorted: Vec<std::path::PathBuf> = found.iter().map(std::path::PathBuf::from).collect();
    sorted.sort();
    assert_eq!(sorted, found.iter().map(std::path::PathBuf::from).collect::<Vec<_>>());
    assert_eq!(collect_local_files(&entries, &vec!["/".to_string()]), Vec::<usize>::new());
}

#[test]
fn backslashes_are_slashes() {
    assert_eq!(manifest_name("a\\b/c"), "a/b/c");
    let entries = vec![entry("x\\.git\\y", true)];
    assert_eq!(collect_local_files(&entries, &vec![]), Vec::<usize>::new());
}

#[test]
fn files_are_pulled_one_after_the_other() {
    let mut pull = pulling(Platform::Unix, "/root");
    assert_eq!(pull.step(), Ok(PullStep::Nothing));
    assert_eq!(pull.answer(given("{\"entries\":{\"b.txt\":{},\"a/c\":{}}}", b"")), Ok(None));
    assert_eq!(pull.names, vec!["a/c", "b.txt"]);
    let mut seen = Vec::new();
    loop {
        match pull.step().unwrap() {
            PullStep::Fetch(file) => {
                seen.push((file.destination, file.part, file.call));
                assert_eq!(pull.step(), Ok(PullStep::Nothing));
                assert_eq!(pull.answer(given("null", b"12345")), Ok(Some(b"12345".to_vec())));
                assert_eq!(pull.step(), Ok(PullStep::Nothing));
                assert!(pull.room_for(5));
                pull.stored(5);
            }
            PullStep::Finished(text) => {
                assert_eq!(text, "files=2\ntransferred_bytes=10\n(Complete: sync pull finished.)");
                break;
            }
            PullStep::Nothing => panic!("nothing"),
        }
    }
    assert_eq!(pull.stage, PullStage::Over);
    assert_eq!(pull.step(), Ok(PullStep::Nothing));
    assert_eq!(
        seen,
        vec![
            (
                "/root/a/c".to_string(),
                "/root/a/c.sshctx-part".to_string(),
                call("h", "read", "{\"path\":\"/r/a/c\",\"byte_limit\":268435456}", b"", true)
            ),
            (
                "/root/b.txt".to_string(),
                "/root/b.sshctx-part".to_string(),
                call("h", "read", "{\"path\":\"/r/b.txt\",\"byte_limit\":268435456}", b"", true)
            ),
        ]
    );
    assert!(!pull.room_for(usize::MAX));
}

#[test]
fn a_pull_ends_with_the_first_failure() {
    let mut pull = pulling(Platform::Unix, "/root");
    assert_eq!(pull.answer(refused("denied")), Err(ToolError::Remote("denied".to_string())));
    assert_eq!(pull.stage, PullStage::Over);
    assert_eq!(pull.step(), Ok(PullStep::Nothing));
    let mut pull = pulling(Platform::Unix, "/root");
    assert_eq!(pull.answer(given("{\"entries\":{\"a\":{},\"b\":{}}}", b"")), Ok(None));
    assert!(matches!(pull.step(), Ok(PullStep::Fetch(_))));
    assert_eq!(pull.answer(missing()), Err(ToolError::Unreachable("connection lost".to_string())));
    assert_eq!(pull.answer(given("null", b"late")), Ok(None));
    pull.stored(4);
    assert_eq!((pull.stage, pull.count, pull.bytes), (PullStage::Over, 0, 0));
    assert_eq!(pull.step(), Ok(PullStep::Nothing));
}

#[test]
fn names_that_lead_out_stop_the_run() {
    let mut pull = pulling(Platform::Unix, "/root");
    assert_eq!(pull.answer(given("{\"entries\":{\"a\":{},\"b/../../c\":{},\"d\":{}}}", b"")), Ok(None));
    assert!(matches!(pull.step(), Ok(PullStep::Fetch(_))));
    assert_eq!(pull.answer(given("null", b"")), Ok(Some(vec![])));
    pull.stored(0);
    let error = pull.step().unwrap_err();
    assert_eq!(error, ToolError::UnsafePath);
    assert_eq!(error.message(), "unsafe manifest path");
    assert_eq!(pull.step(), Ok(PullStep::Nothing));
}

#[test]
fn files_go_to_windows_with_backslashes() {
    let mut pull = pulling(Platform::Windows, "\\\\?\\C:\\data");
    assert_eq!(pull.answer(given("{\"entries\":{\"a/./b.txt\":{},\"x\\\\..\\\\y\":{}}}", b"")), Ok(None));
    match pull.step() {
        Ok(PullStep::Fetch(file)) => {
            assert_eq!(file.destination, "\\\\?\\C:\\data\\a\\b.txt");
            assert_eq!(file.part, "\\\\?\\C:\\data\\a\\b.sshctx-part");
        }
        other => panic!("{other:?}"),
    }
    assert_eq!(pull.answer(given("null", b"1")), Ok(Some(b"1".to_vec())));
    pull.stored(1);
    assert_eq!(pull.step(), Err(ToolError::UnsafePath));
}

#[test]
fn a_list_that_is_none_is_refused() {
    for manifest in ["{}", "{\"entries\":[]}", "3"] {
        let mut pull = pulling(Platform::Unix, "/root");
        let error = pull.answer(given(manifest, b"")).unwrap_err();
        assert_eq!(error, ToolError::InvalidManifest);
        assert_eq!(error.message(), "invalid manifest");
        assert_eq!(pull.stage, PullStage::Over);
    }
}

#[test]
fn a_file_is_passed_on_piece_by_piece() {
    let (mut transfer, step) = transferring("{\"size\":6}");
    let read = |offset: u64| {
        let params = format!("{{\"path\":\"/from\",\"byte_offset\":{offset},\"byte_limit\":8388608}}");
        Ok(TransferStep::Call(call("s", "read", &params, b"", true)))
    };
    assert_eq!(step, read(0));
    assert_eq!(
        transfer.answer(given("null", b"abcd")),
        Ok(TransferStep::Call(call("d", "write_chunk", "{\"path\":\"/to\",\"offset\":0}", b"abcd", false)))
    );
    assert_eq!(transfer.answer(given("null", b"")), read(4));
    assert!(transfer.room_for(&given("null", b"ef")));
    assert_eq!(
        transfer.answer(given("null", b"ef")),
        Ok(TransferStep::Call(call("d", "write_chunk", "{\"path\":\"/to\",\"offset\":4}", b"ef", false)))
    );
    let hash = hex_sha256(&b"abcdef".to_vec());
    assert_eq!(
        transfer.answer(given("null", b"")),
        Ok(TransferStep::Call(call(
            "d",
            "commit_chunks",
            &format!("{{\"path\":\"/to\",\"sha256\":\"{hash}\"}}"),
            b"",
            false
        )))
    );
    assert_eq!(
        transfer.answer(given("null", b"")),
        Ok(TransferStep::Finished(format!(
            "transferred_bytes=6\nsha256={hash}\n(Complete: host-to-host transfer verified.)"
        )))
    );
    assert_eq!(transfer.stage, TransferStage::Over);
    assert_eq!(transfer.answer(given("null", b"more")), Ok(TransferStep::Nothing));
    assert_eq!(CHUNK_BYTES, 8 * 1024 * 1024);
}

#[test]
fn an_empty_file_is_only_completed() {
    let (mut transfer, step) = transferring("{\"size\":0}");
    let hash = hex_sha256(&vec![]);
    assert_eq!(
        step,
        Ok(TransferStep::Call(call(
            "d",
            "commit_chunks",
            &format!("{{\"path\":\"/to\",\"sha256\":\"{hash}\"}}"),
            b"",
            false
        )))
    );
    assert!(matches!(transfer.answer(given("null", b"")), Ok(TransferStep::Finished(_))));
}

#[test]
fn nothing_is_sent_after_a_failure() {
    for good in 0..4 {
        for bad in [refused("no"), missing()] {
            let expected = match &bad {
                Answer::Given(_) => ToolError::Remote("no".to_string()),
                Answer::Missing(_) => ToolError::Unreachable("connection lost".to_string()),
            };
            let (mut transfer, _) = ToolService::new(()).transfer(transfer_request());
            for _ in 0..good {
                assert!(matches!(transfer.answer(given("{\"size\":3}", b"abc")), Ok(TransferStep::Call(_))));
            }
            assert_eq!(transfer.answer(bad), Err(expected));
            assert_eq!(transfer.stage, TransferStage::Over);
            for _ in 0..3 {
                assert_eq!(transfer.answer(given("{\"size\":3}", b"abc")), Ok(TransferStep::Nothing));
            }
        }
    }
}

#[test]
fn a_source_that_ends_early_is_an_error() {
    let (mut transfer, _) = transferring("{\"size\":1}");
    let error = transfer.answer(given("null", b"")).unwrap_err();
    assert_eq!(error, ToolError::SourceEnded);
    assert_eq!(error.message(), "source ended before advertised size");
    assert_eq!(transfer.answer(given("null", b"x")), Ok(TransferStep::Nothing));
    let (mut transfer, _) = transferring("{\"size\":1}");
    transfer.offset = u64::MAX;
    assert!(!transfer.room_for(&given("null", b"x")));
    assert!(transfer.room_for(&missing()));
}

#[test]
fn a_size_that_is_none_is_an_error() {
    for stat in ["{}", "{\"size\":\"6\"}", "{\"size\":-1}", "{\"size\":1.5}", "[]"] {
        let (transfer, step) = transferring(stat);
        let error = step.unwrap_err();
        assert_eq!(error, ToolError::SizeUnavailable);
        assert_eq!(error.message(), "source size unavailable");
        assert_eq!(transfer.stage, TransferStage::Over);
    }
}
