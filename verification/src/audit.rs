//! The records of the audit log.

use vstd::prelude::*;
use crate::json::{no_members, opt_view, or_null, put, text_or_null, Json, JsonView};
use crate::json_value::{
    compact_text, law_members_are_read_back, law_more_levels_are_enough, printable, readable, reread, tokens,
};
use crate::protocol::{Frame, Request, RequestView, Response};
use crate::text::{same_text, take_chars};

verus! {

/// How many characters of an error are kept.
pub const ERROR_CHARACTERS: usize = 500;

/// What is kept of an error.
pub open spec fn redacted(error: Seq<char>) -> Seq<char> {
    if error.len() <= ERROR_CHARACTERS {
        error
    } else {
        error.take(ERROR_CHARACTERS as int)
    }
}

/// What is kept of an error: its first 500 characters.
pub fn redact_error(error: &str) -> (r: String)
    ensures
        r@ == redacted(error@),
        r@.len() <= ERROR_CHARACTERS,
        r@.is_prefix_of(error@),
{
    let r = take_chars(error, ERROR_CHARACTERS);
    assert(r@ =~= error@.subrange(0, r@.len() as int));
    r
}

/// What is kept of a command: of an argument list the program and the number of
/// arguments, of a shell command the number of its characters.
pub open spec fn command_summary(params: JsonView) -> JsonView {
    match or_null(params.member("argv"@)) {
        JsonView::Array(argv) => JsonView::Object(
            map![
                "program"@ => text_or_null(if argv.len() > 0 { argv[0].text() } else { None }),
                "argc"@ => JsonView::Unsigned(argv.len() as u64),
            ],
        ),
        _ => match or_null(params.member("command"@)) {
            JsonView::Text(command) => JsonView::Object(
                map![
                    "shell"@ => JsonView::Bool(true),
                    "characters"@ => JsonView::Unsigned(command.len() as u64),
                ],
            ),
            _ => JsonView::Null,
        },
    }
}

/// What is kept of a request.
pub open spec fn audit_view(request: RequestView) -> JsonView {
    if request.method != "call"@ {
        JsonView::Object(map!["runtime_method"@ => JsonView::Text(request.method)])
    } else {
        let params = or_null(request.params.member("params"@));
        JsonView::Object(
            map![
                "host"@ => or_null(request.params.member("host"@)),
                "type"@ => or_null(request.params.member("method"@)),
                "cwd"@ => or_null(params.member("cwd"@)),
                "path"@ => or_null(params.member("path"@)),
                "command"@ => command_summary(params),
            ],
        )
    }
}

fn summarize_command(params: &Json) -> (r: Json)
    ensures
        r@ == command_summary(params@),
{
    let argv = match params.get("argv") {
        Some(v) => v.as_array(),
        None => None,
    };
    match argv {
        Some(items) => {
            let program = if items.len() > 0 {
                match items[0].as_str() {
                    Some(s) => Json::Text(s.clone()),
                    None => Json::Null,
                }
            } else {
                Json::Null
            };
            let mut members = no_members();
            put(&mut members, "program", program);
            put(&mut members, "argc", Json::number(items.len()));
            Json::Object(members)
        },
        None => {
            let command = match params.get("command") {
                Some(v) => v.as_str(),
                None => None,
            };
            match command {
                Some(s) => {
                    let mut members = no_members();
                    put(&mut members, "shell", Json::Bool(true));
                    put(&mut members, "characters", Json::number(s.as_str().unicode_len()));
                    Json::Object(members)
                },
                None => Json::Null,
            }
        },
    }
}

proof fn lemma_member_readable(v: JsonView, key: Seq<char>, levels: nat)
    requires
        readable(v, levels),
    ensures
        readable(or_null(v.member(key)), levels),
        levels > 0 ==> readable(or_null(v.member(key)), (levels - 1) as nat),
        levels == 0 ==> v.member(key) is None,
{
    match v {
        JsonView::Object(members) => {
            if members.contains_key(key) {
                law_members_are_read_back(members, key, levels);
                law_more_levels_are_enough(members[key], (levels - 1) as nat, levels);
            }
        },
        _ => {},
    }
}

/// The summary of a command is read back within one level.
pub proof fn law_a_summary_is_read_back(params: JsonView)
    ensures
        readable(command_summary(params), 1),
        params is Object || command_summary(params) == JsonView::Null,
{
    let summary = command_summary(params);
    if summary is Object {
        let members = summary->Object_0;
        assert forall|k: Seq<char>| members.contains_key(k) implies readable(#[trigger] members[k], 0) by {}
    }
}

/// What is kept of a request is read back where its parameters are, within one more
/// level.
pub proof fn law_what_is_kept_of_a_request_is_read_back(request: RequestView, levels: nat)
    requires
        readable(request.params, levels),
    ensures
        readable(audit_view(request), levels + 1),
{
    let kept = audit_view(request)->Object_0;
    if request.method == "call"@ {
        let params = or_null(request.params.member("params"@));
        lemma_member_readable(request.params, "host"@, levels);
        lemma_member_readable(request.params, "method"@, levels);
        lemma_member_readable(request.params, "params"@, levels);
        lemma_member_readable(params, "cwd"@, levels);
        lemma_member_readable(params, "path"@, levels);
        law_a_summary_is_read_back(params);
        if params is Object {
            law_more_levels_are_enough(command_summary(params), 1, levels);
        }
    }
    assert forall|k: Seq<char>| kept.contains_key(k) implies readable(#[trigger] kept[k], levels) by {}
}

/// What is kept of a request.
pub fn audit_fields(request: &Request) -> (r: Json)
    ensures
        r@ == audit_view(request@),
        forall|n: nat| #[trigger] readable(request.params@, n) ==> readable(r@, n + 1),
{
    proof {
        assert forall|n: nat| #[trigger] readable(request.params@, n) implies readable(audit_view(request@), n + 1) by {
            law_what_is_kept_of_a_request_is_read_back(request@, n);
        }
    }
    let mut members = no_members();
    if !same_text(request.method.as_str(), "call") {
        put(&mut members, "runtime_method", Json::Text(request.method.clone()));
        return Json::Object(members);
    }
    let nothing = Json::Null;
    let params = match request.params.get("params") {
        Some(v) => v,
        None => &nothing,
    };
    put(&mut members, "host", Json::or_null(request.params.get("host")));
    put(&mut members, "type", Json::or_null(request.params.get("method")));
    put(&mut members, "cwd", Json::or_null(params.get("cwd")));
    put(&mut members, "path", Json::or_null(params.get("path")));
    put(&mut members, "command", summarize_command(params));
    Json::Object(members)
}

/// Of an argument list nothing is kept but the program and the number of
/// arguments: lists that agree on these leave the same record.
pub proof fn law_arguments_are_not_recorded(a: JsonView, b: JsonView)
    requires
        a.member("argv"@) matches Some(x) && x.items() is Some,
        b.member("argv"@) matches Some(y) && y.items() is Some,
        ({
            let x = a.member("argv"@)->0.items()->0;
            let y = b.member("argv"@)->0.items()->0;
            x.len() == y.len() && (x.len() > 0 ==> x[0].text() == y[0].text())
        }),
    ensures
        command_summary(a) == command_summary(b),
{
}

/// Of a shell command nothing is kept but the number of its characters: where
/// there is no argument list, commands of the same length leave the same record.
pub proof fn law_shell_commands_are_not_recorded(a: JsonView, b: JsonView)
    requires
        or_null(a.member("argv"@)).items() is None,
        or_null(b.member("argv"@)).items() is None,
        a.member("command"@) matches Some(x) && x.text() is Some,
        b.member("command"@) matches Some(y) && y.text() is Some,
        a.member("command"@)->0.text()->0.len() == b.member("command"@)->0.text()->0.len(),
    ensures
        command_summary(a) == command_summary(b),
{
}

/// The record of a request depends on nothing in it but its method, its host,
/// the remote method, the directory, the path and the summary of the command:
/// environment values and file contents, for example, leave no trace.
pub proof fn law_nothing_else_is_recorded(a: RequestView, b: RequestView)
    requires
        a.method == b.method,
        a.params.member("host"@) == b.params.member("host"@),
        a.params.member("method"@) == b.params.member("method"@),
        or_null(a.params.member("params"@)).member("cwd"@) == or_null(b.params.member("params"@)).member("cwd"@),
        or_null(a.params.member("params"@)).member("path"@) == or_null(b.params.member("params"@)).member("path"@),
        command_summary(or_null(a.params.member("params"@))) == command_summary(
            or_null(b.params.member("params"@)),
        ),
    ensures
        audit_view(a) == audit_view(b),
{
}

/// How a request ended: with a response, or with an error whose message stands
/// alone and before the chain of its causes.
#[derive(Debug, PartialEq)]
pub enum Outcome {
    Answered(Frame<Response>),
    Failed { message: String, chain: String },
}

/// The record that a request begins.
pub open spec fn start_view(now: u64, request: RequestView) -> JsonView {
    JsonView::Object(
        map![
            "timestamp"@ => JsonView::Unsigned(now),
            "stage"@ => JsonView::Text("start"@),
            "request_id"@ => JsonView::Text(request.id),
            "readonly"@ => JsonView::Bool(request.readonly),
            "operation"@ => audit_view(request),
        ],
    )
}

/// The records of a request are read back where its parameters are, and the result
/// of its answer, within two more levels.
pub proof fn law_records_are_read_back(now: u64, request: RequestView, outcome: Outcome, levels: nat)
    requires
        readable(request.params, levels),
    ensures
        readable(start_view(now, request), levels + 2),
        (outcome matches Outcome::Answered(frame) ==> readable(frame.header.result@, levels)) ==> readable(
            completion_view(now, request, outcome),
            levels + 2,
        ),
{
    law_what_is_kept_of_a_request_is_read_back(request, levels);
    let start = start_view(now, request)->Object_0;
    assert forall|k: Seq<char>| start.contains_key(k) implies readable(#[trigger] start[k], levels + 1) by {}
    if outcome matches Outcome::Answered(frame) ==> readable(frame.header.result@, levels) {
        let completion = completion_view(now, request, outcome)->Object_0;
        let code = or_null(outcome_exit_code(outcome));
        if outcome is Answered {
            lemma_member_readable(outcome->Answered_0.header.result@, "exit_code"@, levels);
        }
        law_more_levels_are_enough(code, levels, levels + 1);
        assert forall|k: Seq<char>| completion.contains_key(k) implies readable(
            #[trigger] completion[k],
            levels + 1,
        ) by {}
    }
}

/// The record that a request begins.
pub fn start_record(now: u64, request: &Request) -> (r: Json)
    ensures
        r@ == start_view(now, request@),
        forall|n: nat| #[trigger] readable(request.params@, n) ==> readable(r@, n + 2),
{
    proof {
        assert forall|n: nat| #[trigger] readable(request.params@, n) implies readable(
            start_view(now, request@),
            n + 2,
        ) by {
            law_records_are_read_back(now, request@, arbitrary(), n);
        }
    }
    let mut members = no_members();
    put(&mut members, "timestamp", Json::Unsigned(now));
    put(&mut members, "stage", Json::string("start"));
    put(&mut members, "request_id", Json::Text(request.id.clone()));
    put(&mut members, "readonly", Json::Bool(request.readonly));
    put(&mut members, "operation", audit_fields(request));
    Json::Object(members)
}

/// Whether a request ended well.
pub open spec fn outcome_ok(outcome: Outcome) -> bool {
    match outcome {
        Outcome::Answered(frame) => frame.header.ok,
        Outcome::Failed { .. } => false,
    }
}

/// The exit code in an answer.
pub open spec fn outcome_exit_code(outcome: Outcome) -> Option<JsonView> {
    match outcome {
        Outcome::Answered(frame) => frame.header.result@.member("exit_code"@),
        Outcome::Failed { .. } => None,
    }
}

/// The error that a request ended with.
pub open spec fn outcome_error(outcome: Outcome) -> Option<Seq<char>> {
    match outcome {
        Outcome::Answered(frame) => opt_view(frame.header.error),
        Outcome::Failed { message, .. } => Some(message@),
    }
}

/// What is kept of the error that a request ended with.
pub open spec fn kept_error(outcome: Outcome) -> Option<Seq<char>> {
    match outcome_error(outcome) {
        Some(e) => Some(redacted(e)),
        None => None,
    }
}

/// The record that a request has ended.
pub open spec fn completion_view(now: u64, request: RequestView, outcome: Outcome) -> JsonView {
    JsonView::Object(
        map![
            "timestamp"@ => JsonView::Unsigned(now),
            "stage"@ => JsonView::Text("complete"@),
            "request_id"@ => JsonView::Text(request.id),
            "ok"@ => JsonView::Bool(outcome_ok(outcome)),
            "exit_code"@ => or_null(outcome_exit_code(outcome)),
            "error"@ => text_or_null(kept_error(outcome)),
            "operation"@ => audit_view(request),
        ],
    )
}

/// The record that a request has ended.
pub fn completion_record(now: u64, request: &Request, outcome: &Outcome) -> (r: Json)
    ensures
        r@ == completion_view(now, request@, *outcome),
        forall|n: nat| #[trigger]
            readable(request.params@, n) && (outcome matches Outcome::Answered(frame) ==> readable(
                frame.header.result@,
                n,
            )) ==> readable(r@, n + 2),
{
    proof {
        assert forall|n: nat| #[trigger]
            readable(request.params@, n) && (outcome matches Outcome::Answered(frame) ==> readable(
                frame.header.result@,
                n,
            )) implies readable(completion_view(now, request@, *outcome), n + 2) by {
            law_records_are_read_back(now, request@, *outcome, n);
        }
    }
    let ok = match outcome {
        Outcome::Answered(frame) => frame.header.ok,
        Outcome::Failed { .. } => false,
    };
    let exit_code = match outcome {
        Outcome::Answered(frame) => Json::or_null(frame.header.result.get("exit_code")),
        Outcome::Failed { .. } => Json::Null,
    };
    let error = match outcome {
        Outcome::Answered(frame) => match &frame.header.error {
            Some(e) => Json::Text(redact_error(e.as_str())),
            None => Json::Null,
        },
        Outcome::Failed { message, .. } => Json::Text(redact_error(message.as_str())),
    };
    let mut members = no_members();
    put(&mut members, "timestamp", Json::Unsigned(now));
    put(&mut members, "stage", Json::string("complete"));
    put(&mut members, "request_id", Json::Text(request.id.clone()));
    put(&mut members, "ok", Json::Bool(ok));
    put(&mut members, "exit_code", exit_code);
    put(&mut members, "error", error);
    put(&mut members, "operation", audit_fields(request));
    Json::Object(members)
}

/// A record as one line of the log, or nothing where the text of a fractional
/// number in it is no number.
pub fn audit_line(record: &Json) -> (r: Option<String>)
    ensures
        r is Some <==> printable(tokens(*record)),
        r is None ==> forall|n: nat| !(#[trigger] readable(record@, n)),
        r matches Some(line) ==> line@ == compact_text(reread(tokens(*record))).push('\n') && forall|i: int|
            0 <= i < line@.len() - 1 ==> #[trigger] line@[i] != '\n',
{
    match record.to_compact() {
        Some(text) => {
            let ghost body = text@;
            let mut line = text;
            line.push('\n');
            assert forall|i: int| 0 <= i < line@.len() - 1 implies #[trigger] line@[i] != '\n' by {
                assert(body.contains(body[i]));
            }
            Some(line)
        },
        None => None,
    }
}

proof fn lemma_record_names()
    ensures
        "program"@ != "argc"@,
        "shell"@ != "characters"@,
        "host"@ != "type"@,
        "host"@ != "cwd"@,
        "host"@ != "path"@,
        "host"@ != "command"@,
        "type"@ != "cwd"@,
        "type"@ != "path"@,
        "type"@ != "command"@,
        "cwd"@ != "path"@,
        "cwd"@ != "command"@,
        "path"@ != "command"@,
{
    reveal_strlit("program");
    reveal_strlit("argc");
    reveal_strlit("shell");
    reveal_strlit("characters");
    reveal_strlit("host");
    reveal_strlit("type");
    reveal_strlit("cwd");
    reveal_strlit("path");
    reveal_strlit("command");
    assert("program"@.len() == 7 && "argc"@.len() == 4 && "shell"@.len() == 5 && "characters"@.len() == 10);
    assert("host"@.len() == 4 && "type"@.len() == 4 && "cwd"@.len() == 3 && "path"@.len() == 4 && "command"@.len()
        == 7);
    assert("host"@[0] == 'h' && "type"@[0] == 't' && "path"@[0] == 'p');
}

proof fn lemma_stage_names()
    ensures
        "timestamp"@ != "stage"@,
        "timestamp"@ != "request_id"@,
        "timestamp"@ != "readonly"@,
        "timestamp"@ != "operation"@,
        "timestamp"@ != "ok"@,
        "timestamp"@ != "exit_code"@,
        "timestamp"@ != "error"@,
        "stage"@ != "request_id"@,
        "stage"@ != "readonly"@,
        "stage"@ != "operation"@,
        "stage"@ != "ok"@,
        "stage"@ != "exit_code"@,
        "stage"@ != "error"@,
        "request_id"@ != "readonly"@,
        "request_id"@ != "operation"@,
        "request_id"@ != "ok"@,
        "request_id"@ != "exit_code"@,
        "request_id"@ != "error"@,
        "readonly"@ != "operation"@,
        "operation"@ != "ok"@,
        "operation"@ != "exit_code"@,
        "operation"@ != "error"@,
        "ok"@ != "exit_code"@,
        "ok"@ != "error"@,
        "exit_code"@ != "error"@,
{
    reveal_strlit("timestamp");
    reveal_strlit("stage");
    reveal_strlit("request_id");
    reveal_strlit("readonly");
    reveal_strlit("operation");
    reveal_strlit("ok");
    reveal_strlit("exit_code");
    reveal_strlit("error");
    assert("timestamp"@.len() == 9 && "stage"@.len() == 5 && "request_id"@.len() == 10 && "readonly"@.len() == 8);
    assert("operation"@.len() == 9 && "ok"@.len() == 2 && "exit_code"@.len() == 9 && "error"@.len() == 5);
    assert("timestamp"@[0] == 't' && "operation"@[0] == 'o' && "exit_code"@[0] == 'e');
    assert("stage"@[0] == 's' && "error"@[0] == 'e');
}

/// What is kept of a command: of an argument list the program and the number of
/// arguments, of a line for a shell the number of its characters, and nothing where
/// there is no command.
pub proof fn law_what_is_kept_of_a_command(params: JsonView)
    ensures
        match params.member("argv"@) {
            Some(JsonView::Array(argv)) => {
                &&& command_summary(params).member("program"@) == if argv.len() > 0 && argv[0] is Text {
                    Some(argv[0])
                } else {
                    Some(JsonView::Null)
                }
                &&& command_summary(params).member("argc"@) == Some(JsonView::Unsigned(argv.len() as u64))
            },
            _ => match params.member("command"@) {
                Some(JsonView::Text(line)) => {
                    &&& command_summary(params).member("shell"@) == Some(JsonView::Bool(true))
                    &&& command_summary(params).member("characters"@) == Some(JsonView::Unsigned(line.len() as u64))
                },
                _ => command_summary(params) == JsonView::Null,
            },
        },
{
    lemma_record_names();
}

/// What is kept of a request to pass a call on: the host, the method as `type`, and of
/// the parameters the directory, the path and the summary of the command. Of any other
/// request its method is kept.
pub proof fn law_what_is_kept_of_a_request(request: RequestView)
    ensures
        request.method != "call"@ ==> audit_view(request).member("runtime_method"@) == Some(
            JsonView::Text(request.method),
        ),
        request.method == "call"@ ==> {
            let kept = audit_view(request);
            let params = match request.params.member("params"@) {
                Some(v) => v,
                None => JsonView::Null,
            };
            &&& kept.member("host"@) == match request.params.member("host"@) {
                Some(v) => Some(v),
                None => Some(JsonView::Null),
            }
            &&& kept.member("type"@) == match request.params.member("method"@) {
                Some(v) => Some(v),
                None => Some(JsonView::Null),
            }
            &&& kept.member("cwd"@) == match params.member("cwd"@) {
                Some(v) => Some(v),
                None => Some(JsonView::Null),
            }
            &&& kept.member("path"@) == match params.member("path"@) {
                Some(v) => Some(v),
                None => Some(JsonView::Null),
            }
            &&& kept.member("command"@) == Some(command_summary(params))
        },
{
    lemma_record_names();
}

/// A request leaves two records with the time, its identifier and what is kept of it.
/// The first says that it begins and whether it only reads. The second says that it has
/// ended, whether well, with which exit code, and the first 500 characters of the error.
pub proof fn law_what_the_records_say(now: u64, request: RequestView, outcome: Outcome)
    ensures
        ({
            let record = start_view(now, request);
            &&& record.member("timestamp"@) == Some(JsonView::Unsigned(now))
            &&& record.member("stage"@) == Some(JsonView::Text("start"@))
            &&& record.member("request_id"@) == Some(JsonView::Text(request.id))
            &&& record.member("readonly"@) == Some(JsonView::Bool(request.readonly))
            &&& record.member("operation"@) == Some(audit_view(request))
        }),
        ({
            let record = completion_view(now, request, outcome);
            let (ended_well, code, error) = match outcome {
                Outcome::Answered(frame) => (
                    frame.header.ok,
                    frame.header.result@.member("exit_code"@),
                    match frame.header.error {
                        Some(s) => Some(s@),
                        None => None,
                    },
                ),
                Outcome::Failed { message, .. } => (false, None, Some(message@)),
            };
            &&& record.member("timestamp"@) == Some(JsonView::Unsigned(now))
            &&& record.member("stage"@) == Some(JsonView::Text("complete"@))
            &&& record.member("request_id"@) == Some(JsonView::Text(request.id))
            &&& record.member("ok"@) == Some(JsonView::Bool(ended_well))
            &&& record.member("exit_code"@) == match code {
                Some(v) => Some(v),
                None => Some(JsonView::Null),
            }
            &&& record.member("operation"@) == Some(audit_view(request))
            &&& match error {
                None => record.member("error"@) == Some(JsonView::Null),
                Some(e) => record.member("error"@) matches Some(JsonView::Text(kept)) && kept.is_prefix_of(e)
                    && kept.len() == if e.len() < 500 {
                    e.len()
                } else {
                    500
                },
            }
        }),
{
    lemma_stage_names();
    if let Some(e) = outcome_error(outcome) {
        assert(redacted(e) =~= e.subrange(0, redacted(e).len() as int));
    }
}

} // verus!
