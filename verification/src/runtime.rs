//! The control center of a user: what its clients ask, and how it answers.

use vstd::prelude::*;
use serde_json::Value;
use crate::audit::Outcome;
use crate::ids::random_id;
use crate::json::{no_members, opt_view, or_null, put, text_array, Json, JsonView};
use crate::headers::{
    carries_request, carries_response, decoded_request, decoded_response, readable_response, MAX_MEMBER_NESTING,
};
use crate::json_value::{
    law_members_are_read_back, ordered, printable, readable, reread, text_walk, tokens, value_tokens, Token,
};
use crate::pool::new_request;
use crate::protocol::{
    frame_bytes, law_written_frame_is_read, read_outcome, Frame, ProtocolProblem, Request, RequestView, Response,
    ResponseView, MAX_HEADER, MAX_PAYLOAD,
};
use crate::text::{same_text, views};

verus! {

/// How deep the parameters of a call may be nested that the control center reads.
pub const MAX_CALL_NESTING: usize = 125;

/// A client of the control center that listens at `endpoint`.
#[derive(Debug)]
pub struct RuntimeClient {
    pub endpoint: String,
}

impl Clone for RuntimeClient {
    fn clone(&self) -> (r: Self)
        ensures
            r == *self,
    {
        RuntimeClient { endpoint: self.endpoint.clone() }
    }
}

/// The request to pass a call on to a host.
pub open spec fn call_request(
    id: Seq<char>,
    alias: Seq<char>,
    method: Seq<char>,
    params: JsonView,
    readonly: bool,
) -> RequestView {
    RequestView {
        id,
        method: "call"@,
        params: JsonView::Object(
            map![
                "host"@ => JsonView::Text(alias),
                "method"@ => JsonView::Text(method),
                "params"@ => params,
                "readonly"@ => JsonView::Bool(readonly),
            ],
        ),
        readonly,
    }
}

/// The request for the aliases of all hosts.
pub open spec fn hosts_request(id: Seq<char>) -> RequestView {
    RequestView { id, method: "hosts"@, params: JsonView::Object(Map::empty()), readonly: true }
}

/// The request to drop the connection to a host.
pub open spec fn reconnect_request(id: Seq<char>, alias: Seq<char>) -> RequestView {
    RequestView {
        id,
        method: "reconnect"@,
        params: JsonView::Object(map!["host"@ => JsonView::Text(alias)]),
        readonly: false,
    }
}

impl RuntimeClient {
    /// A client of the control center that listens at `endpoint`.
    pub fn new(endpoint: String) -> (r: Self)
        ensures
            r.endpoint == endpoint,
    {
        RuntimeClient { endpoint }
    }

    /// The request to pass a call on to a host, with a fresh identifier.
    pub fn call(&self, alias: &str, method: &str, params: Json, readonly: bool) -> (r: Request)
        ensures
            random_id(r.id@),
            r@ == call_request(r.id@, alias@, method@, params@, readonly),
            forall|n: nat| #[trigger] readable(params@, n) ==> readable(r.params@, n + 1),
    {
        let mut members = no_members();
        put(&mut members, "host", Json::string(alias));
        put(&mut members, "method", Json::string(method));
        put(&mut members, "params", params);
        put(&mut members, "readonly", Json::Bool(readonly));
        let r = new_request("call", Json::Object(members), readonly);
        proof {
            assert forall|n: nat| #[trigger] readable(params@, n) implies readable(r.params@, n + 1) by {
                law_a_call_is_read_back_with_its_parameters(r.id@, alias@, method@, params@, readonly, n);
            }
        }
        r
    }

    /// The request for the aliases of all hosts, with a fresh identifier.
    pub fn aliases(&self) -> (r: Request)
        ensures
            random_id(r.id@),
            r@ == hosts_request(r.id@),
            readable(r.params@, 1),
    {
        new_request("hosts", Json::Object(no_members()), true)
    }

    /// The request to drop the connection to a host, with a fresh identifier.
    pub fn reconnect(&self, alias: &str) -> (r: Request)
        ensures
            random_id(r.id@),
            r@ == reconnect_request(r.id@, alias@),
            readable(r.params@, 1),
    {
        let mut members = no_members();
        put(&mut members, "host", Json::string(alias));
        new_request("reconnect", Json::Object(members), false)
    }
}

/// Why a client did not get what it asked for.
#[derive(Debug, PartialEq)]
pub enum ClientError {
    /// The control center says so.
    Refused(String),
    /// The answer is no list of texts.
    Malformed(String),
    /// The answer holds a number that is none.
    NotANumber,
}

/// What a client error says.
pub enum ClientProblem {
    Refused(Seq<char>),
    Malformed(Seq<char>),
    NotANumber,
}

impl View for ClientError {
    type V = ClientProblem;

    open spec fn view(&self) -> ClientProblem {
        match self {
            ClientError::Refused(s) => ClientProblem::Refused(s@),
            ClientError::Malformed(s) => ClientProblem::Malformed(s@),
            ClientError::NotANumber => ClientProblem::NotANumber,
        }
    }
}

impl ClientError {
    /// The message for a reader.
    pub fn message(&self) -> (r: String)
        ensures
            r@ == match self@ {
                ClientProblem::Refused(s) => s,
                ClientProblem::Malformed(s) => s,
                ClientProblem::NotANumber => "invalid number"@,
            },
    {
        match self {
            ClientError::Refused(s) => s.clone(),
            ClientError::Malformed(s) => s.clone(),
            ClientError::NotANumber => "invalid number".to_owned(),
        }
    }
}

/// What `serde_json` says of a value that is no list of texts.
pub uninterp spec fn texts_refusal(walk: Seq<Token>) -> Seq<char>;

/// `serde_json::from_value` into a list of texts: succeeds exactly on an array
/// of strings, with these strings in their order. What it says of any other
/// value is a function of that value.
#[verifier::external_body]
fn read_texts(value: Value) -> (r: Result<Vec<String>, String>)
    ensures
        match r {
            Ok(list) => value_tokens(value) == text_walk(views(list@)),
            Err(text) => (forall|list: Seq<Seq<char>>| value_tokens(value) != #[trigger] text_walk(list)) && text@
                == texts_refusal(value_tokens(value)),
        },
{
    serde_json::from_value(value).map_err(|error| error.to_string())
}

/// What the control center says of a request that it refused: nothing, where it
/// gives no reason.
pub open spec fn refusal(response: ResponseView) -> Seq<char> {
    match response.error {
        Some(s) => s,
        None => Seq::empty(),
    }
}

fn refusal_text(error: Option<String>) -> (r: String)
    ensures
        r@ == match opt_view(error) {
            Some(s) => s,
            None => Seq::empty(),
        },
{
    match error {
        Some(s) => s,
        None => String::new(),
    }
}

impl RuntimeClient {
    /// The aliases in the answer to a request for them.
    pub fn aliases_in(response: Frame<Response>) -> (r: Result<Vec<String>, ClientError>)
        ensures
            !response.header.ok ==> (r matches Err(e) && e@ == ClientProblem::Refused(refusal(response.header@))),
            response.header.ok && !printable(tokens(response.header.result)) ==> (r matches Err(e) && e@
                == ClientProblem::NotANumber && forall|n: nat| !(#[trigger] readable(response.header.result@, n))),
            response.header.ok && printable(tokens(response.header.result)) ==> match r {
                Ok(list) => reread(tokens(response.header.result)) == text_walk(views(list@)),
                Err(e) => (forall|list: Seq<Seq<char>>|
                    reread(tokens(response.header.result)) != #[trigger] text_walk(list)) && e@
                    == ClientProblem::Malformed(texts_refusal(reread(tokens(response.header.result)))),
            },
    {
        if !response.header.ok {
            return Err(ClientError::Refused(refusal_text(response.header.error)));
        }
        match response.header.result.to_value() {
            Some(value) => match read_texts(value) {
                Ok(list) => Ok(list),
                Err(text) => Err(ClientError::Malformed(text)),
            },
            None => Err(ClientError::NotANumber),
        }
    }

    /// Whether the control center did what it was asked.
    pub fn confirm(response: Frame<Response>) -> (r: Result<(), ClientError>)
        ensures
            match r {
                Ok(()) => response.header.ok,
                Err(e) => !response.header.ok && e@ == ClientProblem::Refused(refusal(response.header@)),
            },
    {
        if response.header.ok {
            Ok(())
        } else {
            Err(ClientError::Refused(refusal_text(response.header.error)))
        }
    }
}

/// What the control center does on a request.
#[derive(Debug, PartialEq)]
pub enum RuntimeAction {
    /// Answer with the aliases.
    Hosts,
    /// Drop the connection to a host.
    Reconnect { host: String },
    /// Pass a call on to a host.
    Call { host: String, method: String, params: Json, readonly: bool },
}

/// What an action says.
pub enum ActionView {
    Hosts,
    Reconnect { host: Seq<char> },
    Call { host: Seq<char>, method: Seq<char>, params: JsonView, readonly: bool },
}

impl View for RuntimeAction {
    type V = ActionView;

    open spec fn view(&self) -> ActionView {
        match self {
            RuntimeAction::Hosts => ActionView::Hosts,
            RuntimeAction::Reconnect { host } => ActionView::Reconnect { host: host@ },
            RuntimeAction::Call { host, method, params, readonly } => ActionView::Call {
                host: host@,
                method: method@,
                params: params@,
                readonly: *readonly,
            },
        }
    }
}

/// Why the control center does nothing on a request.
#[derive(Clone, Copy, Debug, PartialEq, Eq, Structural)]
pub enum DispatchError {
    MissingHost,
    MissingMethod,
    UnknownMethod,
}

impl DispatchError {
    /// The message for a reader.
    pub fn message(&self) -> (r: String)
        ensures
            r@ == match *self {
                DispatchError::MissingHost => "missing host"@,
                DispatchError::MissingMethod => "missing method"@,
                DispatchError::UnknownMethod => "unknown runtime method"@,
            },
    {
        match self {
            DispatchError::MissingHost => "missing host".to_owned(),
            DispatchError::MissingMethod => "missing method".to_owned(),
            DispatchError::UnknownMethod => "unknown runtime method".to_owned(),
        }
    }
}

/// The text of a member.
pub open spec fn member_text(value: JsonView, key: Seq<char>) -> Option<Seq<char>> {
    or_null(value.member(key)).text()
}

/// What the control center does on a request.
pub open spec fn dispatched(request: RequestView) -> Result<ActionView, DispatchError> {
    if request.method == "hosts"@ {
        Ok(ActionView::Hosts)
    } else if request.method == "reconnect"@ {
        match member_text(request.params, "host"@) {
            Some(host) => Ok(ActionView::Reconnect { host }),
            None => Err(DispatchError::MissingHost),
        }
    } else if request.method == "call"@ {
        match (member_text(request.params, "host"@), member_text(request.params, "method"@)) {
            (None, _) => Err(DispatchError::MissingHost),
            (_, None) => Err(DispatchError::MissingMethod),
            (Some(host), Some(method)) => Ok(
                ActionView::Call {
                    host,
                    method,
                    params: or_null(request.params.member("params"@)),
                    readonly: or_null(request.params.member("readonly"@)).boolean() == Some(true),
                },
            ),
        }
    } else {
        Err(DispatchError::UnknownMethod)
    }
}

fn text_member(value: &Json, key: &str) -> (r: Option<String>)
    ensures
        opt_view(r) == member_text(value@, key@),
{
    match value.get(key) {
        Some(v) => match v.as_str() {
            Some(s) => Some(s.clone()),
            None => None,
        },
        None => None,
    }
}

/// Decides what the control center does on a request.
pub fn dispatch(request: &Request) -> (r: Result<RuntimeAction, DispatchError>)
    ensures
        match r {
            Ok(action) => dispatched(request@) == Ok::<ActionView, DispatchError>(action@) && (
            action matches RuntimeAction::Call { params, .. } ==> ordered(params) && forall|n: nat| #[trigger]
                readable(request.params@, n) ==> n > 0 && readable(params@, (n - 1) as nat)),
            Err(e) => dispatched(request@) == Err::<ActionView, DispatchError>(e),
        },
{
    let method = request.method.as_str();
    if same_text(method, "hosts") {
        return Ok(RuntimeAction::Hosts);
    }
    if same_text(method, "reconnect") {
        return match text_member(&request.params, "host") {
            Some(host) => Ok(RuntimeAction::Reconnect { host }),
            None => Err(DispatchError::MissingHost),
        };
    }
    if same_text(method, "call") {
        let host = match text_member(&request.params, "host") {
            Some(host) => host,
            None => {
                return Err(DispatchError::MissingHost);
            },
        };
        let remote_method = match text_member(&request.params, "method") {
            Some(name) => name,
            None => {
                return Err(DispatchError::MissingMethod);
            },
        };
        let params = Json::or_null(request.params.get("params"));
        proof {
            let members = request.params@->Object_0;
            assert(request.params@ == JsonView::Object(members));
            assert forall|n: nat| #[trigger] readable(request.params@, n) implies n > 0 && readable(
                params@,
                (n - 1) as nat,
            ) by {
                if members.contains_key("params"@) {
                    law_members_are_read_back(members, "params"@, n);
                }
            }
        }
        let readonly = match request.params.get("readonly") {
            Some(v) => match v.as_bool() {
                Some(b) => b,
                None => false,
            },
            None => false,
        };
        return Ok(RuntimeAction::Call { host, method: remote_method, params, readonly });
    }
    Err(DispatchError::UnknownMethod)
}

proof fn lemma_method_names()
    ensures
        "hosts"@ != "reconnect"@,
        "hosts"@ != "call"@,
        "reconnect"@ != "call"@,
        "host"@ != "method"@,
        "host"@ != "params"@,
        "host"@ != "readonly"@,
        "method"@ != "params"@,
        "method"@ != "readonly"@,
        "params"@ != "readonly"@,
{
    reveal_strlit("hosts");
    reveal_strlit("reconnect");
    reveal_strlit("call");
    reveal_strlit("host");
    reveal_strlit("method");
    reveal_strlit("params");
    reveal_strlit("readonly");
    assert("hosts"@.len() == 5 && "reconnect"@.len() == 9 && "call"@.len() == 4 && "host"@.len() == 4);
    assert("method"@.len() == 6 && "params"@.len() == 6 && "readonly"@.len() == 8);
    assert("method"@[0] == 'm' && "params"@[0] == 'p');
}

/// The control center does what a client of it asked for: the same call on the
/// same host, or the connection to the same host dropped, or the aliases.
pub proof fn law_requests_arrive_as_they_were_meant(
    id: Seq<char>,
    alias: Seq<char>,
    method: Seq<char>,
    params: JsonView,
    readonly: bool,
)
    ensures
        dispatched(call_request(id, alias, method, params, readonly)) == Ok::<ActionView, DispatchError>(
            ActionView::Call { host: alias, method, params, readonly },
        ),
        dispatched(reconnect_request(id, alias)) == Ok::<ActionView, DispatchError>(
            ActionView::Reconnect { host: alias },
        ),
        dispatched(hosts_request(id)) == Ok::<ActionView, DispatchError>(ActionView::Hosts),
{
    lemma_method_names();
}

/// A call that a client asks for is read back where its parameters are.
pub proof fn law_a_call_is_read_back_with_its_parameters(
    id: Seq<char>,
    alias: Seq<char>,
    method: Seq<char>,
    params: JsonView,
    readonly: bool,
    levels: nat,
)
    requires
        readable(params, levels),
    ensures
        readable(call_request(id, alias, method, params, readonly).params, levels + 1),
{
    let members = call_request(id, alias, method, params, readonly).params->Object_0;
    assert forall|k: Seq<char>| members.contains_key(k) implies readable(#[trigger] members[k], levels) by {}
}

/// A call that a client sends to the control center is read there as that call,
/// whatever bytes follow it, and the control center then passes on that very call:
/// the same method on the same host with the same parameters.
pub proof fn law_a_call_arrives_over_the_wire(
    header: Seq<u8>,
    payload: Seq<u8>,
    rest: Seq<u8>,
    id: Seq<char>,
    alias: Seq<char>,
    method: Seq<char>,
    params: JsonView,
    readonly: bool,
)
    requires
        readable(params, MAX_CALL_NESTING as nat),
        carries_request(header, call_request(id, alias, method, params, readonly)),
        header.len() <= MAX_HEADER,
        payload.len() <= MAX_PAYLOAD,
    ensures
        read_outcome(frame_bytes(header, payload) + rest) == Ok::<(Seq<u8>, Seq<u8>, nat), ProtocolProblem>(
            (header, payload, frame_bytes(header, payload).len()),
        ),
        decoded_request(header) == Ok::<RequestView, Seq<char>>(call_request(id, alias, method, params, readonly)),
        dispatched(decoded_request(header)->Ok_0) == Ok::<ActionView, DispatchError>(
            ActionView::Call { host: alias, method, params, readonly },
        ),
{
    law_a_call_is_read_back_with_its_parameters(id, alias, method, params, readonly, MAX_CALL_NESTING as nat);
    law_written_frame_is_read(header, payload, rest);
    law_requests_arrive_as_they_were_meant(id, alias, method, params, readonly);
}

/// What the control center answers a client, or a host answers the control center,
/// is read as it was sent, whatever bytes follow it.
pub proof fn law_an_answer_arrives_over_the_wire(
    header: Seq<u8>,
    payload: Seq<u8>,
    rest: Seq<u8>,
    response: ResponseView,
)
    requires
        readable_response(response),
        carries_response(header, response),
        header.len() <= MAX_HEADER,
        payload.len() <= MAX_PAYLOAD,
    ensures
        read_outcome(frame_bytes(header, payload) + rest) == Ok::<(Seq<u8>, Seq<u8>, nat), ProtocolProblem>(
            (header, payload, frame_bytes(header, payload).len()),
        ),
        decoded_response(header) == Ok::<ResponseView, Seq<char>>(response),
{
    law_written_frame_is_read(header, payload, rest);
}

/// A response that says that all went well.
pub open spec fn ok_response(id: Seq<char>, result: JsonView) -> ResponseView {
    ResponseView { id, ok: true, result, error: None, metadata: Map::empty() }
}

/// A response that says that all went well, with nothing to go with it.
pub fn ok(id: String, result: Json) -> (r: Frame<Response>)
    ensures
        r.header@ == ok_response(id@, result@),
        r.header.result == result,
        readable(result@, MAX_MEMBER_NESTING as nat) ==> readable_response(r.header@),
        r.payload@ == Seq::<u8>::empty(),
{
    Frame {
        header: Response { id, ok: true, result, error: None, metadata: no_members() },
        payload: Vec::new(),
    }
}

/// The answer to a request for the aliases.
pub fn hosts_answer(id: String, aliases: &Vec<String>) -> (r: Frame<Response>)
    ensures
        r.header@ == ok_response(id@, text_array(views(aliases@))),
        tokens(r.header.result) == text_walk(views(aliases@)),
        readable_response(r.header@),
        r.payload@ == Seq::<u8>::empty(),
{
    ok(id, Json::strings(aliases))
}

/// The answer to a request to drop a connection.
pub fn reconnect_answer(id: String, host: &str) -> (r: Frame<Response>)
    ensures
        r.header@ == ok_response(id@, JsonView::Object(map!["reconnected"@ => JsonView::Text(host@)])),
        readable_response(r.header@),
        r.payload@ == Seq::<u8>::empty(),
{
    let mut members = no_members();
    put(&mut members, "reconnected", Json::string(host));
    ok(id, Json::Object(members))
}

proof fn lemma_text_walk_injective(a: Seq<Seq<char>>, b: Seq<Seq<char>>)
    requires
        text_walk(a) == text_walk(b),
    ensures
        a == b,
{
    assert(text_walk(a)[0] == Token::Array(a.len()) && text_walk(b)[0] == Token::Array(b.len()));
    assert(a.len() == b.len());
    assert forall|i: int| 0 <= i < a.len() implies a[i] == b[i] by {
        assert(text_walk(a)[i + 1] == Token::Text(a[i]));
        assert(text_walk(b)[i + 1] == Token::Text(b[i]));
    }
    assert(a =~= b);
}

/// A client that reads the control center's answer to a request for the aliases
/// finds the aliases that were put into it: the answer is a list of texts, and
/// no other list reads as it.
pub proof fn law_aliases_arrive_as_they_were_sent(sent: Seq<Seq<char>>, read: Seq<Seq<char>>)
    requires
        reread(text_walk(sent)) == text_walk(read),
    ensures
        printable(text_walk(sent)),
        read == sent,
{
    let walk = text_walk(sent);
    assert forall|i: int| 0 <= i < walk.len() implies !(#[trigger] walk[i] is Float) by {}
    assert(reread(walk) =~= walk);
    lemma_text_walk_injective(read, sent);
}

/// What a request that ended in this way is answered.
pub open spec fn answer(id: Seq<char>, outcome: Outcome) -> (ResponseView, Seq<u8>) {
    match outcome {
        Outcome::Answered(frame) => (frame.header@, frame.payload@),
        Outcome::Failed { chain, .. } => (
            ResponseView { id, ok: false, result: JsonView::Null, error: Some(chain@), metadata: Map::empty() },
            Seq::empty(),
        ),
    }
}

/// What a request that ended in this way is answered: what came of it, or that
/// it failed, with the chain of causes.
pub fn response_for(id: String, outcome: Outcome) -> (r: Frame<Response>)
    ensures
        (r.header@, r.payload@) == answer(id@, outcome),
        outcome matches Outcome::Answered(frame) ==> r == frame,
        outcome is Failed ==> readable_response(r.header@),
{
    match outcome {
        Outcome::Answered(frame) => frame,
        Outcome::Failed { chain, .. } => {
            let r = Frame {
                header: Response { id, ok: false, result: Json::Null, error: Some(chain), metadata: no_members() },
                payload: Vec::new(),
            };
            assert(r.payload@ =~= Seq::<u8>::empty());
            r
        },
    }
}

/// The stages in which the control center handles a request.
#[derive(Clone, Copy, Debug, PartialEq, Eq, Structural)]
pub enum HandlingStage {
    /// Record that the request begins.
    RecordStart,
    /// Do what it asks for.
    Perform,
    /// Record how it ended.
    RecordCompletion,
    /// Answer it.
    Respond,
}

/// What follows a stage.
#[derive(Clone, Copy, Debug, PartialEq, Eq, Structural)]
pub enum HandlingNext {
    Enter(HandlingStage),
    /// The request is done with.
    Finished,
    /// The request is dropped without an answer.
    Dropped,
}

/// What follows a stage that succeeded or failed: a request whose beginning
/// cannot be recorded is dropped, and nothing else keeps it from its answer.
pub open spec fn handling_after(stage: HandlingStage, success: bool) -> HandlingNext {
    match stage {
        HandlingStage::RecordStart => if success {
            HandlingNext::Enter(HandlingStage::Perform)
        } else {
            HandlingNext::Dropped
        },
        HandlingStage::Perform => HandlingNext::Enter(HandlingStage::RecordCompletion),
        HandlingStage::RecordCompletion => HandlingNext::Enter(HandlingStage::Respond),
        HandlingStage::Respond => if success {
            HandlingNext::Finished
        } else {
            HandlingNext::Dropped
        },
    }
}

/// What follows a stage that succeeded or failed.
pub fn handling_next(stage: HandlingStage, success: bool) -> (r: HandlingNext)
    ensures
        r == handling_after(stage, success),
{
    match stage {
        HandlingStage::RecordStart => if success {
            HandlingNext::Enter(HandlingStage::Perform)
        } else {
            HandlingNext::Dropped
        },
        HandlingStage::Perform => HandlingNext::Enter(HandlingStage::RecordCompletion),
        HandlingStage::RecordCompletion => HandlingNext::Enter(HandlingStage::Respond),
        HandlingStage::Respond => if success {
            HandlingNext::Finished
        } else {
            HandlingNext::Dropped
        },
    }
}

/// The place of a stage in the order of stages, counted from the end.
pub open spec fn stage_rank(stage: HandlingStage) -> nat {
    match stage {
        HandlingStage::RecordStart => 3,
        HandlingStage::Perform => 2,
        HandlingStage::RecordCompletion => 1,
        HandlingStage::Respond => 0,
    }
}

/// The stages that a request goes through from this one on, where `succeeds`
/// tells of each stage whether it succeeds.
pub open spec fn stages_from(stage: HandlingStage, succeeds: spec_fn(HandlingStage) -> bool) -> Seq<HandlingStage>
    decreases stage_rank(stage),
{
    match handling_after(stage, succeeds(stage)) {
        HandlingNext::Enter(next) => if stage_rank(next) < stage_rank(stage) {
            seq![stage] + stages_from(next, succeeds)
        } else {
            seq![stage]
        },
        _ => seq![stage],
    }
}

/// A request is carried out only once its beginning is on record. One that is
/// carried out is recorded again and answered, whether it or that record failed.
pub proof fn law_nothing_is_done_unrecorded_and_all_that_is_done_is_answered(succeeds: spec_fn(HandlingStage) -> bool)
    ensures
        succeeds(HandlingStage::RecordStart) ==> stages_from(HandlingStage::RecordStart, succeeds) == seq![
            HandlingStage::RecordStart,
            HandlingStage::Perform,
            HandlingStage::RecordCompletion,
            HandlingStage::Respond,
        ],
        !succeeds(HandlingStage::RecordStart) ==> stages_from(HandlingStage::RecordStart, succeeds) == seq![
            HandlingStage::RecordStart,
        ],
{
    reveal_with_fuel(stages_from, 5);
    if succeeds(HandlingStage::RecordStart) {
        assert(stages_from(HandlingStage::RecordStart, succeeds) =~= seq![
            HandlingStage::RecordStart,
            HandlingStage::Perform,
            HandlingStage::RecordCompletion,
            HandlingStage::Respond,
        ]);
    }
}

/// What a client asks of the control center stands in the members of its request: a
/// call with `host`, `method`, `params` and `readonly`, the aliases with nothing, and
/// the drop of a connection with `host`. Only a drop, and a call that may change
/// something, say that they may change something.
pub proof fn law_what_a_client_asks(
    id: Seq<char>,
    alias: Seq<char>,
    method: Seq<char>,
    params: JsonView,
    readonly: bool,
)
    ensures
        ({
            let request = call_request(id, alias, method, params, readonly);
            &&& request.id == id
            &&& request.method == "call"@
            &&& request.readonly == readonly
            &&& request.params.member("host"@) == Some(JsonView::Text(alias))
            &&& request.params.member("method"@) == Some(JsonView::Text(method))
            &&& request.params.member("params"@) == Some(params)
            &&& request.params.member("readonly"@) == Some(JsonView::Bool(readonly))
        }),
        ({
            let request = hosts_request(id);
            request.id == id && request.method == "hosts"@ && request.readonly
        }),
        ({
            let request = reconnect_request(id, alias);
            &&& request.id == id
            &&& request.method == "reconnect"@
            &&& !request.readonly
            &&& request.params.member("host"@) == Some(JsonView::Text(alias))
        }),
{
    lemma_method_names();
}

/// What the control center does stands in the members of a request: for `call` it
/// passes the named method with the given parameters on to the named host, as a call
/// that only reads only if the request says so; for `reconnect` it drops the
/// connection to the named host; for `hosts` it lists the aliases. Without a host,
/// without a method, and for anything else it does nothing.
pub proof fn law_what_the_control_center_does(request: RequestView)
    ensures
        request.method == "hosts"@ ==> dispatched(request) == Ok::<ActionView, DispatchError>(ActionView::Hosts),
        request.method == "reconnect"@ ==> dispatched(request) == match request.params.member("host"@) {
            Some(JsonView::Text(host)) => Ok::<ActionView, DispatchError>(ActionView::Reconnect { host }),
            _ => Err(DispatchError::MissingHost),
        },
        request.method == "call"@ ==> dispatched(request) == match (
            request.params.member("host"@),
            request.params.member("method"@),
        ) {
            (Some(JsonView::Text(host)), Some(JsonView::Text(method))) => Ok::<ActionView, DispatchError>(
                ActionView::Call {
                    host,
                    method,
                    params: match request.params.member("params"@) {
                        Some(v) => v,
                        None => JsonView::Null,
                    },
                    readonly: request.params.member("readonly"@) == Some(JsonView::Bool(true)),
                },
            ),
            (Some(JsonView::Text(_)), _) => Err(DispatchError::MissingMethod),
            _ => Err(DispatchError::MissingHost),
        },
        request.method != "hosts"@ && request.method != "reconnect"@ && request.method != "call"@ ==> dispatched(
            request,
        ) == Err::<ActionView, DispatchError>(DispatchError::UnknownMethod),
{
    lemma_method_names();
}

/// An answer that all went well says so and gives the result and no error. A request
/// that failed is answered under its own identifier, says so and gives the whole chain
/// of causes; one that a host answered is answered with just that.
pub proof fn law_how_requests_are_answered(id: Seq<char>, result: JsonView, outcome: Outcome)
    ensures
        ({
            let response = ok_response(id, result);
            response.id == id && response.ok && response.result == result && response.error is None
                && response.metadata == Map::<Seq<char>, JsonView>::empty()
        }),
        match outcome {
            Outcome::Answered(frame) => answer(id, outcome) == (frame.header@, frame.payload@),
            Outcome::Failed { chain, .. } => {
                let (response, payload) = answer(id, outcome);
                response.id == id && !response.ok && response.error == Some(chain@) && response.result
                    == JsonView::Null && payload.len() == 0
            },
        },
{
}

/// What a client is told when the control center refuses: the reason that it gives,
/// and nothing where it gives none.
pub proof fn law_a_refusal_is_told_with_its_reason(response: ResponseView)
    ensures
        response.error matches Some(reason) ==> refusal(response) == reason,
        response.error is None ==> refusal(response).len() == 0,
{
}

} // verus!
