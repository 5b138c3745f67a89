//! The tools: which call of which host each of them makes, and what it shows.

use vstd::prelude::*;
use vstd::utf8::{decode_utf8, valid_utf8};
use crate::budget::{paginate, paginated, Page};
use crate::deploy::Platform;
use crate::json::{no_members, Json, JsonView};
use crate::json_value::{law_more_levels_are_enough, pretty_text, printable, readable, reread, tokens};
use crate::pool::attempts_made;
use crate::protocol::{Frame, Response, ResponseView};
use crate::runtime::{
    call_request, dispatched, law_requests_arrive_as_they_were_meant, ActionView, DispatchError, MAX_CALL_NESTING,
};
use crate::requests::{
    path_json, path_params, ExecRequest, GlobRequest, GrepRequest, HostPageRequest, HostRequest, JobKillRequest,
    JobOutputRequest, JobStartRequest, PathRequest, ProcessesRequest, QueryRequest, ReadRequest, SyncPullRequest,
    SyncPushRequest, TransferRequest,
};
use crate::pull::{PullStage, SyncPull};
use crate::push::{PushStage, SyncPush, TallyView};
use crate::text::{decimal, decimal_text, join_between, joined, views};
use crate::transfer::{fresh_transfer, Transfer};

verus! {

/// How deep the parameters of an operation in a query may be nested that the
/// control center reads.
pub const MAX_OPERATION_NESTING: usize = 122;

/// A call of a method on a host.
#[derive(Debug, PartialEq)]
pub struct RemoteCall {
    pub host: String,
    pub method: String,
    pub params: Json,
    pub payload: Vec<u8>,
    /// Whether the call changes nothing on the host.
    pub readonly: bool,
}

/// What a call says.
#[verifier::ext_equal]
pub struct CallView {
    pub host: Seq<char>,
    pub method: Seq<char>,
    pub params: JsonView,
    pub payload: Seq<u8>,
    pub readonly: bool,
}

impl View for RemoteCall {
    type V = CallView;

    open spec fn view(&self) -> CallView {
        CallView {
            host: self.host@,
            method: self.method@,
            params: self.params@,
            payload: self.payload@,
            readonly: self.readonly,
        }
    }
}

impl CallView {
    /// Whether the control center reads this call as it was sent.
    pub open spec fn arrives(self) -> bool {
        readable(self.params, MAX_CALL_NESTING as nat)
    }
}

/// A call whose parameters are read back within a few levels arrives.
pub proof fn law_calls_with_plain_parameters_arrive(call: CallView, levels: nat)
    requires
        readable(call.params, levels),
        levels <= MAX_CALL_NESTING,
    ensures
        call.arrives(),
{
    law_more_levels_are_enough(call.params, levels, MAX_CALL_NESTING as nat);
}

/// A call that changes nothing and brings nothing along.
pub open spec fn reading(host: Seq<char>, method: Seq<char>, params: JsonView) -> CallView {
    CallView { host, method, params, payload: Seq::empty(), readonly: true }
}

/// A call that may change something.
pub open spec fn changing(host: Seq<char>, method: Seq<char>, params: JsonView, payload: Seq<u8>) -> CallView {
    CallView { host, method, params, payload, readonly: false }
}

/// A call that changes nothing and brings nothing along.
pub fn reading_call(host: &str, method: &str, params: Json) -> (r: RemoteCall)
    ensures
        r@ == reading(host@, method@, params@),
        r.params == params,
{
    let r = RemoteCall { host: host.to_owned(), method: method.to_owned(), params, payload: Vec::new(), readonly: true };
    assert(r.payload@ =~= Seq::<u8>::empty());
    r
}

/// A call that may change something.
pub fn changing_call(host: &str, method: &str, params: Json, payload: Vec<u8>) -> (r: RemoteCall)
    ensures
        r@ == changing(host@, method@, params@, payload@),
        r.params == params,
        r.payload == payload,
{
    RemoteCall { host: host.to_owned(), method: method.to_owned(), params, payload, readonly: false }
}

/// A call that may change something is passed on by the control center as such
/// a call, and is then sent to the host once and never again.
pub proof fn law_what_may_change_something_is_never_repeated(
    id: Seq<char>,
    call: CallView,
    fails: spec_fn(bool) -> bool,
)
    requires
        !call.readonly,
    ensures
        dispatched(call_request(id, call.host, call.method, call.params, call.readonly)) == Ok::<
            ActionView,
            DispatchError,
        >(ActionView::Call { host: call.host, method: call.method, params: call.params, readonly: false }),
        attempts_made(false, call.readonly, fails) == 1,
{
    law_requests_arrive_as_they_were_meant(id, call.host, call.method, call.params, call.readonly);
    crate::pool::law_only_reads_are_retried_and_once(call.readonly, fails);
}

/// Why a tool failed.
#[derive(Debug, PartialEq)]
pub enum ToolError {
    /// The host could not be asked, for this reason.
    Unreachable(String),
    /// The host reports this failure.
    Remote(String),
    /// The host answered with a number that is none.
    NotANumber,
    /// A command was given twice or not at all.
    NotOneCommand,
    /// Files were to be deleted on the host.
    DeleteRefused,
    /// The host's list of files is none.
    InvalidManifest,
    /// The host's list of files names a file outside the directory.
    UnsafePath,
    /// The host does not say how large the file is.
    SizeUnavailable,
    /// The file is shorter than the host said.
    SourceEnded,
}

/// What a tool error says.
pub enum ToolProblem {
    Unreachable(Seq<char>),
    Remote(Seq<char>),
    NotANumber,
    NotOneCommand,
    DeleteRefused,
    InvalidManifest,
    UnsafePath,
    SizeUnavailable,
    SourceEnded,
}

impl View for ToolError {
    type V = ToolProblem;

    open spec fn view(&self) -> ToolProblem {
        match self {
            ToolError::Unreachable(s) => ToolProblem::Unreachable(s@),
            ToolError::Remote(s) => ToolProblem::Remote(s@),
            ToolError::NotANumber => ToolProblem::NotANumber,
            ToolError::NotOneCommand => ToolProblem::NotOneCommand,
            ToolError::DeleteRefused => ToolProblem::DeleteRefused,
            ToolError::InvalidManifest => ToolProblem::InvalidManifest,
            ToolError::UnsafePath => ToolProblem::UnsafePath,
            ToolError::SizeUnavailable => ToolProblem::SizeUnavailable,
            ToolError::SourceEnded => ToolProblem::SourceEnded,
        }
    }
}

impl ToolProblem {
    /// The message for a reader.
    pub open spec fn message(self) -> Seq<char> {
        match self {
            ToolProblem::Unreachable(s) => s,
            ToolProblem::Remote(s) => s,
            ToolProblem::NotANumber => "invalid number"@,
            ToolProblem::NotOneCommand => "exactly one of argv and command is required"@,
            ToolProblem::DeleteRefused =>
                "delete=true is intentionally not accepted by the v0.1 MCP surface; reconcile deletions explicitly"@,
            ToolProblem::InvalidManifest => "invalid manifest"@,
            ToolProblem::UnsafePath => "unsafe manifest path"@,
            ToolProblem::SizeUnavailable => "source size unavailable"@,
            ToolProblem::SourceEnded => "source ended before advertised size"@,
        }
    }
}

impl ToolError {
    /// The message for a reader.
    pub fn message(&self) -> (r: String)
        ensures
            r@ == self@.message(),
    {
        match self {
            ToolError::Unreachable(s) => s.clone(),
            ToolError::Remote(s) => s.clone(),
            ToolError::NotANumber => "invalid number".to_owned(),
            ToolError::NotOneCommand => "exactly one of argv and command is required".to_owned(),
            ToolError::DeleteRefused =>
                "delete=true is intentionally not accepted by the v0.1 MCP surface; reconcile deletions explicitly".to_owned(),
            ToolError::InvalidManifest => "invalid manifest".to_owned(),
            ToolError::UnsafePath => "unsafe manifest path".to_owned(),
            ToolError::SizeUnavailable => "source size unavailable".to_owned(),
            ToolError::SourceEnded => "source ended before advertised size".to_owned(),
        }
    }
}

/// What a host says of a call that failed.
pub open spec fn failure(response: ResponseView) -> Seq<char> {
    match response.error {
        Some(s) => s,
        None => "remote operation failed"@,
    }
}

/// The answer of a host, unless it says that the call failed.
pub fn accepted(response: Frame<Response>) -> (r: Result<Frame<Response>, ToolError>)
    ensures
        match r {
            Ok(frame) => response.header.ok && frame == response,
            Err(e) => !response.header.ok && e@ == ToolProblem::Remote(failure(response.header@)),
        },
{
    if !response.header.ok {
        return Err(
            match response.header.error {
                Some(s) => ToolError::Remote(s),
                None => ToolError::Remote("remote operation failed".to_owned()),
            },
        );
    }
    Ok(response)
}

/// What came of a call.
#[derive(Debug, PartialEq)]
pub enum Answer {
    /// The host answered.
    Given(Frame<Response>),
    /// There is no answer, for this reason.
    Missing(String),
}

/// What an answer says to the one who made the call.
pub enum ReplyView {
    /// The call went well.
    Good { result: JsonView, payload: Seq<u8> },
    /// It did not.
    Bad(ToolProblem),
}

impl View for Answer {
    type V = ReplyView;

    open spec fn view(&self) -> ReplyView {
        match self {
            Answer::Given(frame) => if frame.header.ok {
                ReplyView::Good { result: frame.header.result@, payload: frame.payload@ }
            } else {
                ReplyView::Bad(ToolProblem::Remote(failure(frame.header@)))
            },
            Answer::Missing(s) => ReplyView::Bad(ToolProblem::Unreachable(s@)),
        }
    }
}

impl ReplyView {
    /// The number of bytes that come with an answer.
    pub open spec fn length(self) -> nat {
        match self {
            ReplyView::Good { payload, .. } => payload.len(),
            ReplyView::Bad(_) => 0,
        }
    }
}

/// The answer of a host, unless there is none or it says that the call failed.
pub fn taken(answer: Answer) -> (r: Result<Frame<Response>, ToolError>)
    ensures
        match r {
            Ok(frame) => answer == Answer::Given(frame) && frame.header.ok,
            Err(e) => answer@ == ReplyView::Bad(e@),
        },
{
    match answer {
        Answer::Given(frame) => accepted(frame),
        Answer::Missing(s) => Err(ToolError::Unreachable(s)),
    }
}

/// Bytes read as text, with what is no UTF-8 replaced.
pub uninterp spec fn lossy_text(bytes: Seq<u8>) -> Seq<char>;

/// `String::from_utf8_lossy`: the text that the bytes encode. What is no UTF-8
/// is replaced, and the text is a function of the bytes either way.
#[verifier::external_body]
pub(crate) fn read_lossy(bytes: &Vec<u8>) -> (r: String)
    ensures
        r@ == lossy_text(bytes@),
        valid_utf8(bytes@) ==> r@ == decode_utf8(bytes@),
{
    String::from_utf8_lossy(bytes).into_owned()
}

/// What a tool shows of the answer to its call.
#[derive(Clone, Copy, Debug, PartialEq, Eq)]
pub struct Showing {
    pub page: Page,
    /// Whether the bytes that come with the answer are shown in place of it.
    pub payload_first: bool,
}

/// A tool that makes one call and shows one page of what came of it.
#[derive(Debug, PartialEq)]
pub struct ToolCall {
    pub call: RemoteCall,
    pub showing: Showing,
}

impl Showing {
    /// Whether the payload of an answer is shown in place of its result.
    pub open spec fn takes_payload(self, payload: Seq<u8>) -> bool {
        self.payload_first && payload.len() > 0
    }

    /// The text of which a page is shown.
    pub open spec fn text(self, result: Json, payload: Seq<u8>) -> Seq<char> {
        if self.takes_payload(payload) {
            lossy_text(payload)
        } else {
            pretty_text(reread(tokens(result)))
        }
    }

    /// What the tool shows of an answer, or why it failed.
    pub fn finish(&self, response: Frame<Response>) -> (r: Result<String, ToolError>)
        requires
            self.page.in_range(),
        ensures
            match r {
                Ok(shown) => response.header.ok && (self.takes_payload(response.payload@) || printable(
                    tokens(response.header.result),
                )) && shown@ == paginated(self.text(response.header.result, response.payload@), self.page),
                Err(e) => if !response.header.ok {
                    e@ == ToolProblem::Remote(failure(response.header@))
                } else {
                    !self.takes_payload(response.payload@) && !printable(tokens(response.header.result)) && e@
                        == ToolProblem::NotANumber && forall|n: nat| !(#[trigger] readable(response.header.result@, n))
                },
            },
            r matches Ok(shown) ==> self.takes_payload(response.payload@) && valid_utf8(response.payload@) ==> shown@
                == paginated(decode_utf8(response.payload@), self.page),
    {
        let frame = match accepted(response) {
            Ok(frame) => frame,
            Err(e) => {
                return Err(e);
            },
        };
        let text = if self.payload_first && frame.payload.len() > 0 {
            read_lossy(&frame.payload)
        } else {
            match frame.header.result.to_pretty() {
                Some(text) => text,
                None => {
                    return Err(ToolError::NotANumber);
                },
            }
        };
        Ok(paginate(text.as_str(), &self.page))
    }
}

/// An agent that is to be checked and replaced. The connection to its host has
/// to be dropped before anything else.
#[derive(Debug, PartialEq)]
pub struct AgentUpdate {
    host: String,
    ping: ToolCall,
}

impl AgentUpdate {
    /// The host whose connection is to be dropped.
    pub closed spec fn alias(self) -> Seq<char> {
        self.host@
    }

    pub fn host(&self) -> (r: &str)
        ensures
            r@ == self.alias(),
    {
        self.host.as_str()
    }

    /// What the host is asked once the connection is dropped.
    pub closed spec fn ping(self) -> ToolCall {
        self.ping
    }

    /// What follows the attempt to drop the connection: the question, if it is
    /// dropped, and nothing otherwise.
    pub fn dropped(self, success: bool) -> (r: Option<ToolCall>)
        ensures
            r == (if success {
                Some(self.ping())
            } else {
                None
            }),
    {
        if success {
            Some(self.ping)
        } else {
            None
        }
    }
}

/// The tools, over a way to reach the hosts.
#[derive(Debug, PartialEq)]
pub struct ToolService<B> {
    pub pool: B,
}

impl<B: Clone> Clone for ToolService<B> {
    fn clone(&self) -> (r: Self)
        ensures
            cloned::<B>(self.pool, r.pool),
    {
        ToolService { pool: self.pool.clone() }
    }
}

/// The first page, at its usual length.
pub open spec fn first_page() -> Page {
    Page { offset: None, limit: None }
}

impl<B> ToolService<B> {
    /// The tools over `pool`.
    pub fn new(pool: B) -> (r: Self)
        ensures
            r.pool == pool,
    {
        ToolService { pool }
    }

    /// What a tool shows that lists the hosts: all aliases, one on a line, and
    /// how many lines these are.
    pub fn hosts(&self, aliases: &Vec<String>) -> (r: String)
        ensures
            ({
                let body = joined(views(aliases@), "\n"@);
                let ended = if body.len() > 0 {
                    body + "\n"@
                } else {
                    body
                };
                r@ == ended + "(Complete: all "@ + decimal(aliases@.len()) + " lines shown.)"@
            }),
    {
        let mut out = join_between(aliases, 0, aliases.len(), "\n");
        assert(views(aliases@).subrange(0, aliases@.len() as int) =~= views(aliases@));
        if !out.as_str().is_empty() {
            out.append("\n");
        }
        out.append("(Complete: all ");
        out.append(decimal_text(aliases.len() as u64).as_str());
        out.append(" lines shown.)");
        out
    }

    fn text(host: &str, method: &str, params: Json, page: Page) -> (r: ToolCall)
        ensures
            r.call@ == reading(host@, method@, params@),
            forall|n: nat| n <= MAX_CALL_NESTING && #[trigger] readable(params@, n) ==> r.call@.arrives(),
            r.showing.page == page,
            r.showing.payload_first,
    {
        let call = reading_call(host, method, params);
        proof {
            assert forall|n: nat| n <= MAX_CALL_NESTING && #[trigger] readable(params@, n) implies call@.arrives() by {
                law_calls_with_plain_parameters_arrive(call@, n);
            }
        }
        ToolCall { call, showing: Showing { page, payload_first: true } }
    }

    fn text_mutating(host: &str, method: &str, params: Json, page: Page) -> (r: ToolCall)
        ensures
            r.call@ == changing(host@, method@, params@, Seq::empty()),
            forall|n: nat| n <= MAX_CALL_NESTING && #[trigger] readable(params@, n) ==> r.call@.arrives(),
            r.showing.page == page,
            !r.showing.payload_first,
    {
        let payload: Vec<u8> = Vec::new();
        assert(payload@ =~= Seq::<u8>::empty());
        let call = changing_call(host, method, params, payload);
        proof {
            assert forall|n: nat| n <= MAX_CALL_NESTING && #[trigger] readable(params@, n) implies call@.arrives() by {
                law_calls_with_plain_parameters_arrive(call@, n);
            }
        }
        ToolCall { call, showing: Showing { page, payload_first: false } }
    }

    /// Shows what is known of a path.
    pub fn stat(&self, request: PathRequest) -> (r: ToolCall)
        ensures
            r.call@ == reading(request.host@, "stat"@, path_params(request.path@)),
            r.call@.arrives(),
            r.showing.page == first_page(),
            r.showing.payload_first,
    {
        Self::text(request.host.as_str(), "stat", path_json(request.path.as_str()), Page::default())
    }

    /// Shows the contents of a file.
    pub fn read(&self, request: ReadRequest) -> (r: ToolCall)
        ensures
            r.call@ == reading(request.host@, "read"@, request.params()),
            r.call@.arrives(),
            r.showing.page == request.page,
            r.showing.payload_first,
    {
        Self::text(request.host.as_str(), "read", request.to_json(), request.page)
    }

    /// Shows where a pattern occurs in files.
    pub fn grep(&self, request: GrepRequest) -> (r: ToolCall)
        ensures
            r.call@ == reading(request.host@, "grep"@, request.params()),
            r.call@.arrives(),
            r.showing.page == request.page,
            r.showing.payload_first,
    {
        Self::text(request.host.as_str(), "grep", request.to_json(), request.page)
    }

    /// Shows the paths that a pattern matches.
    pub fn glob(&self, request: GlobRequest) -> (r: ToolCall)
        ensures
            r.call@ == reading(request.host@, "glob"@, request.params()),
            r.call@.arrives(),
            r.showing.page == request.page,
            r.showing.payload_first,
    {
        Self::text(request.host.as_str(), "glob", request.to_json(), request.page)
    }

    /// Shows the state of the graphics processors.
    pub fn gpu_status(&self, request: HostPageRequest) -> (r: ToolCall)
        ensures
            r.call@ == reading(request.host@, "gpu_status"@, JsonView::Object(Map::empty())),
            r.call@.arrives(),
            r.showing.page == request.page,
            r.showing.payload_first,
    {
        Self::text(request.host.as_str(), "gpu_status", Json::Object(no_members()), request.page)
    }

    /// Shows the processes.
    pub fn processes(&self, request: ProcessesRequest) -> (r: ToolCall)
        ensures
            r.call@ == reading(request.host@, "processes"@, request.params()),
            r.call@.arrives(),
            r.showing.page == request.page,
            r.showing.payload_first,
    {
        Self::text(request.host.as_str(), "processes", request.to_json(), request.page)
    }

    /// Shows what a job has put out.
    pub fn job_output(&self, request: JobOutputRequest) -> (r: ToolCall)
        ensures
            r.call@ == reading(request.host@, "job_output"@, request.params()),
            r.call@.arrives(),
            r.showing.page == request.page,
            r.showing.payload_first,
    {
        Self::text(request.host.as_str(), "job_output", request.to_json(), request.page)
    }

    /// Shows the answers to several questions at once.
    pub fn query(&self, request: QueryRequest) -> (r: ToolCall)
        ensures
            r.call@ == reading(request.host@, "query"@, request.params()),
            request.operations_readable(MAX_OPERATION_NESTING as nat) ==> r.call@.arrives(),
            r.showing.page == request.page,
            r.showing.payload_first,
    {
        let params = request.to_json();
        assert(request.operations_readable(MAX_OPERATION_NESTING as nat) ==> readable(params@, 125));
        Self::text(request.host.as_str(), "query", params, request.page)
    }

    /// Runs a command, which is given either as a list of arguments or as a line
    /// for a shell. A request with both or with neither is refused.
    pub fn exec(&self, request: ExecRequest) -> (r: Result<ToolCall, ToolError>)
        ensures
            match r {
                Ok(t) => (request.argv is Some) != (request.command is Some) && t.call@ == changing(
                    request.host@,
                    "exec"@,
                    request.params(),
                    Seq::empty(),
                ) && t.call@.arrives() && t.showing.page == request.page && !t.showing.payload_first,
                Err(e) => (request.argv is Some) == (request.command is Some) && e@ == ToolProblem::NotOneCommand,
            },
    {
        if request.argv.is_some() == request.command.is_some() {
            return Err(ToolError::NotOneCommand);
        }
        Ok(Self::text_mutating(request.host.as_str(), "exec", request.to_json(), request.page))
    }

    /// Runs a command in the background.
    pub fn job_start(&self, request: JobStartRequest) -> (r: ToolCall)
        ensures
            r.call@ == changing(request.host@, "job_start"@, request.params(), Seq::empty()),
            r.call@.arrives(),
            r.showing.page == first_page(),
            !r.showing.payload_first,
    {
        Self::text_mutating(request.host.as_str(), "job_start", request.to_json(), Page::default())
    }

    /// Ends a job.
    pub fn job_kill(&self, request: JobKillRequest) -> (r: ToolCall)
        ensures
            r.call@ == changing(request.host@, "job_kill"@, request.params(), Seq::empty()),
            r.call@.arrives(),
            r.showing.page == first_page(),
            !r.showing.payload_first,
    {
        Self::text_mutating(request.host.as_str(), "job_kill", request.to_json(), Page::default())
    }

    /// Has the agent of a host checked and replaced: first the connection to the
    /// host is dropped, and then the host is asked for a sign of life, which opens
    /// a new connection.
    pub fn agent_update(&self, request: HostRequest) -> (r: AgentUpdate)
        ensures
            r.alias() == request.host@,
            r.ping().call@ == changing(request.host@, "ping"@, JsonView::Object(Map::empty()), Seq::empty()),
            r.ping().call@.arrives(),
            r.ping().showing.page == first_page(),
            !r.ping().showing.payload_first,
    {
        let ping = Self::text_mutating(request.host.as_str(), "ping", Json::Object(no_members()), Page::default());
        AgentUpdate { host: request.host, ping }
    }

    /// Begins to bring local files to a host: asks for the host's list of files.
    /// A request to delete files is refused.
    pub fn sync_push(&self, request: &SyncPushRequest) -> (r: Result<(SyncPush, RemoteCall), ToolError>)
        ensures
            match r {
                Ok((push, call)) => {
                    &&& !request.delete
                    &&& push.host@ == request.host@
                    &&& push.remote_path@ == request.remote_path@
                    &&& push.stage == PushStage::Manifest
                    &&& push.tally@ == (TallyView { changed: 0, unchanged: 0, bytes: 0 })
                    &&& call@ == reading(request.host@, "manifest"@, path_params(request.remote_path@))
                    &&& call@.arrives()
                },
                Err(e) => request.delete && e@ == ToolProblem::DeleteRefused,
            },
    {
        if request.delete {
            return Err(ToolError::DeleteRefused);
        }
        let call = reading_call(request.host.as_str(), "manifest", path_json(request.remote_path.as_str()));
        proof {
            law_calls_with_plain_parameters_arrive(call@, 1);
        }
        Ok((SyncPush::new(request), call))
    }

    /// Begins to bring files of a host here, below `root`: asks for the host's
    /// list of files.
    pub fn sync_pull(&self, platform: Platform, request: &SyncPullRequest, root: String) -> (r: (
        SyncPull,
        RemoteCall,
    ))
        ensures
            r.0.platform == platform,
            r.0.host@ == request.host@,
            r.0.remote_path@ == request.remote_path@,
            r.0.root == root,
            r.0.stage == PullStage::Manifest,
            r.0.count == 0,
            r.0.bytes == 0,
            r.1@ == reading(request.host@, "manifest"@, path_params(request.remote_path@)),
            r.1@.arrives(),
    {
        let call = reading_call(request.host.as_str(), "manifest", path_json(request.remote_path.as_str()));
        proof {
            law_calls_with_plain_parameters_arrive(call@, 1);
        }
        (SyncPull::new(platform, request, root), call)
    }

    /// Begins to bring a file of one host to another: asks how large it is.
    pub fn transfer(&self, request: TransferRequest) -> (r: (Transfer, RemoteCall))
        ensures
            r.0@ == fresh_transfer(request),
            r.1@ == reading(request.source_host@, "stat"@, path_params(request.source_path@)),
            r.1@.arrives(),
    {
        let call = reading_call(request.source_host.as_str(), "stat", path_json(request.source_path.as_str()));
        proof {
            law_calls_with_plain_parameters_arrive(call@, 1);
        }
        (Transfer::new(request), call)
    }
}

/// A call that reads says so and brings nothing along; one that may change something
/// says so and brings along what it is given. Either goes to the host, with the
/// method and the parameters, that it is made for.
pub proof fn law_calls_say_whether_they_change_something(
    host: Seq<char>,
    method: Seq<char>,
    params: JsonView,
    payload: Seq<u8>,
)
    ensures
        ({
            let call = reading(host, method, params);
            call.host == host && call.method == method && call.params == params && call.payload.len() == 0
                && call.readonly
        }),
        ({
            let call = changing(host, method, params, payload);
            call.host == host && call.method == method && call.params == params && call.payload == payload
                && !call.readonly
        }),
{
}

/// An answer is good exactly if it came and says that all went well, and is then
/// taken with its result and its payload. One that says that the call failed is a
/// failure with the host's own words, or with `remote operation failed` where it has
/// none. One that did not come is a failure for the reason given.
pub proof fn law_an_answer_is_good_exactly_if_it_says_so(answer: Answer)
    ensures
        match answer {
            Answer::Given(frame) => if frame.header.ok {
                answer@ == (ReplyView::Good { result: frame.header.result@, payload: frame.payload@ })
            } else {
                answer@ matches ReplyView::Bad(problem) && problem.message() == match frame.header.error {
                    Some(s) => s@,
                    None => "remote operation failed"@,
                }
            },
            Answer::Missing(s) => answer@ matches ReplyView::Bad(problem) && problem.message() == s@,
        },
{
}

/// A reading tool shows the bytes that come with an answer, where there are any, and
/// else the result with indentation. Any other tool shows the result.
pub proof fn law_what_a_tool_shows(showing: Showing, result: Json, payload: Seq<u8>)
    ensures
        showing.text(result, payload) == if showing.payload_first && payload.len() > 0 {
            lossy_text(payload)
        } else {
            pretty_text(reread(tokens(result)))
        },
        showing.takes_payload(payload) <==> showing.payload_first && payload.len() > 0,
        first_page().offset is None && first_page().limit is None,
{
}

/// Every refusal of a tool that is no failure of a host says what was wrong.
pub proof fn law_refusals_say_what_was_wrong()
    ensures
        ToolProblem::NotOneCommand.message() == "exactly one of argv and command is required"@,
        ToolProblem::DeleteRefused.message()
            == "delete=true is intentionally not accepted by the v0.1 MCP surface; reconcile deletions explicitly"@,
        ToolProblem::InvalidManifest.message() == "invalid manifest"@,
        ToolProblem::UnsafePath.message() == "unsafe manifest path"@,
        ToolProblem::SizeUnavailable.message() == "source size unavailable"@,
        ToolProblem::SourceEnded.message() == "source ended before advertised size"@,
        ToolProblem::NotANumber.message() == "invalid number"@,
{
}

/// What a call says is what stands in its fields.
pub proof fn law_a_call_says_what_it_holds(call: RemoteCall)
    ensures
        call@.host == call.host@,
        call@.method == call.method@,
        call@.params == call.params@,
        call@.payload == call.payload@,
        call@.readonly == call.readonly,
{
}

} // verus!
