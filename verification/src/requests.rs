//! What the tools are asked for, and the parameters that a host is sent.

use vstd::prelude::*;
use crate::budget::Page;
use crate::json::{
    json_view, members_view, no_members, opt_view, put, text_array, text_or_null, Json, JsonView,
};
use crate::json_value::readable;
use crate::order::text_less;
use crate::string_map::{ascending, StringMap};
use crate::text::views;

verus! {

/// Asks for something of a host.
#[derive(Clone, Debug, PartialEq)]
pub struct HostRequest {
    pub host: String,
}

/// Asks for something of a host, page by page.
#[derive(Clone, Debug, PartialEq)]
pub struct HostPageRequest {
    pub host: String,
    pub page: Page,
}

/// Asks for something of a path on a host.
#[derive(Clone, Debug, PartialEq)]
pub struct PathRequest {
    pub host: String,
    pub path: String,
}

/// Asks for the contents of a file.
#[derive(Clone, Debug, PartialEq)]
pub struct ReadRequest {
    pub host: String,
    pub path: String,
    pub byte_offset: Option<u64>,
    pub byte_limit: Option<usize>,
    pub page: Page,
}

/// Asks for the places where a pattern occurs in files.
#[derive(Clone, Debug, PartialEq)]
pub struct GrepRequest {
    pub host: String,
    pub path: String,
    pub pattern: String,
    pub case_insensitive: Option<bool>,
    pub encoding: Option<String>,
    pub match_limit: Option<usize>,
    pub page: Page,
}

/// Asks for the paths that a pattern matches.
#[derive(Clone, Debug, PartialEq)]
pub struct GlobRequest {
    pub host: String,
    pub path: String,
    pub pattern: String,
    pub match_limit: Option<usize>,
    pub page: Page,
}

/// Asks for the processes of a host.
#[derive(Clone, Debug, PartialEq)]
pub struct ProcessesRequest {
    pub host: String,
    pub pattern: Option<String>,
    pub page: Page,
}

/// Asks for what a job has put out.
#[derive(Clone, Debug, PartialEq)]
pub struct JobOutputRequest {
    pub host: String,
    pub job_id: String,
    pub offset: Option<u64>,
    pub limit: Option<usize>,
    pub page: Page,
}

/// One of the operations of a query.
#[derive(Clone, Debug, PartialEq)]
pub struct QueryOperation {
    pub method: String,
    pub params: Json,
}

/// Asks for several things at once.
#[derive(Clone, Debug, PartialEq)]
pub struct QueryRequest {
    pub host: String,
    pub operations: Vec<QueryOperation>,
    pub page: Page,
}

/// Asks for a command to be run.
#[derive(Clone, Debug, PartialEq)]
pub struct ExecRequest {
    pub host: String,
    pub cwd: String,
    pub argv: Option<Vec<String>>,
    pub command: Option<String>,
    pub env: StringMap<String>,
    pub timeout_ms: Option<u64>,
    pub page: Page,
}

/// Asks for a command to be run in the background.
#[derive(Clone, Debug, PartialEq)]
pub struct JobStartRequest {
    pub host: String,
    pub cwd: String,
    pub argv: Option<Vec<String>>,
    pub command: Option<String>,
    pub env: StringMap<String>,
}

/// Asks for a job to be ended.
#[derive(Clone, Debug, PartialEq)]
pub struct JobKillRequest {
    pub host: String,
    pub job_id: String,
}

/// Asks for local files to be brought to a host.
#[derive(Clone, Debug, PartialEq)]
pub struct SyncPushRequest {
    pub host: String,
    pub local_path: String,
    pub remote_path: String,
    pub exclude: Vec<String>,
    pub delete: bool,
}

/// Asks for files of a host to be brought here.
#[derive(Clone, Debug, PartialEq)]
pub struct SyncPullRequest {
    pub host: String,
    pub remote_path: String,
    pub local_path: String,
}

/// Asks for a file of one host to be brought to another.
#[derive(Clone, Debug, PartialEq)]
pub struct TransferRequest {
    pub source_host: String,
    pub source_path: String,
    pub destination_host: String,
    pub destination_path: String,
    pub resume: bool,
    pub verify: Option<String>,
}

/// `n` as a JSON number, or `null` where there is none.
pub open spec fn number_or_null(n: Option<u64>) -> JsonView {
    match n {
        Some(n) => JsonView::Unsigned(n),
        None => JsonView::Null,
    }
}

/// `n` as a JSON number, or `null` where there is none.
pub open spec fn size_or_null(n: Option<usize>) -> JsonView {
    match n {
        Some(n) => JsonView::Unsigned(n as u64),
        None => JsonView::Null,
    }
}

/// `b` as a JSON boolean, or `null` where there is none.
pub open spec fn bool_or_null(b: Option<bool>) -> JsonView {
    match b {
        Some(b) => JsonView::Bool(b),
        None => JsonView::Null,
    }
}

/// `list` as a JSON array of strings, or `null` where there is none.
pub open spec fn texts_or_null(list: Option<Vec<String>>) -> JsonView {
    match list {
        Some(list) => text_array(views(list@)),
        None => JsonView::Null,
    }
}

/// The texts of a map as the members of a JSON object.
pub open spec fn text_members(map: StringMap<String>) -> JsonView {
    JsonView::Object(
        Map::new(|k: Seq<char>| map.at(k) is Some, |k: Seq<char>| JsonView::Text(map.at(k)->0@)),
    )
}

fn number_json(n: Option<u64>) -> (r: Json)
    ensures
        r@ == number_or_null(n),
{
    match n {
        Some(n) => Json::Unsigned(n),
        None => Json::Null,
    }
}

fn size_json(n: Option<usize>) -> (r: Json)
    ensures
        r@ == size_or_null(n),
{
    match n {
        Some(n) => Json::number(n),
        None => Json::Null,
    }
}

fn bool_json(b: Option<bool>) -> (r: Json)
    ensures
        r@ == bool_or_null(b),
{
    match b {
        Some(b) => Json::Bool(b),
        None => Json::Null,
    }
}

fn texts_json(list: &Option<Vec<String>>) -> (r: Json)
    ensures
        r@ == texts_or_null(*list),
        readable(r@, 1),
{
    match list {
        Some(list) => Json::strings(list),
        None => Json::Null,
    }
}

fn text_members_json(map: &StringMap<String>) -> (r: Json)
    ensures
        r@ == text_members(*map),
        readable(r@, 1),
{
    let mut members = no_members();
    let count: usize = map.len();
    let mut i: usize = 0;
    let ghost keys = map.keys();
    while i < count
        invariant
            i <= count == keys.len(),
            keys == map.keys(),
            ascending(keys),
            readable(JsonView::Object(members_view(members)), 1),
            forall|k: Seq<char>| #[trigger]
                members_view(members).contains_key(k) <==> keys.take(i as int).contains(k),
            forall|m: int|
                0 <= m < i ==> #[trigger] members_view(members)[keys[m]] == JsonView::Text(map.entries()[m].1@),
        decreases count - i,
    {
        let key = map.key_at(i);
        let ghost before = members_view(members);
        put(&mut members, key.as_str(), Json::Text(map.value_at(i).clone()));
        proof {
            assert(key@ == keys[i as int]);
            let now = keys.take(i + 1);
            let was = keys.take(i as int);
            assert(now =~= was.push(key@));
            assert forall|k: Seq<char>| #[trigger]
                members_view(members).contains_key(k) <==> now.contains(k) by {
                if k == key@ {
                    assert(now[i as int] == k);
                } else {
                    if was.contains(k) {
                        let m = choose|m: int| 0 <= m < was.len() && was[m] == k;
                        assert(now[m] == k);
                    }
                    if now.contains(k) {
                        let m = choose|m: int| 0 <= m < now.len() && now[m] == k;
                        assert(was[m] == k);
                    }
                }
            }
            assert forall|m: int| 0 <= m < i + 1 implies #[trigger] members_view(members)[keys[m]] == JsonView::Text(
                map.entries()[m].1@,
            ) by {
                if m < i {
                    assert(text_less(keys[m], keys[i as int]));
                    crate::order::lemma_text_less_irreflexive(keys[m]);
                    assert(before[keys[m]] == JsonView::Text(map.entries()[m].1@));
                }
            }
        }
        i = i + 1;
    }
    proof {
        let seen = keys.take(i as int);
        assert(seen =~= keys);
        let wanted = text_members(*map)->Object_0;
        assert forall|k: Seq<char>| members_view(members).contains_key(k) <==> #[trigger] wanted.contains_key(k) by {
            if keys.contains(k) {
                let m = choose|m: int| 0 <= m < keys.len() && keys[m] == k;
                crate::string_map::lemma_lookup_at(keys, map.values(), m);
            }
        }
        assert forall|k: Seq<char>| wanted.contains_key(k) implies members_view(members)[k] == #[trigger] wanted[k] by {
            let m = choose|m: int| 0 <= m < keys.len() && keys[m] == k;
            crate::string_map::lemma_lookup_at(keys, map.values(), m);
            assert(members_view(members)[keys[m]] == JsonView::Text(map.entries()[m].1@));
        }
        assert(members_view(members) =~= wanted);
    }
    Json::Object(members)
}

/// The parameters that name one path.
pub open spec fn path_params(path: Seq<char>) -> JsonView {
    JsonView::Object(map!["path"@ => JsonView::Text(path)])
}

/// The parameters that name one path.
pub fn path_json(path: &str) -> (r: Json)
    ensures
        r@ == path_params(path@),
        readable(r@, 1),
{
    let mut members = no_members();
    put(&mut members, "path", Json::string(path));
    Json::Object(members)
}

impl ReadRequest {
    /// What the host is sent.
    pub open spec fn params(self) -> JsonView {
        JsonView::Object(
            map![
                "path"@ => JsonView::Text(self.path@),
                "byte_offset"@ => number_or_null(self.byte_offset),
                "byte_limit"@ => size_or_null(self.byte_limit),
            ],
        )
    }

    /// What the host is sent.
    pub fn to_json(&self) -> (r: Json)
        ensures
            r@ == self.params(),
            readable(r@, 1),
    {
        let mut members = no_members();
        put(&mut members, "path", Json::string(self.path.as_str()));
        put(&mut members, "byte_offset", number_json(self.byte_offset));
        put(&mut members, "byte_limit", size_json(self.byte_limit));
        Json::Object(members)
    }
}

impl GrepRequest {
    /// What the host is sent: all that was asked for, the page included.
    pub open spec fn params(self) -> JsonView {
        JsonView::Object(
            map![
                "host"@ => JsonView::Text(self.host@),
                "path"@ => JsonView::Text(self.path@),
                "pattern"@ => JsonView::Text(self.pattern@),
                "case_insensitive"@ => bool_or_null(self.case_insensitive),
                "encoding"@ => text_or_null(opt_view(self.encoding)),
                "match_limit"@ => size_or_null(self.match_limit),
                "offset"@ => size_or_null(self.page.offset),
                "limit"@ => size_or_null(self.page.limit),
            ],
        )
    }

    /// What the host is sent.
    pub fn to_json(&self) -> (r: Json)
        ensures
            r@ == self.params(),
            readable(r@, 1),
    {
        let mut members = no_members();
        put(&mut members, "host", Json::string(self.host.as_str()));
        put(&mut members, "path", Json::string(self.path.as_str()));
        put(&mut members, "pattern", Json::string(self.pattern.as_str()));
        put(&mut members, "case_insensitive", bool_json(self.case_insensitive));
        put(&mut members, "encoding", Json::string_or_null(&self.encoding));
        put(&mut members, "match_limit", size_json(self.match_limit));
        put(&mut members, "offset", size_json(self.page.offset));
        put(&mut members, "limit", size_json(self.page.limit));
        Json::Object(members)
    }
}

impl GlobRequest {
    /// What the host is sent: all that was asked for, the page included.
    pub open spec fn params(self) -> JsonView {
        JsonView::Object(
            map![
                "host"@ => JsonView::Text(self.host@),
                "path"@ => JsonView::Text(self.path@),
                "pattern"@ => JsonView::Text(self.pattern@),
                "match_limit"@ => size_or_null(self.match_limit),
                "offset"@ => size_or_null(self.page.offset),
                "limit"@ => size_or_null(self.page.limit),
            ],
        )
    }

    /// What the host is sent.
    pub fn to_json(&self) -> (r: Json)
        ensures
            r@ == self.params(),
            readable(r@, 1),
    {
        let mut members = no_members();
        put(&mut members, "host", Json::string(self.host.as_str()));
        put(&mut members, "path", Json::string(self.path.as_str()));
        put(&mut members, "pattern", Json::string(self.pattern.as_str()));
        put(&mut members, "match_limit", size_json(self.match_limit));
        put(&mut members, "offset", size_json(self.page.offset));
        put(&mut members, "limit", size_json(self.page.limit));
        Json::Object(members)
    }
}

impl ProcessesRequest {
    /// What the host is sent.
    pub open spec fn params(self) -> JsonView {
        JsonView::Object(map!["pattern"@ => text_or_null(opt_view(self.pattern))])
    }

    /// What the host is sent.
    pub fn to_json(&self) -> (r: Json)
        ensures
            r@ == self.params(),
            readable(r@, 1),
    {
        let mut members = no_members();
        put(&mut members, "pattern", Json::string_or_null(&self.pattern));
        Json::Object(members)
    }
}

impl JobOutputRequest {
    /// What the host is sent: where the output is resumed and how much of it is
    /// asked for, as the request says or else as its page does.
    pub open spec fn params(self) -> JsonView {
        JsonView::Object(
            map![
                "host"@ => JsonView::Text(self.host@),
                "job_id"@ => JsonView::Text(self.job_id@),
                "offset"@ => if self.offset is Some {
                    number_or_null(self.offset)
                } else {
                    size_or_null(self.page.offset)
                },
                "limit"@ => if self.limit is Some {
                    size_or_null(self.limit)
                } else {
                    size_or_null(self.page.limit)
                },
            ],
        )
    }

    /// What the host is sent.
    pub fn to_json(&self) -> (r: Json)
        ensures
            r@ == self.params(),
            readable(r@, 1),
    {
        let mut members = no_members();
        put(&mut members, "host", Json::string(self.host.as_str()));
        put(&mut members, "job_id", Json::string(self.job_id.as_str()));
        let offset = match self.offset {
            Some(n) => Json::Unsigned(n),
            None => size_json(self.page.offset),
        };
        let limit = match self.limit {
            Some(n) => Json::number(n),
            None => size_json(self.page.limit),
        };
        put(&mut members, "offset", offset);
        put(&mut members, "limit", limit);
        Json::Object(members)
    }
}

impl QueryOperation {
    /// One operation as the host is sent it.
    pub open spec fn params_view(self) -> JsonView {
        JsonView::Object(map!["method"@ => JsonView::Text(self.method@), "params"@ => self.params@])
    }

    /// One operation as the host is sent it.
    pub fn to_json(&self) -> (r: Json)
        ensures
            r@ == self.params_view(),
            forall|n: nat| #[trigger] readable(self.params@, n) ==> readable(r@, n + 1),
    {
        let mut members = no_members();
        put(&mut members, "method", Json::string(self.method.as_str()));
        put(&mut members, "params", self.params.clone());
        Json::Object(members)
    }
}

impl QueryRequest {
    /// Whether the parameters of every operation are read back within these levels.
    pub open spec fn operations_readable(self, levels: nat) -> bool {
        forall|i: int| 0 <= i < self.operations@.len() ==> readable((#[trigger] self.operations@[i]).params@, levels)
    }

    /// What the host is sent: the operations in their order.
    pub open spec fn params(self) -> JsonView {
        JsonView::Object(
            map![
                "operations"@ => JsonView::Array(
                    Seq::new(self.operations@.len(), |i: int| self.operations@[i].params_view()),
                ),
            ],
        )
    }

    /// What the host is sent.
    pub fn to_json(&self) -> (r: Json)
        ensures
            r@ == self.params(),
            forall|n: nat| #[trigger] self.operations_readable(n) ==> readable(r@, n + 3),
    {
        let mut list: Vec<Json> = Vec::new();
        let mut i: usize = 0;
        while i < self.operations.len()
            invariant
                i <= self.operations@.len(),
                list@.len() == i,
                forall|k: int| 0 <= k < i ==> json_view(#[trigger] list@[k]) == self.operations@[k].params_view(),
                forall|k: int, n: nat|
                    0 <= k < i && #[trigger] readable(self.operations@[k].params@, n) ==> readable(list@[k]@, n + 1),
            decreases self.operations@.len() - i,
        {
            list.push(self.operations[i].to_json());
            i = i + 1;
        }
        let all = Json::Array(list);
        assert(all@->Array_0 =~= Seq::new(self.operations@.len(), |i: int| self.operations@[i].params_view()));
        let mut members = no_members();
        put(&mut members, "operations", all);
        proof {
            assert forall|n: nat| #[trigger] self.operations_readable(n) implies readable(
                JsonView::Object(members_view(members)),
                n + 3,
            ) by {
                let items = all@->Array_0;
                assert forall|i: int| 0 <= i < items.len() implies readable(#[trigger] items[i], n + 1) by {
                    assert(readable(self.operations@[i].params@, n));
                    assert(items[i] == list@[i]@);
                }
                assert(readable(all@, n + 2));
            }
        }
        Json::Object(members)
    }
}

impl ExecRequest {
    /// What the host is sent: all that was asked for, the page included.
    pub open spec fn params(self) -> JsonView {
        JsonView::Object(
            map![
                "host"@ => JsonView::Text(self.host@),
                "cwd"@ => JsonView::Text(self.cwd@),
                "argv"@ => texts_or_null(self.argv),
                "command"@ => text_or_null(opt_view(self.command)),
                "env"@ => text_members(self.env),
                "timeout_ms"@ => number_or_null(self.timeout_ms),
                "offset"@ => size_or_null(self.page.offset),
                "limit"@ => size_or_null(self.page.limit),
            ],
        )
    }

    /// What the host is sent.
    pub fn to_json(&self) -> (r: Json)
        ensures
            r@ == self.params(),
            readable(r@, 2),
    {
        let mut members = no_members();
        put(&mut members, "host", Json::string(self.host.as_str()));
        put(&mut members, "cwd", Json::string(self.cwd.as_str()));
        put(&mut members, "argv", texts_json(&self.argv));
        put(&mut members, "command", Json::string_or_null(&self.command));
        put(&mut members, "env", text_members_json(&self.env));
        put(&mut members, "timeout_ms", number_json(self.timeout_ms));
        put(&mut members, "offset", size_json(self.page.offset));
        put(&mut members, "limit", size_json(self.page.limit));
        Json::Object(members)
    }
}

impl JobStartRequest {
    /// What the host is sent: all that was asked for.
    pub open spec fn params(self) -> JsonView {
        JsonView::Object(
            map![
                "host"@ => JsonView::Text(self.host@),
                "cwd"@ => JsonView::Text(self.cwd@),
                "argv"@ => texts_or_null(self.argv),
                "command"@ => text_or_null(opt_view(self.command)),
                "env"@ => text_members(self.env),
            ],
        )
    }

    /// What the host is sent.
    pub fn to_json(&self) -> (r: Json)
        ensures
            r@ == self.params(),
            readable(r@, 2),
    {
        let mut members = no_members();
        put(&mut members, "host", Json::string(self.host.as_str()));
        put(&mut members, "cwd", Json::string(self.cwd.as_str()));
        put(&mut members, "argv", texts_json(&self.argv));
        put(&mut members, "command", Json::string_or_null(&self.command));
        put(&mut members, "env", text_members_json(&self.env));
        Json::Object(members)
    }
}

impl JobKillRequest {
    /// What the host is sent: all that was asked for.
    pub open spec fn params(self) -> JsonView {
        JsonView::Object(map!["host"@ => JsonView::Text(self.host@), "job_id"@ => JsonView::Text(self.job_id@)])
    }

    /// What the host is sent.
    pub fn to_json(&self) -> (r: Json)
        ensures
            r@ == self.params(),
            readable(r@, 1),
    {
        let mut members = no_members();
        put(&mut members, "host", Json::string(self.host.as_str()));
        put(&mut members, "job_id", Json::string(self.job_id.as_str()));
        Json::Object(members)
    }
}

proof fn lemma_parameter_names()
    ensures
        "host"@.len() == 4,
        "host"@[0] == 'h',
        "path"@.len() == 4,
        "path"@[0] == 'p',
        "pattern"@.len() == 7,
        "pattern"@[0] == 'p',
        "case_insensitive"@.len() == 16,
        "case_insensitive"@[0] == 'c',
        "encoding"@.len() == 8,
        "encoding"@[0] == 'e',
        "match_limit"@.len() == 11,
        "match_limit"@[0] == 'm',
        "offset"@.len() == 6,
        "offset"@[0] == 'o',
        "limit"@.len() == 5,
        "limit"@[0] == 'l',
        "byte_offset"@.len() == 11,
        "byte_offset"@[0] == 'b',
        "byte_limit"@.len() == 10,
        "byte_limit"@[0] == 'b',
        "job_id"@.len() == 6,
        "job_id"@[0] == 'j',
        "operations"@.len() == 10,
        "operations"@[0] == 'o',
        "method"@.len() == 6,
        "method"@[0] == 'm',
        "params"@.len() == 6,
        "params"@[0] == 'p',
        "cwd"@.len() == 3,
        "cwd"@[0] == 'c',
        "argv"@.len() == 4,
        "argv"@[0] == 'a',
        "command"@.len() == 7,
        "command"@[0] == 'c',
        "env"@.len() == 3,
        "env"@[0] == 'e',
        "timeout_ms"@.len() == 10,
        "timeout_ms"@[0] == 't',
{
    reveal_strlit("host");
    reveal_strlit("path");
    reveal_strlit("pattern");
    reveal_strlit("case_insensitive");
    reveal_strlit("encoding");
    reveal_strlit("match_limit");
    reveal_strlit("offset");
    reveal_strlit("limit");
    reveal_strlit("byte_offset");
    reveal_strlit("byte_limit");
    reveal_strlit("job_id");
    reveal_strlit("operations");
    reveal_strlit("method");
    reveal_strlit("params");
    reveal_strlit("cwd");
    reveal_strlit("argv");
    reveal_strlit("command");
    reveal_strlit("env");
    reveal_strlit("timeout_ms");
}

/// The parameters that name a path hold it as `path`.
pub proof fn law_a_path_is_sent(path: Seq<char>)
    ensures
        path_params(path).member("path"@) == Some(JsonView::Text(path)),
{
}

/// A read is sent with its path and with the range of bytes that was asked for, where
/// one was.
pub proof fn law_a_read_sends_its_range(request: ReadRequest)
    ensures
        request.params().member("path"@) == Some(JsonView::Text(request.path@)),
        request.params().member("byte_offset"@) == match request.byte_offset {
            Some(x) => Some(JsonView::Unsigned(x)),
            None => Some(JsonView::Null),
        },
        request.params().member("byte_limit"@) == match request.byte_limit {
            Some(x) => Some(JsonView::Unsigned(x as u64)),
            None => Some(JsonView::Null),
        },
{
    lemma_parameter_names();
}

/// A search in files is sent with all that was asked for.
pub proof fn law_a_search_in_files_sends_all_that_was_asked(request: GrepRequest)
    ensures
        request.params().member("host"@) == Some(JsonView::Text(request.host@)),
        request.params().member("path"@) == Some(JsonView::Text(request.path@)),
        request.params().member("pattern"@) == Some(JsonView::Text(request.pattern@)),
        request.params().member("case_insensitive"@) == match request.case_insensitive {
            Some(x) => Some(JsonView::Bool(x)),
            None => Some(JsonView::Null),
        },
        request.params().member("encoding"@) == match request.encoding {
            Some(x) => Some(JsonView::Text(x@)),
            None => Some(JsonView::Null),
        },
        request.params().member("match_limit"@) == match request.match_limit {
            Some(x) => Some(JsonView::Unsigned(x as u64)),
            None => Some(JsonView::Null),
        },
        request.params().member("offset"@) == match request.page.offset {
            Some(x) => Some(JsonView::Unsigned(x as u64)),
            None => Some(JsonView::Null),
        },
        request.params().member("limit"@) == match request.page.limit {
            Some(x) => Some(JsonView::Unsigned(x as u64)),
            None => Some(JsonView::Null),
        },
{
    lemma_parameter_names();
}

/// A search for paths is sent with all that was asked for.
pub proof fn law_a_search_for_paths_sends_all_that_was_asked(request: GlobRequest)
    ensures
        request.params().member("host"@) == Some(JsonView::Text(request.host@)),
        request.params().member("path"@) == Some(JsonView::Text(request.path@)),
        request.params().member("pattern"@) == Some(JsonView::Text(request.pattern@)),
        request.params().member("match_limit"@) == match request.match_limit {
            Some(x) => Some(JsonView::Unsigned(x as u64)),
            None => Some(JsonView::Null),
        },
        request.params().member("offset"@) == match request.page.offset {
            Some(x) => Some(JsonView::Unsigned(x as u64)),
            None => Some(JsonView::Null),
        },
        request.params().member("limit"@) == match request.page.limit {
            Some(x) => Some(JsonView::Unsigned(x as u64)),
            None => Some(JsonView::Null),
        },
{
    lemma_parameter_names();
}

/// Processes are asked for with the pattern that was given, where one was.
pub proof fn law_a_list_of_processes_is_asked_for_with_its_pattern(request: ProcessesRequest)
    ensures
        request.params().member("pattern"@) == match request.pattern {
            Some(x) => Some(JsonView::Text(x@)),
            None => Some(JsonView::Null),
        },
{
    lemma_parameter_names();
}

/// The output of a job is asked for by its identifier, from the place that was given
/// and as much of it: by the request itself, or else by its page.
pub proof fn law_output_is_asked_for_where_it_was_left(request: JobOutputRequest)
    ensures
        request.params().member("host"@) == Some(JsonView::Text(request.host@)),
        request.params().member("job_id"@) == Some(JsonView::Text(request.job_id@)),
        request.params().member("offset"@) == match (request.offset, request.page.offset) {
            (Some(x), _) => Some(JsonView::Unsigned(x)),
            (None, Some(x)) => Some(JsonView::Unsigned(x as u64)),
            (None, None) => Some(JsonView::Null),
        },
        request.params().member("limit"@) == match (request.limit, request.page.limit) {
            (Some(x), _) => Some(JsonView::Unsigned(x as u64)),
            (None, Some(x)) => Some(JsonView::Unsigned(x as u64)),
            (None, None) => Some(JsonView::Null),
        },
{
    lemma_parameter_names();
}

/// A query is sent with all its operations in their order, each with its method and
/// its parameters.
pub proof fn law_a_query_sends_its_operations_in_order(request: QueryRequest, i: int)
    ensures
        request.params().member("operations"@) matches Some(JsonView::Array(items)) && items.len()
            == request.operations@.len() && (0 <= i < items.len() ==> items[i].member("method"@) == Some(
            JsonView::Text(request.operations@[i].method@),
        ) && items[i].member("params"@) == Some(request.operations@[i].params@)),
{
    lemma_parameter_names();
}

/// A command is sent as it was given: the arguments one by one or the line for a
/// shell, with the directory, the environment and the time that it may take. Where
/// exactly one of arguments and line is given, exactly one of them is sent.
pub proof fn law_a_command_is_sent_as_it_was_given(request: ExecRequest)
    ensures
        request.params().member("host"@) == Some(JsonView::Text(request.host@)),
        request.params().member("cwd"@) == Some(JsonView::Text(request.cwd@)),
        request.params().member("command"@) == match request.command {
            Some(x) => Some(JsonView::Text(x@)),
            None => Some(JsonView::Null),
        },
        request.params().member("timeout_ms"@) == match request.timeout_ms {
            Some(x) => Some(JsonView::Unsigned(x)),
            None => Some(JsonView::Null),
        },
        request.params().member("offset"@) == match request.page.offset {
            Some(x) => Some(JsonView::Unsigned(x as u64)),
            None => Some(JsonView::Null),
        },
        request.params().member("limit"@) == match request.page.limit {
            Some(x) => Some(JsonView::Unsigned(x as u64)),
            None => Some(JsonView::Null),
        },
        match request.argv {
            Some(list) => request.params().member("argv"@) matches Some(JsonView::Array(items)) && items.len()
                == list@.len() && forall|i: int|
                0 <= i < items.len() ==> #[trigger] items[i] == JsonView::Text(list@[i]@),
            None => request.params().member("argv"@) == Some(JsonView::Null),
        },
        request.params().member("env"@) matches Some(JsonView::Object(env)) && (forall|k: Seq<char>|
            #[trigger] env.contains_key(k) <==> request.env.at(k) is Some) && (forall|k: Seq<char>|
            env.contains_key(k) ==> #[trigger] env[k] == JsonView::Text(request.env.at(k)->0@)),
        (request.argv is Some) != (request.command is Some) ==> (request.params().member("argv"@) == Some(
            JsonView::Null,
        )) != (request.params().member("command"@) == Some(JsonView::Null)),
{
    lemma_parameter_names();
}

/// A job is sent as it was given: the arguments one by one or the line for a shell,
/// with the directory and the environment.
pub proof fn law_a_job_is_sent_as_it_was_given(request: JobStartRequest)
    ensures
        request.params().member("host"@) == Some(JsonView::Text(request.host@)),
        request.params().member("cwd"@) == Some(JsonView::Text(request.cwd@)),
        request.params().member("command"@) == match request.command {
            Some(x) => Some(JsonView::Text(x@)),
            None => Some(JsonView::Null),
        },
        match request.argv {
            Some(list) => request.params().member("argv"@) matches Some(JsonView::Array(items)) && items.len()
                == list@.len() && forall|i: int|
                0 <= i < items.len() ==> #[trigger] items[i] == JsonView::Text(list@[i]@),
            None => request.params().member("argv"@) == Some(JsonView::Null),
        },
        request.params().member("env"@) matches Some(JsonView::Object(env)) && (forall|k: Seq<char>|
            #[trigger] env.contains_key(k) <==> request.env.at(k) is Some) && (forall|k: Seq<char>|
            env.contains_key(k) ==> #[trigger] env[k] == JsonView::Text(request.env.at(k)->0@)),
        (request.argv is Some) != (request.command is Some) ==> (request.params().member("argv"@) == Some(
            JsonView::Null,
        )) != (request.params().member("command"@) == Some(JsonView::Null)),
{
    lemma_parameter_names();
}

/// A job is ended by its identifier.
pub proof fn law_a_job_is_ended_by_its_identifier(request: JobKillRequest)
    ensures
        request.params().member("host"@) == Some(JsonView::Text(request.host@)),
        request.params().member("job_id"@) == Some(JsonView::Text(request.job_id@)),
{
    lemma_parameter_names();
}

} // verus!
