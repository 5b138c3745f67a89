//! The headers of frames: requests and responses as JSON.

use vstd::prelude::*;
use vstd::utf8::encode_utf8;
use crate::json::{members_view, no_members, opt_view, text_or_null, Json, JsonView};
use crate::json_value::{
    compact_text, entries_tokens, faithful, law_members_are_read_back,
    law_the_walk_tells_what_a_value_says, law_what_a_value_says_decides_whether_it_is_read_back, lemma_equal_walks,
    nested_within, ordered, printable, readable, reread, tokens, value_reading, walk_view, Token, MAX_NESTING,
};
use crate::order::text_less;
use crate::protocol::{ProtocolError, ProtocolProblem, Request, RequestView, Response, ResponseView};
use crate::string_map::{keys_of, StringMap};

verus! {

/// How deep the values in a header may be nested that is read.
pub const MAX_MEMBER_NESTING: usize = 126;

/// Adds a member behind all others.
fn add_last(members: &mut StringMap<Json>, key: &str, value: Json)
    requires
        forall|i: int| 0 <= i < old(members).keys().len() ==> text_less(#[trigger] old(members).keys()[i], key@),
    ensures
        final(members).entries().len() == old(members).entries().len() + 1,
        final(members).entries().drop_last() == old(members).entries(),
        final(members).entries().last().0@ == key@,
        final(members).entries().last().1 == value,
        final(members).keys() == old(members).keys().push(key@),
        members_view(*final(members)) == members_view(*old(members)).insert(key@, value@),
        entries_tokens(final(members).entries()) == entries_tokens(old(members).entries()) + seq![Token::Key(key@)]
            + tokens(value),
{
    let ghost before = members.entries();
    members.insert(key.to_owned(), value);
    proof {
        assert(members.entries().drop_last() =~= before);
        assert(members.keys() =~= keys_of(before).push(key@));
    }
}

/// A member of a header: by its name in an object, and by its place in an array.
pub open spec fn field(header: JsonView, place: int, name: Seq<char>) -> Option<JsonView> {
    match header {
        JsonView::Array(items) => if 0 <= place < items.len() {
            Some(items[place])
        } else {
            None
        },
        _ => header.member(name),
    }
}

/// Whether a value can be a header with this many members.
pub open spec fn header_shape(header: JsonView, count: int) -> bool {
    match header {
        JsonView::Object(_) => true,
        JsonView::Array(items) => items.len() <= count,
        _ => false,
    }
}

/// What is said of a member that is not there.
pub open spec fn missing_field(name: Seq<char>) -> Seq<char> {
    "missing field `"@ + name + "`"@
}

/// What is said of a member that is something else than it should be.
pub open spec fn invalid_field(name: Seq<char>) -> Seq<char> {
    "invalid field `"@ + name + "`"@
}

/// The text of a member that has to be there.
pub open spec fn text_field(header: JsonView, place: int, name: Seq<char>) -> Result<Seq<char>, Seq<char>> {
    match field(header, place, name) {
        None => Err(missing_field(name)),
        Some(v) => match v.text() {
            Some(s) => Ok(s),
            None => Err(invalid_field(name)),
        },
    }
}

fn about_field(before: &str, name: &str) -> (r: String)
    ensures
        r@ == before@ + name@ + "`"@,
{
    let mut out = before.to_owned();
    out.append(name);
    out.append("`");
    out
}

fn get_field<'a>(header: &'a Json, place: usize, name: &str) -> (r: Option<&'a Json>)
    ensures
        match r {
            Some(v) => field(header@, place as int, name@) == Some(v@),
            None => field(header@, place as int, name@) is None,
        },
{
    match header.as_array() {
        Some(items) => if place < items.len() {
            Some(&items[place])
        } else {
            None
        },
        None => header.get(name),
    }
}

fn get_text(header: &Json, place: usize, name: &str) -> (r: Result<String, ProtocolError>)
    ensures
        match r {
            Ok(s) => text_field(header@, place as int, name@) == Ok::<Seq<char>, Seq<char>>(s@),
            Err(e) => text_field(header@, place as int, name@) is Err && e@ == ProtocolProblem::Json(
                text_field(header@, place as int, name@)->Err_0,
            ),
        },
{
    match get_field(header, place, name) {
        None => Err(ProtocolError::Json(about_field("missing field `", name))),
        Some(v) => match v.as_str() {
            Some(s) => Ok(s.clone()),
            None => Err(ProtocolError::Json(about_field("invalid field `", name))),
        },
    }
}

fn has_shape(header: &Json, count: usize) -> (r: bool)
    ensures
        r == header_shape(header@, count as int),
{
    match header.as_array() {
        Some(items) => items.len() <= count,
        None => header.as_object().is_some(),
    }
}

/// The header of a request.
pub open spec fn request_header(request: RequestView) -> JsonView {
    JsonView::Object(
        map![
            "id"@ => JsonView::Text(request.id),
            "method"@ => JsonView::Text(request.method),
            "params"@ => request.params,
            "readonly"@ => JsonView::Bool(request.readonly),
        ],
    )
}

/// The walk through the header of a request.
pub open spec fn request_walk(request: Request) -> Seq<Token> {
    seq![
        Token::Object(4),
        Token::Key("id"@),
        Token::Text(request.id@),
        Token::Key("method"@),
        Token::Text(request.method@),
        Token::Key("params"@),
    ] + tokens(request.params) + seq![Token::Key("readonly"@), Token::Bool(request.readonly)]
}

/// The request that a header is, or what is wrong with it. Parameters that are
/// not given are `null`, and a request that does not say that it only reads may
/// change something.
pub open spec fn request_in(header: JsonView) -> Result<RequestView, Seq<char>> {
    if !header_shape(header, 4) {
        Err("invalid header"@)
    } else {
        match (text_field(header, 0, "id"@), text_field(header, 1, "method"@)) {
            (Err(e), _) => Err(e),
            (_, Err(e)) => Err(e),
            (Ok(id), Ok(method)) => {
                let params = match field(header, 2, "params"@) {
                    Some(v) => v,
                    None => JsonView::Null,
                };
                match field(header, 3, "readonly"@) {
                    None => Ok(RequestView { id, method, params, readonly: false }),
                    Some(v) => match v.boolean() {
                        Some(readonly) => Ok(RequestView { id, method, params, readonly }),
                        None => Err(invalid_field("readonly"@)),
                    },
                }
            },
        }
    }
}

/// The request that stands in the bytes of a header, or what is wrong with them.
pub open spec fn decoded_request(bytes: Seq<u8>) -> Result<RequestView, Seq<char>> {
    match value_reading(bytes) {
        Ok(walk) => request_in(walk_view(walk)),
        Err(e) => Err(e),
    }
}

proof fn lemma_request_names()
    ensures
        text_less("id"@, "method"@),
        text_less("id"@, "params"@),
        text_less("id"@, "readonly"@),
        text_less("method"@, "params"@),
        text_less("method"@, "readonly"@),
        text_less("params"@, "readonly"@),
        "id"@ != "method"@,
        "id"@ != "params"@,
        "id"@ != "readonly"@,
        "method"@ != "params"@,
        "method"@ != "readonly"@,
        "params"@ != "readonly"@,
{
    reveal_strlit("id");
    reveal_strlit("method");
    reveal_strlit("params");
    reveal_strlit("readonly");
    assert("id"@[0] == 'i' && "method"@[0] == 'm' && "params"@[0] == 'p' && "readonly"@[0] == 'r');
}

/// Whether these bytes can be the header of a frame with this request: where what
/// the request says is read back at all, it is read in them.
pub open spec fn carries_request(bytes: Seq<u8>, request: RequestView) -> bool {
    readable(request.params, MAX_MEMBER_NESTING as nat) ==> decoded_request(bytes) == Ok::<RequestView, Seq<char>>(
        request,
    )
}

/// Where the parameters of a request are read back, so is its header; and where a
/// header is read back, so are the parameters of the request that it is.
pub proof fn law_parameters_are_read_back_with_their_header(request: RequestView, header: JsonView)
    ensures
        readable(request.params, MAX_MEMBER_NESTING as nat) ==> readable(
            request_header(request),
            MAX_NESTING as nat,
        ),
        readable(header, MAX_NESTING as nat) ==> (request_in(header) matches Ok(read) ==> readable(
            read.params,
            MAX_MEMBER_NESTING as nat,
        )),
{
    if readable(request.params, MAX_MEMBER_NESTING as nat) {
        let members = request_header(request)->Object_0;
        assert forall|k: Seq<char>| members.contains_key(k) implies readable(#[trigger] members[k], 126) by {}
    }
    if readable(header, MAX_NESTING as nat) {
        lemma_fields_are_read_back(header, 2, "params"@);
    }
}

proof fn lemma_fields_are_read_back(header: JsonView, place: int, name: Seq<char>)
    requires
        readable(header, MAX_NESTING as nat),
    ensures
        field(header, place, name) matches Some(v) ==> readable(v, MAX_MEMBER_NESTING as nat),
{
    match header {
        JsonView::Object(members) => {
            if members.contains_key(name) {
                law_members_are_read_back(members, name, MAX_NESTING as nat);
            }
        },
        _ => {},
    }
}

/// Reading the header of a request gives the request back.
pub proof fn law_a_written_request_header_is_read(request: RequestView)
    ensures
        request_in(request_header(request)) == Ok::<RequestView, Seq<char>>(request),
{
    lemma_request_names();
}

proof fn lemma_join_walks(a: Seq<Token>, b: Seq<Token>)
    ensures
        printable(a + b) <==> printable(a) && printable(b),
{
    assert forall|i: int| 0 <= i < a.len() implies #[trigger] a[i] == (a + b)[i] by {}
    assert forall|i: int| 0 <= i < b.len() implies #[trigger] b[i] == (a + b)[i + a.len()] by {}
}

impl Request {
    /// The header of a frame with this request.
    pub fn to_header(&self) -> (r: Json)
        ensures
            r@ == request_header(self@),
            tokens(r) == request_walk(*self),
    {
        proof {
            lemma_request_names();
        }
        let mut members: StringMap<Json> = StringMap::new();
        add_last(&mut members, "id", Json::Text(self.id.clone()));
        add_last(&mut members, "method", Json::Text(self.method.clone()));
        add_last(&mut members, "params", self.params.clone());
        add_last(&mut members, "readonly", Json::Bool(self.readonly));
        let r = Json::Object(members);
        assert(r@->Object_0 =~= request_header(self@)->Object_0);
        assert(tokens(r) =~= request_walk(*self));
        r
    }

    /// The request that a header is. Where the header is read back, so are the
    /// parameters.
    pub fn from_header(header: &Json) -> (r: Result<Request, ProtocolError>)
        ensures
            match r {
                Ok(request) => request_in(header@) == Ok::<RequestView, Seq<char>>(request@) && ordered(
                    request.params,
                ) && (readable(header@, MAX_NESTING as nat) ==> readable(
                    request.params@,
                    MAX_MEMBER_NESTING as nat,
                ) && faithful(tokens(request.params)) && nested_within(request.params, MAX_MEMBER_NESTING as nat)),
                Err(e) => request_in(header@) is Err && e@ == ProtocolProblem::Json(request_in(header@)->Err_0),
            },
    {
        if !has_shape(header, 4) {
            return Err(ProtocolError::Json("invalid header".to_owned()));
        }
        let id = match get_text(header, 0, "id") {
            Ok(s) => s,
            Err(e) => {
                return Err(e);
            },
        };
        let method = match get_text(header, 1, "method") {
            Ok(s) => s,
            Err(e) => {
                return Err(e);
            },
        };
        let params = Json::or_null(get_field(header, 2, "params"));
        proof {
            if readable(header@, MAX_NESTING as nat) {
                lemma_fields_are_read_back(header@, 2, "params"@);
                law_what_a_value_says_decides_whether_it_is_read_back(params, MAX_MEMBER_NESTING as nat);
            }
        }
        let readonly = match get_field(header, 3, "readonly") {
            None => false,
            Some(v) => match v.as_bool() {
                Some(b) => b,
                None => {
                    return Err(ProtocolError::Json(about_field("invalid field `", "readonly")));
                },
            },
        };
        Ok(Request { id, method, params, readonly })
    }

    /// The bytes of the header of a frame with this request. What is read in them
    /// is this request.
    pub fn encode(&self) -> (r: Result<Vec<u8>, ProtocolError>)
        ensures
            match r {
                Ok(bytes) => printable(tokens(self.params)) && bytes@ == encode_utf8(
                    compact_text(reread(request_walk(*self))),
                ),
                Err(e) => !printable(tokens(self.params)) && e@ == ProtocolProblem::Json("invalid number"@),
            },
            r is Err ==> forall|n: nat| !(#[trigger] readable(self.params@, n)),
            r matches Ok(bytes) ==> carries_request(bytes@, self@),
    {
        let header = self.to_header();
        proof {
            let head = seq![
                Token::Object(4),
                Token::Key("id"@),
                Token::Text(self.id@),
                Token::Key("method"@),
                Token::Text(self.method@),
                Token::Key("params"@),
            ];
            let tail = seq![Token::Key("readonly"@), Token::Bool(self.readonly)];
            lemma_join_walks(head, tokens(self.params));
            lemma_join_walks(head + tokens(self.params), tail);
            assert(printable(head) && printable(tail));
            law_parameters_are_read_back_with_their_header(self@, header@);
            assert forall|n: nat| #[trigger] readable(self.params@, n) implies readable(header@, n + 1) by {
                let members = header@->Object_0;
                assert forall|k: Seq<char>| members.contains_key(k) implies readable(#[trigger] members[k], n) by {}
            }
            law_the_walk_tells_what_a_value_says(header);
            law_a_written_request_header_is_read(self@);
        }
        match header.to_bytes() {
            Some(bytes) => Ok(bytes),
            None => Err(ProtocolError::Json("invalid number".to_owned())),
        }
    }

    /// The request that stands in the bytes of a header. Written again, it is read
    /// back as it was.
    pub fn decode(bytes: &Vec<u8>) -> (r: Result<Request, ProtocolError>)
        ensures
            match r {
                Ok(request) => decoded_request(bytes@) == Ok::<RequestView, Seq<char>>(request@) && readable(
                    request.params@,
                    MAX_MEMBER_NESTING as nat,
                ) && faithful(tokens(request.params)) && nested_within(request.params, MAX_MEMBER_NESTING as nat),
                Err(e) => decoded_request(bytes@) is Err && e@ == ProtocolProblem::Json(
                    decoded_request(bytes@)->Err_0,
                ),
            },
    {
        match Json::from_bytes(bytes) {
            Ok(header) => {
                proof {
                    law_the_walk_tells_what_a_value_says(header);
                }
                Request::from_header(&header)
            },
            Err(text) => Err(ProtocolError::Json(text)),
        }
    }
}

/// The header of a response.
pub open spec fn response_header(response: ResponseView) -> JsonView {
    JsonView::Object(
        map![
            "error"@ => text_or_null(response.error),
            "id"@ => JsonView::Text(response.id),
            "metadata"@ => JsonView::Object(response.metadata),
            "ok"@ => JsonView::Bool(response.ok),
            "result"@ => response.result,
        ],
    )
}

/// The walk through an optional text.
pub open spec fn optional_text_token(s: Option<Seq<char>>) -> Token {
    match s {
        Some(s) => Token::Text(s),
        None => Token::Null,
    }
}

/// The walk through the header of a response.
pub open spec fn response_walk(response: Response) -> Seq<Token> {
    seq![
        Token::Object(5),
        Token::Key("error"@),
        optional_text_token(opt_view(response.error)),
        Token::Key("id"@),
        Token::Text(response.id@),
        Token::Key("metadata"@),
    ] + tokens(Json::Object(response.metadata)) + seq![
        Token::Key("ok"@),
        Token::Bool(response.ok),
        Token::Key("result"@),
    ] + tokens(response.result)
}

/// The error that a header gives, if it gives one.
pub open spec fn error_field(header: JsonView) -> Result<Option<Seq<char>>, Seq<char>> {
    match field(header, 3, "error"@) {
        None => Ok(None),
        Some(JsonView::Null) => Ok(None),
        Some(JsonView::Text(s)) => Ok(Some(s)),
        Some(_) => Err(invalid_field("error"@)),
    }
}

/// The metadata that a header gives, if it gives any.
pub open spec fn metadata_field(header: JsonView) -> Result<Map<Seq<char>, JsonView>, Seq<char>> {
    match field(header, 4, "metadata"@) {
        None => Ok(Map::empty()),
        Some(JsonView::Object(members)) => Ok(members),
        Some(_) => Err(invalid_field("metadata"@)),
    }
}

/// Whether all went well, which a header has to say.
pub open spec fn ok_field(header: JsonView) -> Result<bool, Seq<char>> {
    match field(header, 1, "ok"@) {
        None => Err(missing_field("ok"@)),
        Some(v) => match v.boolean() {
            Some(b) => Ok(b),
            None => Err(invalid_field("ok"@)),
        },
    }
}

/// The response that a header is, or what is wrong with it. A result that is not
/// given is `null`, and there need be no error and no metadata.
pub open spec fn response_in(header: JsonView) -> Result<ResponseView, Seq<char>> {
    if !header_shape(header, 5) {
        Err("invalid header"@)
    } else {
        match (text_field(header, 0, "id"@), ok_field(header), error_field(header), metadata_field(header)) {
            (Err(e), _, _, _) => Err(e),
            (_, Err(e), _, _) => Err(e),
            (_, _, Err(e), _) => Err(e),
            (_, _, _, Err(e)) => Err(e),
            (Ok(id), Ok(ok), Ok(error), Ok(metadata)) => {
                let result = match field(header, 2, "result"@) {
                    Some(v) => v,
                    None => JsonView::Null,
                };
                Ok(ResponseView { id, ok, result, error, metadata })
            },
        }
    }
}

/// The response that stands in the bytes of a header, or what is wrong with them.
pub open spec fn decoded_response(bytes: Seq<u8>) -> Result<ResponseView, Seq<char>> {
    match value_reading(bytes) {
        Ok(walk) => response_in(walk_view(walk)),
        Err(e) => Err(e),
    }
}

proof fn lemma_response_names()
    ensures
        text_less("error"@, "id"@),
        text_less("error"@, "metadata"@),
        text_less("error"@, "ok"@),
        text_less("error"@, "result"@),
        text_less("id"@, "metadata"@),
        text_less("id"@, "ok"@),
        text_less("id"@, "result"@),
        text_less("metadata"@, "ok"@),
        text_less("metadata"@, "result"@),
        text_less("ok"@, "result"@),
        "error"@ != "id"@,
        "error"@ != "metadata"@,
        "error"@ != "ok"@,
        "error"@ != "result"@,
        "id"@ != "metadata"@,
        "id"@ != "ok"@,
        "id"@ != "result"@,
        "metadata"@ != "ok"@,
        "metadata"@ != "result"@,
        "ok"@ != "result"@,
{
    reveal_strlit("error");
    reveal_strlit("id");
    reveal_strlit("metadata");
    reveal_strlit("ok");
    reveal_strlit("result");
    assert("error"@[0] == 'e' && "id"@[0] == 'i' && "metadata"@[0] == 'm' && "ok"@[0] == 'o' && "result"@[0] == 'r');
}

/// Whether what a response says is read back.
pub open spec fn readable_response(response: ResponseView) -> bool {
    readable(response.result, MAX_MEMBER_NESTING as nat) && readable(
        JsonView::Object(response.metadata),
        MAX_MEMBER_NESTING as nat,
    )
}

/// Whether these bytes can be the header of a frame with this response: where what
/// the response says is read back at all, it is read in them.
pub open spec fn carries_response(bytes: Seq<u8>, response: ResponseView) -> bool {
    readable_response(response) ==> decoded_response(bytes) == Ok::<ResponseView, Seq<char>>(response)
}

/// Where the parts of a response are read back, so is its header; and where a
/// header is read back, so are the parts of the response that it is.
pub proof fn law_a_result_is_read_back_with_its_header(response: ResponseView, header: JsonView)
    ensures
        readable_response(response) ==> readable(response_header(response), MAX_NESTING as nat),
        readable(header, MAX_NESTING as nat) ==> (response_in(header) matches Ok(read) ==> readable_response(read)),
{
    if readable_response(response) {
        let members = response_header(response)->Object_0;
        assert forall|k: Seq<char>| members.contains_key(k) implies readable(#[trigger] members[k], 126) by {}
    }
    if readable(header, MAX_NESTING as nat) {
        lemma_fields_are_read_back(header, 2, "result"@);
        lemma_fields_are_read_back(header, 4, "metadata"@);
    }
}

/// Reading the header of a response gives the response back.
pub proof fn law_a_written_response_header_is_read(response: ResponseView)
    ensures
        response_in(response_header(response)) == Ok::<ResponseView, Seq<char>>(response),
{
    lemma_response_names();
}

impl Clone for Response {
    fn clone(&self) -> (r: Self)
        ensures
            r@ == self@,
            tokens(r.result) == tokens(self.result),
            tokens(Json::Object(r.metadata)) == tokens(Json::Object(self.metadata)),
    {
        Response {
            id: self.id.clone(),
            ok: self.ok,
            result: self.result.clone(),
            error: match &self.error {
                Some(s) => Some(s.clone()),
                None => None,
            },
            metadata: copy_members(&self.metadata),
        }
    }
}

/// A copy of the members of an object.
fn copy_members(members: &StringMap<Json>) -> (r: StringMap<Json>)
    ensures
        members_view(r) == members_view(*members),
        tokens(Json::Object(r)) == tokens(Json::Object(*members)),
{
    let r = members.clone();
    proof {
        let a = r.entries();
        let b = members.entries();
        assert(r.keys().len() == members.keys().len());
        assert forall|i: int| 0 <= i < a.len() implies (#[trigger] a[i]).0@ == b[i].0@ && tokens(a[i].1) == tokens(
            b[i].1,
        ) by {
            assert(r.keys()[i] == members.keys()[i]);
            assert(cloned::<Json>(members.values()[i], r.values()[i]));
        }
        lemma_same_tokens(a, b);
        lemma_equal_walks(Json::Object(r), Json::Object(*members));
    }
    r
}

proof fn lemma_same_tokens(a: Seq<(String, Json)>, b: Seq<(String, Json)>)
    requires
        a.len() == b.len(),
        forall|i: int| 0 <= i < a.len() ==> (#[trigger] a[i]).0@ == b[i].0@ && tokens(a[i].1) == tokens(b[i].1),
    ensures
        entries_tokens(a) == entries_tokens(b),
    decreases a.len(),
{
    if a.len() > 0 {
        let p = a.drop_last();
        let q = b.drop_last();
        assert forall|i: int| 0 <= i < p.len() implies (#[trigger] p[i]).0@ == q[i].0@ && tokens(p[i].1) == tokens(
            q[i].1,
        ) by {
            assert(p[i] == a[i] && q[i] == b[i]);
        }
        lemma_same_tokens(p, q);
        assert(a[a.len() - 1].0@ == b[a.len() - 1].0@);
    }
}

impl Response {
    /// Whether the result and the metadata have the numbers in the texts that they
    /// are printed as, and are not nested too deeply.
    pub open spec fn kept(self) -> bool {
        &&& faithful(tokens(self.result))
        &&& nested_within(self.result, MAX_MEMBER_NESTING as nat)
        &&& faithful(tokens(Json::Object(self.metadata)))
        &&& nested_within(Json::Object(self.metadata), MAX_MEMBER_NESTING as nat)
    }

    /// The header of a frame with this response.
    pub fn to_header(&self) -> (r: Json)
        ensures
            r@ == response_header(self@),
            tokens(r) == response_walk(*self),
    {
        proof {
            lemma_response_names();
        }
        let error = Json::string_or_null(&self.error);
        let mut members: StringMap<Json> = StringMap::new();
        add_last(&mut members, "error", error);
        add_last(&mut members, "id", Json::Text(self.id.clone()));
        add_last(&mut members, "metadata", Json::Object(copy_members(&self.metadata)));
        add_last(&mut members, "ok", Json::Bool(self.ok));
        add_last(&mut members, "result", self.result.clone());
        let r = Json::Object(members);
        assert(tokens(error) =~= seq![optional_text_token(opt_view(self.error))]);
        assert(r@->Object_0 =~= response_header(self@)->Object_0);
        assert(tokens(r) =~= response_walk(*self));
        r
    }

    /// The response that a header is. Where the header is read back, so are the
    /// result and the metadata.
    pub fn from_header(header: &Json) -> (r: Result<Response, ProtocolError>)
        ensures
            match r {
                Ok(response) => response_in(header@) == Ok::<ResponseView, Seq<char>>(response@) && ordered(
                    response.result,
                ) && ordered(Json::Object(response.metadata)) && (readable(header@, MAX_NESTING as nat)
                    ==> readable_response(response@) && response.kept()),
                Err(e) => response_in(header@) is Err && e@ == ProtocolProblem::Json(response_in(header@)->Err_0),
            },
    {
        if !has_shape(header, 5) {
            return Err(ProtocolError::Json("invalid header".to_owned()));
        }
        let id = match get_text(header, 0, "id") {
            Ok(s) => s,
            Err(e) => {
                return Err(e);
            },
        };
        let ok = match get_field(header, 1, "ok") {
            None => {
                return Err(ProtocolError::Json(about_field("missing field `", "ok")));
            },
            Some(v) => match v.as_bool() {
                Some(b) => b,
                None => {
                    return Err(ProtocolError::Json(about_field("invalid field `", "ok")));
                },
            },
        };
        let result = Json::or_null(get_field(header, 2, "result"));
        let error = match get_field(header, 3, "error") {
            None => None,
            Some(Json::Null) => None,
            Some(Json::Text(s)) => Some(s.clone()),
            Some(_) => {
                return Err(ProtocolError::Json(about_field("invalid field `", "error")));
            },
        };
        let metadata = match get_field(header, 4, "metadata") {
            None => no_members(),
            Some(v) => match v.clone() {
                Json::Object(members) => members,
                _ => {
                    return Err(ProtocolError::Json(about_field("invalid field `", "metadata")));
                },
            },
        };
        let r = Response { id, ok, result, error, metadata };
        proof {
            if readable(header@, MAX_NESTING as nat) {
                law_a_result_is_read_back_with_its_header(r@, header@);
                law_what_a_value_says_decides_whether_it_is_read_back(r.result, MAX_MEMBER_NESTING as nat);
                law_what_a_value_says_decides_whether_it_is_read_back(
                    Json::Object(r.metadata),
                    MAX_MEMBER_NESTING as nat,
                );
            }
        }
        Ok(r)
    }

    /// The bytes of the header of a frame with this response. What is read in them
    /// is this response.
    pub fn encode(&self) -> (r: Result<Vec<u8>, ProtocolError>)
        ensures
            match r {
                Ok(bytes) => printable(tokens(self.result)) && printable(tokens(Json::Object(self.metadata)))
                    && bytes@ == encode_utf8(compact_text(reread(response_walk(*self)))),
                Err(e) => !(printable(tokens(self.result)) && printable(tokens(Json::Object(self.metadata)))) && e@
                    == ProtocolProblem::Json("invalid number"@),
            },
            r is Err ==> forall|n: nat|
                !(#[trigger] readable(self.result@, n) && readable(JsonView::Object(members_view(self.metadata)), n)),
            r matches Ok(bytes) ==> carries_response(bytes@, self@),
    {
        let header = self.to_header();
        proof {
            let head = seq![
                Token::Object(5),
                Token::Key("error"@),
                optional_text_token(opt_view(self.error)),
                Token::Key("id"@),
                Token::Text(self.id@),
                Token::Key("metadata"@),
            ];
            let metadata = tokens(Json::Object(self.metadata));
            let middle = seq![Token::Key("ok"@), Token::Bool(self.ok), Token::Key("result"@)];
            lemma_join_walks(head, metadata);
            lemma_join_walks(head + metadata, middle);
            lemma_join_walks(head + metadata + middle, tokens(self.result));
            assert(printable(head) && printable(middle));
            law_a_result_is_read_back_with_its_header(self@, header@);
            assert forall|n: nat| #[trigger]
                readable(self.result@, n) && readable(JsonView::Object(members_view(self.metadata)), n)
                    implies readable(header@, n + 1) by {
                let members = header@->Object_0;
                assert forall|k: Seq<char>| members.contains_key(k) implies readable(#[trigger] members[k], n) by {}
            }
            law_the_walk_tells_what_a_value_says(header);
            law_a_written_response_header_is_read(self@);
        }
        match header.to_bytes() {
            Some(bytes) => Ok(bytes),
            None => Err(ProtocolError::Json("invalid number".to_owned())),
        }
    }

    /// The response that stands in the bytes of a header. Written again, it is read
    /// back as it was.
    pub fn decode(bytes: &Vec<u8>) -> (r: Result<Response, ProtocolError>)
        ensures
            match r {
                Ok(response) => decoded_response(bytes@) == Ok::<ResponseView, Seq<char>>(response@)
                    && readable_response(response@) && response.kept(),
                Err(e) => decoded_response(bytes@) is Err && e@ == ProtocolProblem::Json(
                    decoded_response(bytes@)->Err_0,
                ),
            },
    {
        match Json::from_bytes(bytes) {
            Ok(header) => {
                proof {
                    law_the_walk_tells_what_a_value_says(header);
                }
                Response::from_header(&header)
            },
            Err(text) => Err(ProtocolError::Json(text)),
        }
    }
}

/// The header of a request has its identifier, its method, its parameters and whether
/// it only reads, under the names `id`, `method`, `params` and `readonly`.
pub proof fn law_a_request_header_names_its_members(request: RequestView)
    ensures
        request_header(request).member("id"@) == Some(JsonView::Text(request.id)),
        request_header(request).member("method"@) == Some(JsonView::Text(request.method)),
        request_header(request).member("params"@) == Some(request.params),
        request_header(request).member("readonly"@) == Some(JsonView::Bool(request.readonly)),
{
    lemma_request_names();
}

/// The header of a response has its identifier, whether all went well, the result, the
/// error or `null`, and the metadata, under the names `id`, `ok`, `result`, `error`
/// and `metadata`.
pub proof fn law_a_response_header_names_its_members(response: ResponseView)
    ensures
        response_header(response).member("id"@) == Some(JsonView::Text(response.id)),
        response_header(response).member("ok"@) == Some(JsonView::Bool(response.ok)),
        response_header(response).member("result"@) == Some(response.result),
        response_header(response).member("error"@) == match response.error {
            Some(s) => Some(JsonView::Text(s)),
            None => Some(JsonView::Null),
        },
        response_header(response).member("metadata"@) == Some(JsonView::Object(response.metadata)),
{
    lemma_response_names();
}

/// A request is read from the members of its header. The identifier and the method
/// have to be there as texts; parameters that are not given are `null`, and a request
/// that does not say that it only reads may change something.
pub proof fn law_a_request_is_read_from_its_members(header: JsonView)
    requires
        header is Object,
    ensures
        match request_in(header) {
            Ok(request) => {
                &&& header.member("id"@) == Some(JsonView::Text(request.id))
                &&& header.member("method"@) == Some(JsonView::Text(request.method))
                &&& request.params == match header.member("params"@) {
                    Some(v) => v,
                    None => JsonView::Null,
                }
                &&& match header.member("readonly"@) {
                    Some(v) => v == JsonView::Bool(request.readonly),
                    None => !request.readonly,
                }
            },
            Err(_) => !(header.member("id"@) matches Some(JsonView::Text(_))) || !(header.member("method"@) matches Some(
                JsonView::Text(_),
            )) || (header.member("readonly"@) matches Some(v) && !(v is Bool)),
        },
        header.member("id"@) is None ==> request_in(header) == Err::<RequestView, Seq<char>>("missing field `id`"@),
{
    reveal_strlit("missing field `");
    reveal_strlit("id");
    reveal_strlit("`");
    reveal_strlit("missing field `id`");
    assert(missing_field("id"@) =~= "missing field `id`"@);
}

/// A response is read from the members of its header. The identifier and whether all
/// went well have to be there; a result that is not given is `null`, and there need be
/// no error and no metadata.
pub proof fn law_a_response_is_read_from_its_members(header: JsonView)
    requires
        header is Object,
    ensures
        match response_in(header) {
            Ok(response) => {
                &&& header.member("id"@) == Some(JsonView::Text(response.id))
                &&& header.member("ok"@) == Some(JsonView::Bool(response.ok))
                &&& response.result == match header.member("result"@) {
                    Some(v) => v,
                    None => JsonView::Null,
                }
                &&& match header.member("error"@) {
                    Some(JsonView::Text(s)) => response.error == Some(s),
                    Some(JsonView::Null) => response.error is None,
                    Some(_) => false,
                    None => response.error is None,
                }
                &&& match header.member("metadata"@) {
                    Some(JsonView::Object(m)) => response.metadata == m,
                    Some(_) => false,
                    None => response.metadata == Map::<Seq<char>, JsonView>::empty(),
                }
            },
            Err(_) => !(header.member("id"@) matches Some(JsonView::Text(_))) || !(header.member("ok"@) matches Some(
                JsonView::Bool(_),
            )) || (header.member("error"@) matches Some(v) && !(v is Text) && !(v is Null)) || (header.member(
                "metadata"@,
            ) matches Some(v) && !(v is Object)),
        },
{
}

/// A header may also be an array, in which the members stand in the order of a request:
/// the identifier, the method, the parameters and whether it only reads, the last two of
/// which may be left out. What is neither an object nor such an array is no header.
pub proof fn law_a_request_is_read_from_an_array_by_place(header: JsonView)
    ensures
        match header {
            JsonView::Array(items) => match request_in(header) {
                Ok(request) => {
                    &&& 2 <= items.len() <= 4
                    &&& items[0] == JsonView::Text(request.id)
                    &&& items[1] == JsonView::Text(request.method)
                    &&& request.params == if items.len() > 2 {
                        items[2]
                    } else {
                        JsonView::Null
                    }
                    &&& if items.len() > 3 {
                        items[3] == JsonView::Bool(request.readonly)
                    } else {
                        !request.readonly
                    }
                },
                Err(_) => items.len() < 2 || items.len() > 4 || !(items[0] is Text) || !(items[1] is Text) || (
                items.len() > 3 && !(items[3] is Bool)),
            },
            JsonView::Object(_) => true,
            _ => request_in(header) is Err,
        },
{
}

/// A header of a response may also be an array, in which the members stand in the order
/// of a response: the identifier, whether all went well, the result, the error and the
/// metadata, the last three of which may be left out.
pub proof fn law_a_response_is_read_from_an_array_by_place(header: JsonView)
    ensures
        match header {
            JsonView::Array(items) => match response_in(header) {
                Ok(response) => {
                    &&& 2 <= items.len() <= 5
                    &&& items[0] == JsonView::Text(response.id)
                    &&& items[1] == JsonView::Bool(response.ok)
                    &&& response.result == if items.len() > 2 {
                        items[2]
                    } else {
                        JsonView::Null
                    }
                    &&& if items.len() > 3 {
                        items[3] == match response.error {
                            Some(s) => JsonView::Text(s),
                            None => JsonView::Null,
                        }
                    } else {
                        response.error is None
                    }
                    &&& if items.len() > 4 {
                        items[4] == JsonView::Object(response.metadata)
                    } else {
                        response.metadata == Map::<Seq<char>, JsonView>::empty()
                    }
                },
                Err(_) => items.len() < 2 || items.len() > 5 || !(items[0] is Text) || !(items[1] is Bool) || (
                items.len() > 3 && !(items[3] is Text) && !(items[3] is Null)) || (items.len() > 4 && !(
                items[4] is Object)),
            },
            JsonView::Object(_) => true,
            _ => response_in(header) is Err,
        },
{
}

/// A header that is refused is refused with the first thing that is wrong with it, which
/// names the member: that it is missing, or that it is something else than it should be.
pub proof fn law_refused_headers_name_what_is_wrong(header: JsonView)
    requires
        header is Object,
    ensures
        ({
            let id = header.member("id"@);
            let method = header.member("method"@);
            let ok = header.member("ok"@);
            let request = request_in(header);
            let response = response_in(header);
            &&& id is None ==> request == Err::<RequestView, Seq<char>>("missing field `"@ + "id"@ + "`"@)
            &&& (id matches Some(v) && !(v is Text)) ==> request == Err::<RequestView, Seq<char>>(
                "invalid field `"@ + "id"@ + "`"@,
            )
            &&& (id matches Some(JsonView::Text(_))) && method is None ==> request == Err::<RequestView, Seq<char>>(
                "missing field `"@ + "method"@ + "`"@,
            )
            &&& (id matches Some(JsonView::Text(_))) && (method matches Some(v) && !(v is Text)) ==> request == Err::<
                RequestView,
                Seq<char>,
            >("invalid field `"@ + "method"@ + "`"@)
            &&& (id matches Some(JsonView::Text(_))) && (method matches Some(JsonView::Text(_))) && (header.member(
                "readonly"@,
            ) matches Some(v) && !(v is Bool)) ==> request == Err::<RequestView, Seq<char>>(
                "invalid field `"@ + "readonly"@ + "`"@,
            )
            &&& id is None ==> response == Err::<ResponseView, Seq<char>>("missing field `"@ + "id"@ + "`"@)
            &&& (id matches Some(JsonView::Text(_))) && ok is None ==> response == Err::<ResponseView, Seq<char>>(
                "missing field `"@ + "ok"@ + "`"@,
            )
            &&& (id matches Some(JsonView::Text(_))) && (ok matches Some(v) && !(v is Bool)) ==> response == Err::<
                ResponseView,
                Seq<char>,
            >("invalid field `"@ + "ok"@ + "`"@)
            &&& (id matches Some(JsonView::Text(_))) && (ok matches Some(JsonView::Bool(_))) && (header.member(
                "error"@,
            ) matches Some(v) && !(v is Text) && !(v is Null)) ==> response == Err::<ResponseView, Seq<char>>(
                "invalid field `"@ + "error"@ + "`"@,
            )
            &&& (id matches Some(JsonView::Text(_))) && (ok matches Some(JsonView::Bool(_))) && (header.member(
                "error"@,
            ) is None) && (header.member("metadata"@) matches Some(v) && !(v is Object)) ==> response == Err::<
                ResponseView,
                Seq<char>,
            >("invalid field `"@ + "metadata"@ + "`"@)
        }),
{
}

/// What is neither an object nor an array, and an array that is too long, is no header.
pub proof fn law_other_values_are_no_headers(header: JsonView)
    ensures
        !(header is Object) && !(header is Array) ==> request_in(header) == Err::<RequestView, Seq<char>>(
            "invalid header"@,
        ) && response_in(header) == Err::<ResponseView, Seq<char>>("invalid header"@),
        (header matches JsonView::Array(items) && items.len() > 4) ==> request_in(header) == Err::<
            RequestView,
            Seq<char>,
        >("invalid header"@),
        (header matches JsonView::Array(items) && items.len() > 5) ==> response_in(header) == Err::<
            ResponseView,
            Seq<char>,
        >("invalid header"@),
{
}

} // verus!
