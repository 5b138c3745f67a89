//! A file of one host brought to another, piece by piece.

use vstd::prelude::*;
use sha2::Sha256;
use crate::digest::{
    absorb, absorbed, finish, hex_encode, hex_text, law_hex_text_is_lower_hexadecimal, new_hasher, sha256,
};
use crate::json::{no_members, or_null, put, Json, JsonView};
use crate::json_value::readable;
use crate::requests::TransferRequest;
use crate::text::{decimal, decimal_text, law_decimal_reads_back, law_pieces_of_parts, pieces};
use crate::tools::{
    changing, changing_call, reading, reading_call, taken, Answer, CallView, RemoteCall, ReplyView, ToolError,
    ToolProblem,
};

verus! {

/// The largest piece in bytes: 8 MiB.
pub const CHUNK_BYTES: u64 = 8_388_608;

/// Which answer a transfer waits for.
#[derive(Clone, Copy, Debug, PartialEq, Eq, Structural)]
pub enum TransferStage {
    /// How large the file is.
    Stat,
    /// The next piece.
    Read,
    /// That the piece is written.
    Write,
    /// That the file is complete.
    Commit,
    /// None: the transfer is over.
    Over,
}

/// A file on its way from one host to another.
pub struct Transfer {
    pub request: TransferRequest,
    pub stage: TransferStage,
    /// How many bytes the source host says that the file has.
    pub size: u64,
    /// How many bytes have been passed on.
    pub offset: u64,
    /// The hasher that has taken these bytes in.
    pub hasher: Sha256,
}

/// What a transfer says.
pub struct TransferView {
    pub request: TransferRequest,
    pub stage: TransferStage,
    pub size: u64,
    pub offset: u64,
    /// The bytes that have been passed on.
    pub passed: Seq<u8>,
}

impl View for Transfer {
    type V = TransferView;

    open spec fn view(&self) -> TransferView {
        TransferView {
            request: self.request,
            stage: self.stage,
            size: self.size,
            offset: self.offset,
            passed: absorbed(self.hasher),
        }
    }
}

/// A transfer that has asked how large the file is.
pub open spec fn fresh_transfer(request: TransferRequest) -> TransferView {
    TransferView { request, stage: TransferStage::Stat, size: 0, offset: 0, passed: Seq::empty() }
}

/// What follows an answer.
#[derive(Debug, PartialEq)]
pub enum TransferStep {
    /// Make this call.
    Call(RemoteCall),
    /// The file is there: show this.
    Finished(String),
    /// Nothing: the transfer was over before.
    Nothing,
}

/// What a step says.
pub enum StepView {
    Call(CallView),
    Finished(Seq<char>),
    Nothing,
}

impl View for TransferStep {
    type V = StepView;

    open spec fn view(&self) -> StepView {
        match self {
            TransferStep::Call(call) => StepView::Call(call@),
            TransferStep::Finished(s) => StepView::Finished(s@),
            TransferStep::Nothing => StepView::Nothing,
        }
    }
}

/// The size that a host gives for a file.
pub open spec fn advertised_size(stat: JsonView) -> Option<u64> {
    or_null(stat.member("size"@)).unsigned()
}

/// The call that reads the piece of a file at an offset.
pub open spec fn read_call(host: Seq<char>, path: Seq<char>, offset: u64) -> CallView {
    reading(
        host,
        "read"@,
        JsonView::Object(
            map![
                "path"@ => JsonView::Text(path),
                "byte_offset"@ => JsonView::Unsigned(offset),
                "byte_limit"@ => JsonView::Unsigned(CHUNK_BYTES),
            ],
        ),
    )
}

/// The call that writes a piece of a file at an offset.
pub open spec fn chunk_call(host: Seq<char>, path: Seq<char>, offset: u64, piece: Seq<u8>) -> CallView {
    changing(
        host,
        "write_chunk"@,
        JsonView::Object(map!["path"@ => JsonView::Text(path), "offset"@ => JsonView::Unsigned(offset)]),
        piece,
    )
}

/// The call that completes a file, if it has this digest.
pub open spec fn commit_call(host: Seq<char>, path: Seq<char>, digest: Seq<char>) -> CallView {
    changing(
        host,
        "commit_chunks"@,
        JsonView::Object(map!["path"@ => JsonView::Text(path), "sha256"@ => JsonView::Text(digest)]),
        Seq::empty(),
    )
}

/// What is shown at the end.
pub open spec fn transfer_summary(size: u64, digest: Seq<char>) -> Seq<char> {
    "transferred_bytes="@ + decimal(size as nat) + "\nsha256="@ + digest
        + "\n(Complete: host-to-host transfer verified.)"@
}

impl TransferView {
    /// The digest of the bytes that have been passed on.
    pub open spec fn digest(self) -> Seq<char> {
        hex_text(sha256(self.passed))
    }

    /// The same transfer at another stage.
    pub open spec fn at(self, stage: TransferStage) -> TransferView {
        TransferView { stage, ..self }
    }

    /// What is asked next: the next piece, as long as one is left, and then that
    /// the file is completed.
    pub open spec fn asks(self) -> (TransferView, StepView) {
        if self.offset < self.size {
            (
                self.at(TransferStage::Read),
                StepView::Call(read_call(self.request.source_host@, self.request.source_path@, self.offset)),
            )
        } else {
            (
                self.at(TransferStage::Commit),
                StepView::Call(
                    commit_call(self.request.destination_host@, self.request.destination_path@, self.digest()),
                ),
            )
        }
    }

    /// What follows an answer: the transfer after it, and what is to be done or
    /// why it failed. An answer that says that a call failed, or that there is
    /// none, ends the transfer.
    pub open spec fn after(self, reply: ReplyView) -> (TransferView, Result<StepView, ToolProblem>) {
        let over = self.at(TransferStage::Over);
        match (self.stage, reply) {
            (TransferStage::Over, _) => (self, Ok(StepView::Nothing)),
            (_, ReplyView::Bad(problem)) => (over, Err(problem)),
            (TransferStage::Stat, ReplyView::Good { result, .. }) => match advertised_size(result) {
                None => (over, Err(ToolProblem::SizeUnavailable)),
                Some(size) => {
                    let next = (TransferView { size, ..self }).asks();
                    (next.0, Ok(next.1))
                },
            },
            (TransferStage::Read, ReplyView::Good { payload, .. }) => if payload.len() == 0 {
                (over, Err(ToolProblem::SourceEnded))
            } else {
                (
                    TransferView {
                        stage: TransferStage::Write,
                        offset: (self.offset + payload.len()) as u64,
                        passed: self.passed + payload,
                        ..self
                    },
                    Ok(
                        StepView::Call(
                            chunk_call(
                                self.request.destination_host@,
                                self.request.destination_path@,
                                self.offset,
                                payload,
                            ),
                        ),
                    ),
                )
            },
            (TransferStage::Write, ReplyView::Good { .. }) => {
                let next = self.asks();
                (next.0, Ok(next.1))
            },
            (TransferStage::Commit, ReplyView::Good { .. }) => (
                over,
                Ok(StepView::Finished(transfer_summary(self.size, self.digest()))),
            ),
        }
    }
}

impl Transfer {
    /// A transfer that has asked how large the file is.
    pub fn new(request: TransferRequest) -> (r: Self)
        ensures
            r@ == fresh_transfer(request),
    {
        Transfer { request, stage: TransferStage::Stat, size: 0, offset: 0, hasher: new_hasher() }
    }

    /// Whether the bytes that come with an answer can be counted, if it is a piece.
    pub fn room_for(&self, answer: &Answer) -> (r: bool)
        ensures
            r == (self.stage == TransferStage::Read ==> self.offset + answer@.length() <= u64::MAX),
    {
        match (self.stage, answer) {
            (TransferStage::Read, Answer::Given(frame)) => !frame.header.ok || self.offset <= u64::MAX
                - frame.payload.len() as u64,
            _ => true,
        }
    }

    fn digest(&self) -> (r: String)
        ensures
            r@ == self@.digest(),
    {
        let digest = finish(&self.hasher);
        hex_encode(&digest)
    }

    fn ask(&mut self) -> (r: TransferStep)
        ensures
            (final(self)@, r@) == old(self)@.asks(),
    {
        let mut members = no_members();
        if self.offset < self.size {
            put(&mut members, "path", Json::string(self.request.source_path.as_str()));
            put(&mut members, "byte_offset", Json::Unsigned(self.offset));
            put(&mut members, "byte_limit", Json::Unsigned(CHUNK_BYTES));
            self.stage = TransferStage::Read;
            TransferStep::Call(reading_call(self.request.source_host.as_str(), "read", Json::Object(members)))
        } else {
            put(&mut members, "path", Json::string(self.request.destination_path.as_str()));
            put(&mut members, "sha256", Json::Text(self.digest()));
            let payload: Vec<u8> = Vec::new();
            assert(payload@ =~= Seq::<u8>::empty());
            self.stage = TransferStage::Commit;
            TransferStep::Call(
                changing_call(
                    self.request.destination_host.as_str(),
                    "commit_chunks",
                    Json::Object(members),
                    payload,
                ),
            )
        }
    }

    /// Takes what came of the last call and says what follows.
    pub fn answer(&mut self, answer: Answer) -> (r: Result<TransferStep, ToolError>)
        requires
            old(self).stage == TransferStage::Read ==> old(self).offset + answer@.length() <= u64::MAX,
        ensures
            match r {
                Ok(step) => old(self)@.after(answer@) == (
                    final(self)@,
                    Ok::<StepView, ToolProblem>(step@),
                ),
                Err(e) => old(self)@.after(answer@) == (final(self)@, Err::<StepView, ToolProblem>(e@)),
            },
    {
        match self.stage {
            TransferStage::Over => {
                return Ok(TransferStep::Nothing);
            },
            _ => {},
        }
        let frame = match taken(answer) {
            Ok(frame) => frame,
            Err(e) => {
                self.stage = TransferStage::Over;
                return Err(e);
            },
        };
        match self.stage {
            TransferStage::Stat => {
                let size = match frame.header.result.get("size") {
                    Some(v) => v.as_u64(),
                    None => None,
                };
                match size {
                    None => {
                        self.stage = TransferStage::Over;
                        Err(ToolError::SizeUnavailable)
                    },
                    Some(size) => {
                        self.size = size;
                        Ok(self.ask())
                    },
                }
            },
            TransferStage::Read => {
                let piece = frame.payload;
                if piece.len() == 0 {
                    self.stage = TransferStage::Over;
                    return Err(ToolError::SourceEnded);
                }
                absorb(&mut self.hasher, &piece);
                let mut members = no_members();
                put(&mut members, "path", Json::string(self.request.destination_path.as_str()));
                put(&mut members, "offset", Json::Unsigned(self.offset));
                self.offset = self.offset + piece.len() as u64;
                self.stage = TransferStage::Write;
                Ok(
                    TransferStep::Call(
                        changing_call(
                            self.request.destination_host.as_str(),
                            "write_chunk",
                            Json::Object(members),
                            piece,
                        ),
                    ),
                )
            },
            TransferStage::Write => Ok(self.ask()),
            TransferStage::Commit => {
                let mut summary = "transferred_bytes=".to_owned();
                summary.append(decimal_text(self.size).as_str());
                summary.append("\nsha256=");
                summary.append(self.digest().as_str());
                summary.append("\n(Complete: host-to-host transfer verified.)");
                self.stage = TransferStage::Over;
                Ok(TransferStep::Finished(summary))
            },
            TransferStage::Over => Ok(TransferStep::Nothing),
        }
    }
}

/// The calls that a transfer makes while it is given these answers.
pub open spec fn calls_made(t: TransferView, replies: Seq<ReplyView>) -> Seq<CallView>
    decreases replies.len(),
{
    if replies.len() == 0 {
        Seq::empty()
    } else {
        let (next, outcome) = t.after(replies[0]);
        (match outcome {
            Ok(StepView::Call(call)) => seq![call],
            _ => Seq::empty(),
        }) + calls_made(next, replies.drop_first())
    }
}

/// A transfer that is over makes no more calls, whatever answers still come.
pub proof fn law_a_transfer_that_is_over_stays_over(t: TransferView, replies: Seq<ReplyView>)
    requires
        t.stage == TransferStage::Over,
    ensures
        calls_made(t, replies) == Seq::<CallView>::empty(),
    decreases replies.len(),
{
    if replies.len() > 0 {
        law_a_transfer_that_is_over_stays_over(t, replies.drop_first());
        assert(calls_made(t, replies) =~= Seq::<CallView>::empty());
    }
}

/// A call that failed or was refused ends the transfer with that failure, and no
/// call follows it; so does a size that is not given, and a piece that is empty.
/// No file is completed after any of these.
pub proof fn law_nothing_is_sent_after_a_failure(t: TransferView, reply: ReplyView, later: Seq<ReplyView>)
    requires
        t.stage != TransferStage::Over,
    ensures
        reply matches ReplyView::Bad(problem) ==> t.after(reply).1 == Err::<StepView, ToolProblem>(problem),
        t.after(reply).1 is Err ==> calls_made(t.after(reply).0, later) == Seq::<CallView>::empty(),
{
    if t.after(reply).1 is Err {
        law_a_transfer_that_is_over_stays_over(t.after(reply).0, later);
    }
}

/// Every call that a transfer makes arrives as it was sent.
pub proof fn law_the_calls_of_a_transfer_arrive(t: TransferView, reply: ReplyView)
    ensures
        t.after(reply).1 matches Ok(StepView::Call(call)) ==> call.arrives(),
{
    if let Ok(StepView::Call(call)) = t.after(reply).1 {
        let members = call.params->Object_0;
        assert forall|k: Seq<char>| members.contains_key(k) implies readable(#[trigger] members[k], 124) by {}
    }
}

/// A transfer is reported as verified only when the call that completes the file
/// was answered well. That call named the digest that is reported, and was made
/// when all bytes were passed on that the source host spoke of.
pub proof fn law_only_a_completed_transfer_is_reported(t: TransferView, reply: ReplyView, pieces: Seq<Seq<u8>>)
    requires
        on_course(t, pieces),
        t.after(reply).1 matches Ok(StepView::Finished(_)),
    ensures
        t.stage == TransferStage::Commit,
        reply is Good,
        t.after(reply).1 == Ok::<StepView, ToolProblem>(
            StepView::Finished(transfer_summary(t.size, hex_text(sha256(destination_file(pieces))))),
        ),
        assembled(pieces).len() >= t.size,
{
    lemma_destination(pieces);
}

/// The file is completed once, when all bytes were passed on that the source host
/// spoke of and the last of them was written well, and with the digest of the file
/// that the pieces make.
pub proof fn law_a_file_is_completed_with_its_digest(t: TransferView, reply: ReplyView, pieces: Seq<Seq<u8>>)
    requires
        on_course(t, pieces),
        t.stage != TransferStage::Commit,
        t.after(reply).0.stage == TransferStage::Commit,
    ensures
        reply is Good,
        pieces_after(t, reply, pieces) == pieces,
        assembled(pieces).len() >= t.after(reply).0.size,
        t.after(reply).1 == Ok::<StepView, ToolProblem>(
            StepView::Call(
                commit_call(
                    t.request.destination_host@,
                    t.request.destination_path@,
                    hex_text(sha256(destination_file(pieces))),
                ),
            ),
        ),
{
    lemma_destination(pieces);
}

/// All pieces, one after the other.
pub open spec fn assembled(pieces: Seq<Seq<u8>>) -> Seq<u8>
    decreases pieces.len(),
{
    if pieces.len() == 0 {
        Seq::empty()
    } else {
        assembled(pieces.drop_last()) + pieces.last()
    }
}

/// A file after a piece was written at an offset.
pub open spec fn written_at(file: Seq<u8>, offset: int, piece: Seq<u8>) -> Seq<u8> {
    file.take(offset) + piece
}

/// A file after all pieces were written, each of them at the offset that is
/// given for it: the number of bytes in the pieces before it.
pub open spec fn destination_file(pieces: Seq<Seq<u8>>) -> Seq<u8>
    decreases pieces.len(),
{
    if pieces.len() == 0 {
        Seq::empty()
    } else {
        written_at(
            destination_file(pieces.drop_last()),
            assembled(pieces.drop_last()).len() as int,
            pieces.last(),
        )
    }
}

/// Whether these are the pieces of a transfer that has come this far: none of
/// them is empty, and each was read while bytes were left.
pub open spec fn orderly_pieces(size: u64, pieces: Seq<Seq<u8>>) -> bool
    decreases pieces.len(),
{
    pieces.len() > 0 ==> pieces.last().len() > 0 && assembled(pieces.drop_last()).len() < size && orderly_pieces(
        size,
        pieces.drop_last(),
    )
}

/// What a transfer keeps while pieces pass: its offset is the number of bytes
/// that were passed on, which are the pieces one after the other. A piece is
/// asked for only while bytes are left, and the file is completed only when none
/// is.
pub open spec fn on_course(t: TransferView, pieces: Seq<Seq<u8>>) -> bool {
    &&& t.passed == assembled(pieces)
    &&& t.offset == assembled(pieces).len()
    &&& t.stage == TransferStage::Stat ==> pieces.len() == 0
    &&& t.stage != TransferStage::Stat ==> orderly_pieces(t.size, pieces)
    &&& t.stage == TransferStage::Read ==> t.offset < t.size
    &&& t.stage == TransferStage::Commit ==> t.offset >= t.size
}

/// The pieces after an answer.
pub open spec fn pieces_after(t: TransferView, reply: ReplyView, pieces: Seq<Seq<u8>>) -> Seq<Seq<u8>> {
    match (t.stage, reply) {
        (TransferStage::Read, ReplyView::Good { payload, .. }) => if payload.len() > 0 {
            pieces.push(payload)
        } else {
            pieces
        },
        _ => pieces,
    }
}

/// A transfer begins on its course.
pub proof fn law_a_transfer_begins_on_course(request: TransferRequest)
    ensures
        on_course(fresh_transfer(request), Seq::empty()),
{
    assert(assembled(Seq::empty()) =~= Seq::<u8>::empty());
}

/// Every answer keeps a transfer on its course.
pub proof fn law_every_answer_keeps_the_course(t: TransferView, reply: ReplyView, pieces: Seq<Seq<u8>>)
    requires
        on_course(t, pieces),
        t.stage == TransferStage::Read ==> t.offset + reply.length() <= u64::MAX,
    ensures
        on_course(t.after(reply).0, pieces_after(t, reply, pieces)),
{
    let all = pieces_after(t, reply, pieces);
    if all != pieces {
        assert(all.drop_last() =~= pieces);
    }
}

/// The pieces are written without a gap and without an overlap: each at the
/// offset at which the one before it ended. So the file on its new host is all
/// pieces one after the other, and these are the bytes whose digest completes it.
pub proof fn law_destination_is_what_was_passed_on(t: TransferView, pieces: Seq<Seq<u8>>)
    requires
        on_course(t, pieces),
    ensures
        destination_file(pieces) == assembled(pieces),
        t.digest() == hex_text(sha256(destination_file(pieces))),
{
    lemma_destination(pieces);
}

proof fn lemma_destination(pieces: Seq<Seq<u8>>)
    ensures
        destination_file(pieces) == assembled(pieces),
    decreases pieces.len(),
{
    if pieces.len() > 0 {
        let before = pieces.drop_last();
        lemma_destination(before);
        assert(assembled(before).take(assembled(before).len() as int) =~= assembled(before));
    }
}

/// A transfer comes to its end: it takes no more pieces than the file has bytes.
/// At its end all bytes are passed on that the source host spoke of, and without
/// the last piece they were not.
pub proof fn law_a_transfer_ends_with_the_whole_file(t: TransferView, pieces: Seq<Seq<u8>>)
    requires
        on_course(t, pieces),
    ensures
        t.stage != TransferStage::Stat ==> pieces.len() <= t.size,
        t.stage == TransferStage::Commit ==> assembled(pieces).len() >= t.size,
        t.stage != TransferStage::Stat && pieces.len() > 0 ==> assembled(pieces.drop_last()).len() < t.size,
{
    if t.stage != TransferStage::Stat && pieces.len() > 0 {
        lemma_pieces_have_bytes(t.size, pieces.drop_last());
    }
}

proof fn lemma_pieces_have_bytes(size: u64, pieces: Seq<Seq<u8>>)
    requires
        orderly_pieces(size, pieces),
    ensures
        pieces.len() <= assembled(pieces).len(),
    decreases pieces.len(),
{
    if pieces.len() > 0 {
        lemma_pieces_have_bytes(size, pieces.drop_last());
    }
}

/// A file after bytes were written into it at a place. What lies beyond its end and
/// was never written is zero.
pub open spec fn overwritten(file: Seq<u8>, at: int, piece: Seq<u8>) -> Seq<u8> {
    Seq::new(
        (if file.len() < at + piece.len() {
            at + piece.len()
        } else {
            file.len() as int
        }) as nat,
        |i: int|
            if at <= i < at + piece.len() {
                piece[i - at]
            } else if i < file.len() {
                file[i]
            } else {
                0u8
            },
    )
}

/// The file that a host has after it did what these calls ask for: each call of
/// `write_chunk` puts what it brings along at the offset that it names.
pub open spec fn written_by(calls: Seq<CallView>) -> Seq<u8>
    decreases calls.len(),
{
    if calls.len() == 0 {
        Seq::empty()
    } else {
        let before = written_by(calls.drop_last());
        let call = calls.last();
        if call.method == "write_chunk"@ {
            match call.params.member("offset"@) {
                Some(JsonView::Unsigned(at)) => overwritten(before, at as int, call.payload),
                _ => before,
            }
        } else {
            before
        }
    }
}

/// The bytes that the source gave: all that came with a good answer to a call of
/// `read`, in order. The first answer is that to `asked`, and each other that to the
/// call before it.
pub open spec fn bytes_read(asked: CallView, calls: Seq<CallView>, replies: Seq<ReplyView>) -> Seq<u8>
    decreases replies.len(),
{
    if replies.len() == 0 {
        Seq::empty()
    } else {
        let here = match replies[0] {
            ReplyView::Good { payload, .. } => if asked.method == "read"@ {
                payload
            } else {
                Seq::empty()
            },
            ReplyView::Bad(_) => Seq::empty(),
        };
        here + if calls.len() == 0 {
            Seq::empty()
        } else {
            bytes_read(calls[0], calls.drop_first(), replies.drop_first())
        }
    }
}

/// The number of bytes that come with all of these answers.
pub open spec fn reply_bytes(replies: Seq<ReplyView>) -> nat
    decreases replies.len(),
{
    if replies.len() == 0 {
        0
    } else {
        replies[0].length() + reply_bytes(replies.drop_first())
    }
}

proof fn lemma_call_names()
    ensures
        "path"@ != "offset"@,
        "path"@ != "byte_offset"@,
        "path"@ != "byte_limit"@,
        "path"@ != "sha256"@,
        "byte_offset"@ != "byte_limit"@,
        "read"@ != "write_chunk"@,
        "read"@ != "commit_chunks"@,
        "read"@ != "stat"@,
        "write_chunk"@ != "commit_chunks"@,
        "write_chunk"@ != "stat"@,
{
    reveal_strlit("path");
    reveal_strlit("offset");
    reveal_strlit("byte_offset");
    reveal_strlit("byte_limit");
    reveal_strlit("sha256");
    reveal_strlit("read");
    reveal_strlit("write_chunk");
    reveal_strlit("commit_chunks");
    reveal_strlit("stat");
    assert("path"@.len() == 4 && "offset"@.len() == 6 && "byte_offset"@.len() == 11 && "byte_limit"@.len() == 10);
    assert("sha256"@.len() == 6 && "read"@.len() == 4 && "write_chunk"@.len() == 11 && "commit_chunks"@.len() == 13);
    assert("stat"@.len() == 4 && "read"@[0] == 'r' && "stat"@[0] == 's');
}

proof fn lemma_step(t: TransferView, reply: ReplyView, pieces: Seq<Seq<u8>>, prior: Seq<CallView>)
    requires
        on_course(t, pieces),
        written_by(prior) == assembled(pieces),
        t.offset + reply.length() <= u64::MAX,
    ensures
        on_course(t.after(reply).0, pieces_after(t, reply, pieces)),
        t.after(reply).0.offset <= t.offset + reply.length(),
        t.after(reply).0.request == t.request,
        t.stage != TransferStage::Stat ==> t.after(reply).0.size == t.size,
        match t.after(reply).1 {
            Ok(StepView::Call(call)) => {
                &&& written_by(prior.push(call)) == assembled(pieces_after(t, reply, pieces))
                &&& t.after(reply).0.stage != TransferStage::Stat
                &&& t.after(reply).0.stage != TransferStage::Over
                &&& t.after(reply).0.stage == TransferStage::Read <==> call.method == "read"@
                &&& t.after(reply).0.stage == TransferStage::Commit <==> call.method == "commit_chunks"@
            },
            _ => t.after(reply).0.stage == TransferStage::Over,
        },
{
    lemma_call_names();
    law_every_answer_keeps_the_course(t, reply, pieces);
    if let Ok(StepView::Call(call)) = t.after(reply).1 {
        assert(prior.push(call).drop_last() =~= prior);
        assert(prior.push(call).last() == call);
        if call.method == "write_chunk"@ {
            let all = pieces_after(t, reply, pieces);
            assert(all.drop_last() =~= pieces);
            assert(call.params.member("offset"@) == Some(JsonView::Unsigned(t.offset)));
            assert(overwritten(assembled(pieces), t.offset as int, call.payload) =~= assembled(pieces) + call.payload);
        }
    }
}

proof fn lemma_replay(
    t: TransferView,
    pieces: Seq<Seq<u8>>,
    prior: Seq<CallView>,
    asked: CallView,
    replies: Seq<ReplyView>,
)
    requires
        on_course(t, pieces),
        written_by(prior) == assembled(pieces),
        t.offset + reply_bytes(replies) <= u64::MAX,
        t.stage != TransferStage::Over,
        t.stage == TransferStage::Read <==> asked.method == "read"@,
    ensures
        written_by(prior + calls_made(t, replies)) == assembled(pieces) + bytes_read(
            asked,
            calls_made(t, replies),
            replies,
        ),
    decreases replies.len(),
{
    let calls = calls_made(t, replies);
    if replies.len() == 0 {
        assert(prior + calls =~= prior);
        assert(assembled(pieces) + bytes_read(asked, calls, replies) =~= assembled(pieces));
    } else {
        let rest = replies.drop_first();
        let next = t.after(replies[0]).0;
        let all = pieces_after(t, replies[0], pieces);
        lemma_step(t, replies[0], pieces, prior);
        if all != pieces {
            assert(all.drop_last() =~= pieces);
        }
        match t.after(replies[0]).1 {
            Ok(StepView::Call(call)) => {
                lemma_replay(next, all, prior.push(call), call, rest);
                let more = calls_made(next, rest);
                assert(calls =~= seq![call] + more);
                assert(prior + calls =~= prior.push(call) + more);
                assert(calls.drop_first() =~= more);
                assert(written_by(prior + calls) =~= assembled(pieces) + bytes_read(asked, calls, replies));
            },
            _ => {
                law_a_transfer_that_is_over_stays_over(next, rest);
                assert(calls =~= Seq::<CallView>::empty());
                assert(prior + calls =~= prior);
                assert(assembled(pieces) + bytes_read(asked, calls, replies) =~= assembled(pieces));
            },
        }
    }
}

/// What the calls of a transfer write is what its source gave: whatever the answers
/// are, doing what the calls of `write_chunk` ask for makes a file that holds the
/// bytes of all good answers to the calls of `read`, in their order and nothing else.
pub proof fn law_what_is_written_is_what_was_read(request: TransferRequest, asked: CallView, replies: Seq<ReplyView>)
    requires
        asked.method == "stat"@,
        reply_bytes(replies) <= u64::MAX,
    ensures
        written_by(calls_made(fresh_transfer(request), replies)) == bytes_read(
            asked,
            calls_made(fresh_transfer(request), replies),
            replies,
        ),
{
    lemma_call_names();
    let t = fresh_transfer(request);
    let none = Seq::<Seq<u8>>::empty();
    law_a_transfer_begins_on_course(request);
    assert(assembled(none) =~= Seq::<u8>::empty());
    lemma_replay(t, none, Seq::empty(), asked, replies);
    let calls = calls_made(t, replies);
    assert(Seq::<CallView>::empty() + calls =~= calls);
    assert(assembled(none) + bytes_read(asked, calls, replies) =~= bytes_read(asked, calls, replies));
}

/// Whether a call is one that a transfer makes when these bytes are written so far
/// and this was the last answer.
spec fn call_fits(request: TransferRequest, call: CallView, reply: ReplyView, so_far: Seq<u8>) -> bool {
    let path = call.params.member("path"@);
    ||| {
        &&& call.method == "read"@
        &&& call.host == request.source_host@
        &&& path == Some(JsonView::Text(request.source_path@))
        &&& call.params.member("byte_offset"@) == Some(JsonView::Unsigned(so_far.len() as u64))
        &&& call.params.member("byte_limit"@) == Some(JsonView::Unsigned(8_388_608))
        &&& call.payload.len() == 0
        &&& call.readonly
    }
    ||| {
        &&& call.method == "write_chunk"@
        &&& call.host == request.destination_host@
        &&& path == Some(JsonView::Text(request.destination_path@))
        &&& call.params.member("offset"@) == Some(JsonView::Unsigned(so_far.len() as u64))
        &&& reply matches ReplyView::Good { payload, .. } && payload == call.payload
        &&& !call.readonly
    }
    ||| {
        &&& call.method == "commit_chunks"@
        &&& call.host == request.destination_host@
        &&& path == Some(JsonView::Text(request.destination_path@))
        &&& call.params.member("sha256"@) == Some(JsonView::Text(hex_text(sha256(so_far))))
        &&& call.payload.len() == 0
        &&& !call.readonly
    }
}

proof fn lemma_calls_fit(t: TransferView, pieces: Seq<Seq<u8>>, prior: Seq<CallView>, replies: Seq<ReplyView>)
    requires
        on_course(t, pieces),
        written_by(prior) == assembled(pieces),
        t.offset + reply_bytes(replies) <= u64::MAX,
    ensures
        calls_made(t, replies).len() <= replies.len(),
        forall|i: int|
            0 <= i < calls_made(t, replies).len() ==> call_fits(
                t.request,
                #[trigger] calls_made(t, replies)[i],
                replies[i],
                written_by(prior + calls_made(t, replies).take(i)),
            ) && written_by(prior + calls_made(t, replies).take(i)).len() <= u64::MAX,
    decreases replies.len(),
{
    let calls = calls_made(t, replies);
    if replies.len() > 0 {
        let rest = replies.drop_first();
        let next = t.after(replies[0]).0;
        let all = pieces_after(t, replies[0], pieces);
        lemma_call_names();
        lemma_step(t, replies[0], pieces, prior);
        match t.after(replies[0]).1 {
            Ok(StepView::Call(call)) => {
                lemma_calls_fit(next, all, prior.push(call), rest);
                let more = calls_made(next, rest);
                assert(calls =~= seq![call] + more);
                assert forall|i: int| 0 <= i < calls.len() implies call_fits(
                    t.request,
                    #[trigger] calls[i],
                    replies[i],
                    written_by(prior + calls.take(i)),
                ) && written_by(prior + calls.take(i)).len() <= u64::MAX by {
                    if i == 0 {
                        assert(prior + calls.take(0) =~= prior);
                        if call.method != "write_chunk"@ {
                            assert(all == pieces);
                        }
                    } else {
                        assert(calls[i] == more[i - 1] && replies[i] == rest[i - 1]);
                        assert(prior + calls.take(i) =~= prior.push(call) + more.take(i - 1));
                    }
                }
            },
            _ => {
                law_a_transfer_that_is_over_stays_over(next, rest);
                assert(calls =~= Seq::<CallView>::empty());
            },
        }
    }
}

/// Each call of a transfer is one of three. A piece is read from the source at the
/// place up to which the file is written, 8 MiB at most. A piece that was read is
/// written at the place up to which the file is written: the number of bytes in all
/// pieces before it. And the file is completed with the digest of all that is
/// written.
pub proof fn law_each_piece_goes_behind_those_before_it(request: TransferRequest, replies: Seq<ReplyView>, i: int)
    requires
        reply_bytes(replies) <= u64::MAX,
        0 <= i < calls_made(fresh_transfer(request), replies).len(),
    ensures
        i < replies.len(),
        ({
            let calls = calls_made(fresh_transfer(request), replies);
            let call = calls[i];
            let written = written_by(calls.take(i));
            let path = call.params.member("path"@);
            ||| {
                &&& call.method == "read"@
                &&& call.host == request.source_host@
                &&& path == Some(JsonView::Text(request.source_path@))
                &&& call.params.member("byte_offset"@) matches Some(JsonView::Unsigned(at)) && at == written.len()
                &&& call.params.member("byte_limit"@) == Some(JsonView::Unsigned(8_388_608))
                &&& call.payload.len() == 0
                &&& call.readonly
            }
            ||| {
                &&& call.method == "write_chunk"@
                &&& call.host == request.destination_host@
                &&& path == Some(JsonView::Text(request.destination_path@))
                &&& call.params.member("offset"@) matches Some(JsonView::Unsigned(at)) && at == written.len()
                &&& replies[i] matches ReplyView::Good { payload, .. } && payload == call.payload
                &&& !call.readonly
            }
            ||| {
                &&& call.method == "commit_chunks"@
                &&& call.host == request.destination_host@
                &&& path == Some(JsonView::Text(request.destination_path@))
                &&& call.params.member("sha256"@) == Some(JsonView::Text(hex_text(sha256(written))))
                &&& call.payload.len() == 0
                &&& !call.readonly
            }
        }),
{
    let t = fresh_transfer(request);
    let none = Seq::<Seq<u8>>::empty();
    law_a_transfer_begins_on_course(request);
    assert(assembled(none) =~= Seq::<u8>::empty());
    lemma_calls_fit(t, none, Seq::empty(), replies);
    let calls = calls_made(t, replies);
    assert(Seq::<CallView>::empty() + calls.take(i) =~= calls.take(i));
    assert(call_fits(request, calls[i], replies[i], written_by(calls.take(i))));
}

/// Whether an answer to a call is true to a file: where the call asks to read from
/// an offset, what comes with a good answer are the bytes of the file from there on.
pub open spec fn true_to(file: Seq<u8>, call: CallView, reply: ReplyView) -> bool {
    match (call.params.member("byte_offset"@), reply) {
        (Some(JsonView::Unsigned(at)), ReplyView::Good { payload, .. }) => at + payload.len() <= file.len() && payload
            == file.subrange(at as int, at + payload.len()),
        _ => true,
    }
}

proof fn lemma_truth(
    t: TransferView,
    pieces: Seq<Seq<u8>>,
    prior: Seq<CallView>,
    asked: CallView,
    replies: Seq<ReplyView>,
    file: Seq<u8>,
)
    requires
        on_course(t, pieces),
        written_by(prior) == assembled(pieces),
        t.offset + reply_bytes(replies) <= u64::MAX,
        assembled(pieces).is_prefix_of(file),
        t.stage != TransferStage::Stat,
        t.size == file.len(),
        t.stage == TransferStage::Read ==> asked.params.member("byte_offset"@) == Some(JsonView::Unsigned(t.offset)),
        replies.len() > 0 ==> true_to(file, asked, replies[0]),
        forall|i: int|
            0 <= i < calls_made(t, replies).len() && i + 1 < replies.len() ==> true_to(
                file,
                #[trigger] calls_made(t, replies)[i],
                replies[i + 1],
            ),
    ensures
        forall|i: int|
            0 <= i < calls_made(t, replies).len() && (#[trigger] calls_made(t, replies)[i]).method == "commit_chunks"@
                ==> written_by(prior + calls_made(t, replies).take(i)) == file,
    decreases replies.len(),
{
    let calls = calls_made(t, replies);
    if replies.len() > 0 {
        let rest = replies.drop_first();
        let next = t.after(replies[0]).0;
        let all = pieces_after(t, replies[0], pieces);
        lemma_call_names();
        lemma_step(t, replies[0], pieces, prior);
        match t.after(replies[0]).1 {
            Ok(StepView::Call(call)) => {
                let more = calls_made(next, rest);
                assert(calls =~= seq![call] + more);
                if all != pieces {
                    assert(all.drop_last() =~= pieces);
                    let at = t.offset as int;
                    let piece = all.last();
                    assert(piece == file.subrange(at, at + piece.len()));
                    assert(assembled(pieces) =~= file.subrange(0, at));
                    assert(assembled(all) =~= file.subrange(0, at + piece.len()));
                }
                assert(rest.len() > 0 ==> rest[0] == replies[1] && calls[0] == call);
                assert forall|i: int| 0 <= i < more.len() && i + 1 < rest.len() implies true_to(
                    file,
                    #[trigger] more[i],
                    rest[i + 1],
                ) by {
                    assert(more[i] == calls[i + 1] && rest[i + 1] == replies[i + 2]);
                }
                lemma_truth(next, all, prior.push(call), call, rest, file);
                assert forall|i: int|
                    0 <= i < calls.len() && (#[trigger] calls[i]).method == "commit_chunks"@ implies written_by(
                    prior + calls.take(i),
                ) == file by {
                    if i == 0 {
                        assert(prior + calls.take(0) =~= prior);
                        assert(all == pieces);
                        assert(assembled(pieces) =~= file);
                    } else {
                        assert(calls[i] == more[i - 1]);
                        assert(prior + calls.take(i) =~= prior.push(call) + more.take(i - 1));
                    }
                }
            },
            _ => {
                law_a_transfer_that_is_over_stays_over(next, rest);
                assert(calls =~= Seq::<CallView>::empty());
            },
        }
    }
}

/// A file whose source gives its true size and its true bytes is copied: the file is
/// completed only when all of it is written as it is at the source, and with its
/// digest.
pub proof fn law_a_true_source_is_copied(request: TransferRequest, file: Seq<u8>, replies: Seq<ReplyView>, i: int)
    requires
        reply_bytes(replies) <= u64::MAX,
        0 <= i < calls_made(fresh_transfer(request), replies).len(),
        calls_made(fresh_transfer(request), replies)[i].method == "commit_chunks"@,
        replies[0] matches ReplyView::Good { result, .. } ==> (result.member("size"@) matches Some(
            JsonView::Unsigned(n),
        ) ==> n == file.len()),
        forall|k: int|
            0 <= k < calls_made(fresh_transfer(request), replies).len() && k + 1 < replies.len() ==> true_to(
                file,
                #[trigger] calls_made(fresh_transfer(request), replies)[k],
                replies[k + 1],
            ),
    ensures
        written_by(calls_made(fresh_transfer(request), replies).take(i)) == file,
        calls_made(fresh_transfer(request), replies)[i].params.member("sha256"@) == Some(
            JsonView::Text(hex_text(sha256(file))),
        ),
{
    let t = fresh_transfer(request);
    let none = Seq::<Seq<u8>>::empty();
    let prior = Seq::<CallView>::empty();
    let calls = calls_made(t, replies);
    lemma_call_names();
    law_a_transfer_begins_on_course(request);
    assert(assembled(none) =~= Seq::<u8>::empty());
    law_each_piece_goes_behind_those_before_it(request, replies, i);
    lemma_step(t, replies[0], none, prior);
    let rest = replies.drop_first();
    let next = t.after(replies[0]).0;
    match t.after(replies[0]).1 {
        Ok(StepView::Call(call)) => {
            let more = calls_made(next, rest);
            assert(calls =~= seq![call] + more);
            assert(pieces_after(t, replies[0], none) == none);
            assert(next.size == file.len());
            assert(assembled(none) =~= file.subrange(0, 0));
            assert(rest.len() > 0 ==> rest[0] == replies[1] && calls[0] == call);
            assert forall|k: int| 0 <= k < more.len() && k + 1 < rest.len() implies true_to(
                file,
                #[trigger] more[k],
                rest[k + 1],
            ) by {
                assert(more[k] == calls[k + 1] && rest[k + 1] == replies[k + 2]);
            }
            lemma_truth(next, none, prior.push(call), call, rest, file);
            if i == 0 {
                assert(calls.take(0) =~= prior);
                assert(file =~= assembled(none));
            } else {
                assert(calls[i] == more[i - 1]);
                assert(calls.take(i) =~= prior.push(call) + more.take(i - 1));
            }
        },
        _ => {
            law_a_transfer_that_is_over_stays_over(next, rest);
            assert(calls =~= Seq::<CallView>::empty());
        },
    }
}

/// Every good answer leads on. Once the size is known, or a piece is written, the
/// next piece is asked for as long as bytes are missing, and else the file is
/// completed. A piece that was read is written. When the file is complete, its size
/// and its digest are shown. A size that is not given and a piece that is empty end
/// the transfer, and so does every answer that is not good, with what it says.
pub proof fn law_every_good_answer_leads_on(t: TransferView, reply: ReplyView)
    ensures
        match (t.stage, reply) {
            (TransferStage::Over, _) => t.after(reply).1 matches Ok(StepView::Nothing),
            (_, ReplyView::Bad(problem)) => t.after(reply).1 == Err::<StepView, ToolProblem>(problem),
            (TransferStage::Stat, ReplyView::Good { result, .. }) => match result.member("size"@) {
                Some(JsonView::Unsigned(n)) => t.after(reply).0.size == n && (t.after(reply).1 matches Ok(
                    StepView::Call(call),
                ) && call.method == if t.offset < n {
                    "read"@
                } else {
                    "commit_chunks"@
                }),
                _ => t.after(reply).1 == Err::<StepView, ToolProblem>(ToolProblem::SizeUnavailable),
            },
            (TransferStage::Read, ReplyView::Good { payload, .. }) => if payload.len() > 0 {
                t.after(reply).1 matches Ok(StepView::Call(call)) && call.method == "write_chunk"@ && call.payload
                    == payload
            } else {
                t.after(reply).1 == Err::<StepView, ToolProblem>(ToolProblem::SourceEnded)
            },
            (TransferStage::Write, ReplyView::Good { .. }) => t.after(reply).1 matches Ok(StepView::Call(call))
                && call.method == if t.offset < t.size {
                "read"@
            } else {
                "commit_chunks"@
            },
            (TransferStage::Commit, ReplyView::Good { .. }) => t.after(reply).1 matches Ok(StepView::Finished(text))
                && pieces(text, '\n') == seq![
                "transferred_bytes="@ + decimal(t.size as nat),
                "sha256="@ + hex_text(sha256(t.passed)),
                "(Complete: host-to-host transfer verified.)"@,
            ],
        },
{
    if t.stage == TransferStage::Commit && reply is Good {
        let text = transfer_summary(t.size, t.digest());
        reveal_strlit("transferred_bytes=");
        reveal_strlit("\nsha256=");
        reveal_strlit("sha256=");
        reveal_strlit("\n(Complete: host-to-host transfer verified.)");
        reveal_strlit("(Complete: host-to-host transfer verified.)");
        law_decimal_reads_back(t.size as nat);
        let a = "transferred_bytes="@ + decimal(t.size as nat);
        let b = "sha256="@ + t.digest();
        let c = "(Complete: host-to-host transfer verified.)"@;
        assert(text =~= a + seq!['\n'] + (b + seq!['\n'] + c));
        assert forall|i: int| 0 <= i < b.len() implies b[i] != '\n' by {
            if i >= 7 {
                law_hex_text_is_lower_hexadecimal(sha256(t.passed), i - 7);
            }
        }
        law_pieces_of_parts(a, b + seq!['\n'] + c, '\n');
        law_pieces_of_parts(b, c, '\n');
        law_pieces_of_parts(c, Seq::empty(), '\n');
        assert(pieces(text, '\n') =~= seq![a, b, c]);
    }
}

} // verus!
