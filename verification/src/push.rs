//! Local files brought to a host: only those that the host has not.

use vstd::prelude::*;
use crate::digest::{hex_sha256, hex_text, law_hex_text_injective, sha256};
use crate::json::{no_members, or_null, put, Json, JsonView};
use crate::json_value::readable;
use crate::local_files::{manifest_key, manifest_name};
use crate::requests::SyncPushRequest;
use crate::text::{
    decimal, decimal_text, law_decimal_reads_back, law_only_the_run_at_the_end_is_trimmed, law_pieces_of_parts, pieces,
    same_text, trim_end_char, trimmed_end,
};
use crate::tools::{changing, changing_call, taken, Answer, CallView, RemoteCall, ReplyView, ToolError};

verus! {

/// The path of a file below a directory of a host.
pub open spec fn remote_path_of(directory: Seq<char>, key: Seq<char>) -> Seq<char> {
    trimmed_end(directory, '/') + "/"@ + key
}

/// The path of a file below a directory of a host.
pub fn remote_path_text(directory: &str, key: &str) -> (r: String)
    ensures
        r@ == remote_path_of(directory@, key@),
{
    let mut out = trim_end_char(directory, '/');
    out.append("/");
    out.append(key);
    out
}

/// The digest that a host's list of files gives for a file, if it gives one.
pub open spec fn listed_digest(manifest: JsonView, key: Seq<char>) -> Option<Seq<char>> {
    let entries = or_null(manifest.member("entries"@));
    or_null(or_null(entries.member(key)).member("sha256"@)).text()
}

/// Whether the host has a file with these contents already.
pub open spec fn unchanged(manifest: JsonView, key: Seq<char>, content: Seq<u8>) -> bool {
    listed_digest(manifest, key) == Some(hex_text(sha256(content)))
}

/// The call that brings a file to a host, with the digest that it must have there.
pub open spec fn write_call(host: Seq<char>, directory: Seq<char>, key: Seq<char>, content: Seq<u8>) -> CallView {
    changing(
        host,
        "write_atomic"@,
        JsonView::Object(
            map![
                "path"@ => JsonView::Text(remote_path_of(directory, key)),
                "sha256"@ => JsonView::Text(hex_text(sha256(content))),
            ],
        ),
        content,
    )
}

/// The call that brings a file to a host arrives as it was sent.
pub proof fn law_a_file_arrives(host: Seq<char>, directory: Seq<char>, key: Seq<char>, content: Seq<u8>)
    ensures
        write_call(host, directory, key, content).arrives(),
{
    let members = write_call(host, directory, key, content).params->Object_0;
    assert forall|k: Seq<char>| members.contains_key(k) implies readable(#[trigger] members[k], 124) by {}
}

/// How many files were sent and how many were not, and how many bytes were sent.
#[derive(Clone, Copy, Debug, PartialEq, Eq)]
pub struct PushTally {
    pub changed: usize,
    pub unchanged: usize,
    pub bytes: usize,
}

/// What a tally says.
pub struct TallyView {
    pub changed: nat,
    pub unchanged: nat,
    pub bytes: nat,
}

impl View for PushTally {
    type V = TallyView;

    open spec fn view(&self) -> TallyView {
        TallyView { changed: self.changed as nat, unchanged: self.unchanged as nat, bytes: self.bytes as nat }
    }
}

impl TallyView {
    /// The tally after one more file.
    pub open spec fn after(self, manifest: JsonView, key: Seq<char>, content: Seq<u8>) -> TallyView {
        if unchanged(manifest, key, content) {
            TallyView { unchanged: self.unchanged + 1, ..self }
        } else {
            TallyView { changed: self.changed + 1, bytes: self.bytes + content.len(), ..self }
        }
    }
}

impl PushTally {
    /// Whether one more file of this length can be counted.
    pub open spec fn has_room(self, length: nat) -> bool {
        self.changed < usize::MAX && self.unchanged < usize::MAX && self.bytes + length <= usize::MAX
    }

    /// Whether one more file of this length can be counted.
    pub fn room_for(&self, length: usize) -> (r: bool)
        ensures
            r == self.has_room(length as nat),
    {
        self.changed < usize::MAX && self.unchanged < usize::MAX && self.bytes <= usize::MAX - length
    }
}

/// Which answer a push waits for.
#[derive(Clone, Copy, Debug, PartialEq, Eq, Structural)]
pub enum PushStage {
    /// The host's list of files.
    Manifest,
    /// None: the next file can be taken.
    Ready,
    /// That a file is written.
    Write,
    /// None: the push is over.
    Over,
}

/// What becomes of a file.
#[derive(Debug, PartialEq)]
pub enum PushStep {
    /// Make this call.
    Send(RemoteCall),
    /// The host has it already.
    Unchanged,
    /// It is not taken.
    Refused,
}

/// Local files on their way to a host.
#[derive(Debug, PartialEq)]
pub struct SyncPush {
    pub host: String,
    pub remote_path: String,
    pub stage: PushStage,
    /// The host's list of files.
    pub manifest: Json,
    pub tally: PushTally,
}

/// What happens to a push.
pub enum PushEvent {
    /// A call is answered, well or not.
    Answered(bool),
    /// A file is offered, which the host has or has not.
    Offered { missing: bool },
}

/// The stage after an event.
pub open spec fn push_stage_after(stage: PushStage, event: PushEvent) -> PushStage {
    match (stage, event) {
        (PushStage::Manifest, PushEvent::Answered(good)) => if good {
            PushStage::Ready
        } else {
            PushStage::Over
        },
        (PushStage::Write, PushEvent::Answered(good)) => if good {
            PushStage::Ready
        } else {
            PushStage::Over
        },
        (PushStage::Ready, PushEvent::Offered { missing }) => if missing {
            PushStage::Write
        } else {
            PushStage::Ready
        },
        _ => stage,
    }
}

/// Whether a file is sent on an event.
pub open spec fn push_sends(stage: PushStage, event: PushEvent) -> bool {
    stage == PushStage::Ready && event == (PushEvent::Offered { missing: true })
}

/// How many files are sent while these events happen.
pub open spec fn files_sent(stage: PushStage, events: Seq<PushEvent>) -> nat
    decreases events.len(),
{
    if events.len() == 0 {
        0
    } else {
        (if push_sends(stage, events[0]) {
            1nat
        } else {
            0nat
        }) + files_sent(push_stage_after(stage, events[0]), events.drop_first())
    }
}

/// A push whose last call failed is over: no file is sent after it, whatever is
/// offered, and nothing is shown as finished.
pub proof fn law_no_file_is_sent_after_a_failure(stage: PushStage, later: Seq<PushEvent>)
    requires
        stage == PushStage::Manifest || stage == PushStage::Write,
    ensures
        push_stage_after(stage, PushEvent::Answered(false)) == PushStage::Over,
        files_sent(push_stage_after(stage, PushEvent::Answered(false)), later) == 0,
{
    lemma_over_sends_nothing(later);
}

proof fn lemma_over_sends_nothing(events: Seq<PushEvent>)
    ensures
        files_sent(PushStage::Over, events) == 0,
    decreases events.len(),
{
    if events.len() > 0 {
        lemma_over_sends_nothing(events.drop_first());
    }
}

impl SyncPush {
    /// A push that has asked for the host's list of files.
    pub fn new(request: &SyncPushRequest) -> (r: Self)
        ensures
            r.host@ == request.host@,
            r.remote_path@ == request.remote_path@,
            r.stage == PushStage::Manifest,
            r.tally@ == (TallyView { changed: 0, unchanged: 0, bytes: 0 }),
    {
        SyncPush {
            host: request.host.clone(),
            remote_path: request.remote_path.clone(),
            stage: PushStage::Manifest,
            manifest: Json::Null,
            tally: PushTally { changed: 0, unchanged: 0, bytes: 0 },
        }
    }

    /// Takes what came of the last call. One that failed ends the push. Where none
    /// is waited for, nothing happens.
    pub fn answer(&mut self, answer: Answer) -> (r: Result<(), ToolError>)
        ensures
            final(self).host == old(self).host,
            final(self).remote_path == old(self).remote_path,
            final(self).tally == old(self).tally,
            final(self).stage == push_stage_after(old(self).stage, PushEvent::Answered(answer@ is Good)),
            match (old(self).stage, answer@) {
                (PushStage::Manifest, ReplyView::Good { result, .. }) => r is Ok && final(self).manifest@ == result,
                (PushStage::Manifest, ReplyView::Bad(problem)) => (r matches Err(e) && e@ == problem) && final(self).manifest == old(self).manifest,
                (PushStage::Write, ReplyView::Bad(problem)) => (r matches Err(e) && e@ == problem) && final(self).manifest == old(self).manifest,
                _ => r is Ok && final(self).manifest == old(self).manifest,
            },
    {
        match self.stage {
            PushStage::Ready => Ok(()),
            PushStage::Over => Ok(()),
            PushStage::Manifest => match taken(answer) {
                Ok(frame) => {
                    self.manifest = frame.header.result;
                    self.stage = PushStage::Ready;
                    Ok(())
                },
                Err(e) => {
                    self.stage = PushStage::Over;
                    Err(e)
                },
            },
            PushStage::Write => match taken(answer) {
                Ok(_) => {
                    self.stage = PushStage::Ready;
                    Ok(())
                },
                Err(e) => {
                    self.stage = PushStage::Over;
                    Err(e)
                },
            },
        }
    }

    fn is_unchanged(&self, key: &str, hash: &str) -> (r: bool)
        ensures
            r == (listed_digest(self.manifest@, key@) == Some(hash@)),
    {
        let digest = match self.manifest.get("entries") {
            Some(entries) => match entries.get(key) {
                Some(entry) => match entry.get("sha256") {
                    Some(v) => v.as_str(),
                    None => None,
                },
                None => None,
            },
            None => None,
        };
        match digest {
            Some(listed) => same_text(listed.as_str(), hash),
            None => false,
        }
    }

    /// Takes the next file, if no answer is waited for and the push is not over.
    /// Where the host does not have it with these contents, the call that brings
    /// it there is returned.
    pub fn offer(&mut self, relative: &str, content: Vec<u8>) -> (r: PushStep)
        requires
            old(self).tally.has_room(content@.len()),
        ensures
            final(self).host == old(self).host,
            final(self).remote_path == old(self).remote_path,
            final(self).manifest == old(self).manifest,
            ({
                let key = manifest_key(relative@);
                let known = unchanged(old(self).manifest@, key, content@);
                &&& final(self).stage == push_stage_after(old(self).stage, PushEvent::Offered { missing: !known })
                &&& match r {
                    PushStep::Send(call) => push_sends(old(self).stage, PushEvent::Offered { missing: !known }) && call@
                        == write_call(old(self).host@, old(self).remote_path@, key, content@),
                    PushStep::Unchanged => old(self).stage == PushStage::Ready && known,
                    PushStep::Refused => old(self).stage != PushStage::Ready,
                }
                &&& final(self).tally@ == if old(self).stage == PushStage::Ready {
                    old(self).tally@.after(old(self).manifest@, key, content@)
                } else {
                    old(self).tally@
                }
            }),
    {
        match self.stage {
            PushStage::Ready => {},
            _ => {
                return PushStep::Refused;
            },
        }
        let key = manifest_name(relative);
        let hash = hex_sha256(&content);
        if self.is_unchanged(key.as_str(), hash.as_str()) {
            self.tally = PushTally { unchanged: self.tally.unchanged + 1, ..self.tally };
            return PushStep::Unchanged;
        }
        self.tally = PushTally {
            changed: self.tally.changed + 1,
            unchanged: self.tally.unchanged,
            bytes: self.tally.bytes + content.len(),
        };
        self.stage = PushStage::Write;
        let path = remote_path_text(self.remote_path.as_str(), key.as_str());
        let mut members = no_members();
        put(&mut members, "path", Json::Text(path));
        put(&mut members, "sha256", Json::Text(hash));
        PushStep::Send(changing_call(self.host.as_str(), "write_atomic", Json::Object(members), content))
    }

    /// What is shown when all files have been taken: nothing, as long as an answer
    /// is waited for or where a call failed.
    pub fn summary(&self) -> (r: Option<String>)
        ensures
            match r {
                Some(text) => self.stage == PushStage::Ready && text@ == push_summary(self.tally@),
                None => self.stage != PushStage::Ready,
            },
    {
        match self.stage {
            PushStage::Ready => {},
            _ => {
                return None;
            },
        }
        let mut out = "changed_files=".to_owned();
        out.append(decimal_text(self.tally.changed as u64).as_str());
        out.append("\nunchanged_files=");
        out.append(decimal_text(self.tally.unchanged as u64).as_str());
        out.append("\ntransferred_bytes=");
        out.append(decimal_text(self.tally.bytes as u64).as_str());
        out.append("\n(Complete: sync push finished; no remote files deleted.)");
        Some(out)
    }
}

/// What is shown at the end.
pub open spec fn push_summary(tally: TallyView) -> Seq<char> {
    "changed_files="@ + decimal(tally.changed) + "\nunchanged_files="@ + decimal(tally.unchanged)
        + "\ntransferred_bytes="@ + decimal(tally.bytes)
        + "\n(Complete: sync push finished; no remote files deleted.)"@
}

/// A local file: the name under which a host knows it, and its contents.
pub struct PushedFile {
    pub key: Seq<char>,
    pub content: Seq<u8>,
}

/// The files, in their order, that a host does not have.
pub open spec fn missing(manifest: JsonView, files: Seq<PushedFile>) -> Seq<PushedFile> {
    files.filter(|f: PushedFile| !unchanged(manifest, f.key, f.content))
}

/// The tally after a row of files.
pub open spec fn tally_after(manifest: JsonView, files: Seq<PushedFile>) -> TallyView
    decreases files.len(),
{
    if files.len() == 0 {
        TallyView { changed: 0, unchanged: 0, bytes: 0 }
    } else {
        tally_after(manifest, files.drop_last()).after(manifest, files.last().key, files.last().content)
    }
}

/// The number of bytes in all of these files.
pub open spec fn total_length(files: Seq<PushedFile>) -> nat
    decreases files.len(),
{
    if files.len() == 0 {
        0
    } else {
        total_length(files.drop_last()) + files.last().content.len()
    }
}

/// What is counted at the end: as many files as the host did not have, with all
/// their bytes, and all the others.
pub proof fn law_tally_counts_the_missing_files(manifest: JsonView, files: Seq<PushedFile>)
    ensures
        tally_after(manifest, files).changed == missing(manifest, files).len(),
        tally_after(manifest, files).unchanged + missing(manifest, files).len() == files.len(),
        tally_after(manifest, files).bytes == total_length(missing(manifest, files)),
    decreases files.len(),
{
    let wanted = |f: PushedFile| !unchanged(manifest, f.key, f.content);
    reveal(Seq::filter);
    if files.len() > 0 {
        let rest = files.drop_last();
        law_tally_counts_the_missing_files(manifest, rest);
        if wanted(files.last()) {
            let all = missing(manifest, files);
            assert(all =~= missing(manifest, rest).push(files.last()));
            assert(all.drop_last() =~= missing(manifest, rest));
        }
    }
}

/// A host that lists every file with the digest of its contents is sent nothing.
pub proof fn law_a_complete_host_is_sent_nothing(manifest: JsonView, files: Seq<PushedFile>)
    requires
        forall|i: int|
            0 <= i < files.len() ==> listed_digest(manifest, (#[trigger] files[i]).key) == Some(
                hex_text(sha256(files[i].content)),
            ),
    ensures
        missing(manifest, files).len() == 0,
        tally_after(manifest, files).bytes == 0,
    decreases files.len(),
{
    reveal(Seq::filter);
    if files.len() > 0 {
        let rest = files.drop_last();
        assert forall|i: int| 0 <= i < rest.len() implies listed_digest(manifest, (#[trigger] rest[i]).key) == Some(
            hex_text(sha256(rest[i].content)),
        ) by {
            assert(rest[i] == files[i]);
        }
        law_a_complete_host_is_sent_nothing(manifest, rest);
        assert(listed_digest(manifest, files[files.len() - 1].key) == Some(
            hex_text(sha256(files[files.len() - 1].content)),
        ));
    }
}

/// Where the host lists the digest of some contents for a file, that file is
/// left alone exactly if the local contents have the same digest.
pub proof fn law_only_equal_digests_are_left_alone(
    manifest: JsonView,
    key: Seq<char>,
    there: Seq<u8>,
    here: Seq<u8>,
)
    requires
        listed_digest(manifest, key) == Some(hex_text(sha256(there))),
    ensures
        unchanged(manifest, key, here) <==> sha256(here) == sha256(there),
{
    if unchanged(manifest, key, here) {
        law_hex_text_injective(sha256(here), sha256(there));
    }
}

/// The path of a file on a host is its directory, one slash and its name, with any
/// number of slashes at the end of the directory, none included.
pub proof fn law_a_file_lies_one_slash_below_its_directory(directory: Seq<char>, slashes: nat, key: Seq<char>)
    requires
        directory.len() == 0 || directory.last() != '/',
    ensures
        remote_path_of(directory, key) == directory + seq!['/'] + key,
        remote_path_of(directory + Seq::new(slashes, |i: int| '/'), key) == directory + seq!['/'] + key,
{
    reveal_strlit("/");
    assert("/"@ =~= seq!['/']);
    law_only_the_run_at_the_end_is_trimmed(directory, '/', slashes);
    law_only_the_run_at_the_end_is_trimmed(directory, '/', 0);
    assert(directory + Seq::new(0, |i: int| '/') =~= directory);
}

proof fn lemma_push_names()
    ensures
        "path"@ != "sha256"@,
{
    reveal_strlit("path");
    reveal_strlit("sha256");
    assert("path"@.len() == 4 && "sha256"@.len() == 6);
}

/// A file is brought to a host by a call that changes something there, names the
/// file's path and the digest of its contents, and brings all the contents along.
pub proof fn law_a_file_is_sent_with_its_path_and_digest(
    host: Seq<char>,
    directory: Seq<char>,
    slashes: nat,
    key: Seq<char>,
    content: Seq<u8>,
)
    requires
        directory.len() == 0 || directory.last() != '/',
    ensures
        ({
            let call = write_call(host, directory + Seq::new(slashes, |i: int| '/'), key, content);
            &&& call.host == host
            &&& call.method == "write_atomic"@
            &&& call.params.member("path"@) == Some(JsonView::Text(directory + seq!['/'] + key))
            &&& call.params.member("sha256"@) == Some(JsonView::Text(hex_text(sha256(content))))
            &&& call.payload == content
            &&& !call.readonly
        }),
{
    lemma_push_names();
    law_a_file_lies_one_slash_below_its_directory(directory, slashes, key);
}

/// A file is left alone exactly if the host's list has an entry for it, under
/// `entries`, that gives the digest of these contents as `sha256`.
pub proof fn law_a_file_is_left_alone_exactly_if_its_digest_is_listed(
    manifest: JsonView,
    key: Seq<char>,
    content: Seq<u8>,
)
    ensures
        unchanged(manifest, key, content) <==> match manifest.member("entries"@) {
            Some(entries) => match entries.member(key) {
                Some(entry) => entry.member("sha256"@) == Some(JsonView::Text(hex_text(sha256(content)))),
                None => false,
            },
            None => false,
        },
{
}

/// A push goes on as long as its calls are answered well. With the host's list, or
/// once a file is written, the next file is taken. A file that the host has not is
/// sent, and then its answer is waited for; one that it has costs nothing.
pub proof fn law_a_push_goes_on_while_all_is_well(stage: PushStage, missing: bool)
    ensures
        push_stage_after(PushStage::Manifest, PushEvent::Answered(true)) == PushStage::Ready,
        push_stage_after(PushStage::Write, PushEvent::Answered(true)) == PushStage::Ready,
        push_stage_after(PushStage::Ready, PushEvent::Offered { missing }) == if missing {
            PushStage::Write
        } else {
            PushStage::Ready
        },
        push_sends(stage, PushEvent::Offered { missing }) <==> stage == PushStage::Ready && missing,
{
}

/// The events of a push over files of which it is known whether the host has them,
/// where every call is answered well.
pub open spec fn smooth_events(missing: Seq<bool>) -> Seq<PushEvent>
    decreases missing.len(),
{
    if missing.len() == 0 {
        Seq::empty()
    } else {
        (if missing[0] {
            seq![PushEvent::Offered { missing: true }, PushEvent::Answered(true)]
        } else {
            seq![PushEvent::Offered { missing: false }]
        }) + smooth_events(missing.drop_first())
    }
}

/// Where every call is answered well, as many files are sent as the host has not,
/// and the push is then ready for its summary.
pub proof fn law_every_missing_file_is_sent(missing: Seq<bool>)
    ensures
        files_sent(PushStage::Ready, smooth_events(missing)) == missing.filter(|b: bool| b).len(),
        push_stage_after_all(PushStage::Ready, smooth_events(missing)) == PushStage::Ready,
    decreases missing.len(),
{
    let wanted = |b: bool| b;
    reveal(Seq::filter);
    let events = smooth_events(missing);
    if missing.len() == 0 {
        assert(missing.filter(wanted).len() == 0);
    } else {
        let rest = missing.drop_first();
        let more = smooth_events(rest);
        law_every_missing_file_is_sent(rest);
        assert(missing =~= seq![missing[0]] + rest);
        Seq::filter_distributes_over_add(seq![missing[0]], rest, wanted);
        let one = seq![missing[0]];
        assert(one.drop_last() =~= Seq::<bool>::empty());
        assert(one.last() == missing[0]);
        assert(one.drop_last().filter(wanted).len() == 0);
        assert(one.filter(wanted).len() == if missing[0] { 1nat } else { 0nat });
        assert(missing.filter(wanted) == one.filter(wanted) + rest.filter(wanted));
        if missing[0] {
            assert(events.drop_first() =~= seq![PushEvent::Answered(true)] + more);
            assert(events.drop_first().drop_first() =~= more);
            assert(events[0] == (PushEvent::Offered { missing: true }));
            assert(events.drop_first()[0] == PushEvent::Answered(true));
            assert(files_sent(PushStage::Write, events.drop_first()) == files_sent(PushStage::Ready, more));
            assert(push_stage_after_all(PushStage::Write, events.drop_first()) == push_stage_after_all(
                PushStage::Ready,
                more,
            ));
        } else {
            assert(events[0] == (PushEvent::Offered { missing: false }));
            assert(events.drop_first() =~= more);
        }
    }
}

/// The stage after a row of events.
pub open spec fn push_stage_after_all(stage: PushStage, events: Seq<PushEvent>) -> PushStage
    decreases events.len(),
{
    if events.len() == 0 {
        stage
    } else {
        push_stage_after_all(push_stage_after(stage, events[0]), events.drop_first())
    }
}

/// What is shown at the end of a push names, line by line, how many files were sent,
/// how many were not, and how many bytes were sent.
pub proof fn law_a_push_shows_its_counts(tally: TallyView)
    ensures
        pieces(push_summary(tally), '\n') == seq![
            "changed_files="@ + decimal(tally.changed),
            "unchanged_files="@ + decimal(tally.unchanged),
            "transferred_bytes="@ + decimal(tally.bytes),
            "(Complete: sync push finished; no remote files deleted.)"@,
        ],
{
    reveal_strlit("changed_files=");
    reveal_strlit("\nunchanged_files=");
    reveal_strlit("unchanged_files=");
    reveal_strlit("\ntransferred_bytes=");
    reveal_strlit("transferred_bytes=");
    reveal_strlit("\n(Complete: sync push finished; no remote files deleted.)");
    reveal_strlit("(Complete: sync push finished; no remote files deleted.)");
    law_decimal_reads_back(tally.changed);
    law_decimal_reads_back(tally.unchanged);
    law_decimal_reads_back(tally.bytes);
    let feed = seq!['\n'];
    let a = "changed_files="@ + decimal(tally.changed);
    let b = "unchanged_files="@ + decimal(tally.unchanged);
    let c = "transferred_bytes="@ + decimal(tally.bytes);
    let d = "(Complete: sync push finished; no remote files deleted.)"@;
    assert(push_summary(tally) =~= a + feed + (b + feed + (c + feed + d)));
    law_pieces_of_parts(a, b + feed + (c + feed + d), '\n');
    law_pieces_of_parts(b, c + feed + d, '\n');
    law_pieces_of_parts(c, d, '\n');
    law_pieces_of_parts(d, Seq::empty(), '\n');
    assert(pieces(push_summary(tally), '\n') =~= seq![a, b, c, d]);
}

/// A file that is sent counts as one changed file with all its bytes, and one that is left
/// alone as one unchanged file with none.
pub proof fn law_each_file_counts_once(tally: TallyView, manifest: JsonView, key: Seq<char>, content: Seq<u8>)
    ensures
        ({
            let after = tally.after(manifest, key, content);
            if unchanged(manifest, key, content) {
                after.changed == tally.changed && after.unchanged == tally.unchanged + 1 && after.bytes == tally.bytes
            } else {
                after.changed == tally.changed + 1 && after.unchanged == tally.unchanged && after.bytes == tally.bytes
                    + content.len()
            }
        }),
{
}

} // verus!
