//! Files of a host brought here.

use vstd::prelude::*;
use crate::deploy::Platform;
use crate::json::{lemma_members_view, members_view, no_members, or_null, put, Json, JsonView};
use crate::json_value::readable;
use crate::paths::{
    ends_in_name, join_on, law_a_joined_path_stays_below_root, law_a_replaced_extension_stays_below_root, leads_out,
    replace_extension, safe_join_on, separates, with_extension,
};
use crate::protocol::MAX_PAYLOAD;
use crate::push::{law_a_file_lies_one_slash_below_its_directory, remote_path_of, remote_path_text};
use crate::requests::SyncPullRequest;
use crate::string_map::{ascending, StringMap};
use crate::text::{decimal, decimal_text, law_decimal_reads_back, law_pieces_of_parts, pieces, views};
use crate::tools::{reading, reading_call, taken, Answer, CallView, RemoteCall, ReplyView, ToolError, ToolProblem};

verus! {

/// What a pull waits for.
#[derive(Clone, Copy, Debug, PartialEq, Eq, Structural)]
pub enum PullStage {
    /// The host's list of files.
    Manifest,
    /// Nothing: the next file can be asked for.
    Ready,
    /// The contents of a file.
    Read,
    /// That a file is stored here.
    Store,
    /// Nothing: the pull is over.
    Over,
}

/// Files of a host on their way here.
#[derive(Debug, PartialEq)]
pub struct SyncPull {
    /// The kind of system that the files go to.
    pub platform: Platform,
    pub host: String,
    pub remote_path: String,
    /// The directory that the files go to.
    pub root: String,
    pub stage: PullStage,
    /// The names of all files.
    pub names: Vec<String>,
    /// How many of them are here.
    pub count: usize,
    /// How many bytes they have together.
    pub bytes: usize,
}

/// One file to be brought here.
#[derive(Debug, PartialEq)]
pub struct PullFile {
    /// Where it goes.
    pub destination: String,
    /// Where it is put until it is complete.
    pub part: String,
    /// The call that reads it.
    pub call: RemoteCall,
}

/// What comes next.
#[derive(Debug, PartialEq)]
pub enum PullStep {
    Fetch(PullFile),
    Finished(String),
    /// Nothing: something else is waited for, or the pull is over.
    Nothing,
}

/// The files that a host lists.
pub open spec fn listed_files(manifest: JsonView) -> Option<Map<Seq<char>, JsonView>> {
    or_null(manifest.member("entries"@)).members()
}

/// The call that reads a file of a host.
pub open spec fn fetch_call(host: Seq<char>, directory: Seq<char>, name: Seq<char>) -> CallView {
    reading(
        host,
        "read"@,
        JsonView::Object(
            map![
                "path"@ => JsonView::Text(remote_path_of(directory, name)),
                "byte_limit"@ => JsonView::Unsigned(MAX_PAYLOAD as u64),
            ],
        ),
    )
}

/// The call that asks for a file arrives as it was sent.
pub proof fn law_a_question_for_a_file_arrives(host: Seq<char>, directory: Seq<char>, name: Seq<char>)
    ensures
        fetch_call(host, directory, name).arrives(),
{
    let members = fetch_call(host, directory, name).params->Object_0;
    assert forall|k: Seq<char>| members.contains_key(k) implies readable(#[trigger] members[k], 124) by {}
}

/// What is shown at the end.
pub open spec fn pull_summary(count: nat, bytes: nat) -> Seq<char> {
    "files="@ + decimal(count) + "\ntransferred_bytes="@ + decimal(bytes) + "\n(Complete: sync pull finished.)"@
}

fn names_of(files: &StringMap<Json>) -> (r: Vec<String>)
    ensures
        ascending(views(r@)),
        forall|name: Seq<char>| #[trigger]
            views(r@).contains(name) <==> members_view(*files).contains_key(name),
{
    let total: usize = files.len();
    let mut names: Vec<String> = Vec::new();
    let mut i: usize = 0;
    while i < total
        invariant
            i <= total == files.entries().len(),
            names@.len() == i,
            forall|k: int| 0 <= k < i ==> (#[trigger] names@[k])@ == files.keys()[k],
        decreases total - i,
    {
        names.push(files.key_at(i).clone());
        i = i + 1;
    }
    proof {
        let keys = files.keys();
        assert(views(names@) =~= keys);
        lemma_members_view(*files);
        assert forall|name: Seq<char>| #[trigger]
            views(names@).contains(name) <==> members_view(*files).contains_key(name) by {
            if keys.contains(name) {
                let k = choose|k: int| 0 <= k < keys.len() && keys[k] == name;
                crate::string_map::lemma_lookup_at(keys, files.values(), k);
            }
        }
    }
    names
}

/// What stands at the place that a pull has come to.
pub enum Upcoming {
    /// A name that stays below the directory.
    File,
    /// A name that leads out of it.
    Unsafe,
    /// The end of the list.
    End,
}

/// What happens to a pull.
pub enum PullEvent {
    /// A call is answered as it should be, or not.
    Answered(bool),
    /// The next file is asked for.
    Stepped(Upcoming),
    /// A file is stored here.
    Stored,
}

/// The stage after an event. What is not waited for changes nothing.
pub open spec fn pull_stage_after(stage: PullStage, event: PullEvent) -> PullStage {
    match (stage, event) {
        (PullStage::Manifest, PullEvent::Answered(good)) => if good {
            PullStage::Ready
        } else {
            PullStage::Over
        },
        (PullStage::Ready, PullEvent::Stepped(upcoming)) => if upcoming is File {
            PullStage::Read
        } else {
            PullStage::Over
        },
        (PullStage::Read, PullEvent::Answered(good)) => if good {
            PullStage::Store
        } else {
            PullStage::Over
        },
        (PullStage::Store, PullEvent::Stored) => PullStage::Ready,
        _ => stage,
    }
}

/// How many files are asked for while these events happen.
pub open spec fn files_asked(stage: PullStage, events: Seq<PullEvent>) -> nat
    decreases events.len(),
{
    if events.len() == 0 {
        0
    } else {
        (if stage == PullStage::Ready && events[0] == PullEvent::Stepped(Upcoming::File) {
            1nat
        } else {
            0nat
        }) + files_asked(pull_stage_after(stage, events[0]), events.drop_first())
    }
}

/// A pull is over after a call that failed, a list that is none or a name that
/// leads out of the directory: no file is asked for after it, whatever happens.
pub proof fn law_no_file_is_asked_for_after_a_failure(stage: PullStage, later: Seq<PullEvent>)
    ensures
        stage == PullStage::Manifest || stage == PullStage::Read ==> files_asked(
            pull_stage_after(stage, PullEvent::Answered(false)),
            later,
        ) == 0,
        stage == PullStage::Ready ==> files_asked(
            pull_stage_after(stage, PullEvent::Stepped(Upcoming::Unsafe)),
            later,
        ) == 0,
{
    lemma_over_asks_nothing(later);
}

proof fn lemma_over_asks_nothing(events: Seq<PullEvent>)
    ensures
        files_asked(PullStage::Over, events) == 0,
    decreases events.len(),
{
    if events.len() > 0 {
        lemma_over_asks_nothing(events.drop_first());
    }
}

impl SyncPull {
    /// A pull that has asked for the host's list of files, all of which go below
    /// `root`.
    pub fn new(platform: Platform, request: &SyncPullRequest, root: String) -> (r: Self)
        ensures
            r.platform == platform,
            r.host@ == request.host@,
            r.remote_path@ == request.remote_path@,
            r.root == root,
            r.stage == PullStage::Manifest,
            r.names@.len() == 0,
            r.count == 0,
            r.bytes == 0,
    {
        SyncPull {
            platform,
            host: request.host.clone(),
            remote_path: request.remote_path.clone(),
            root,
            stage: PullStage::Manifest,
            names: Vec::new(),
            count: 0,
            bytes: 0,
        }
    }

    /// Whether nothing but the stage and the names differs.
    pub open spec fn same_run(self, other: SyncPull) -> bool {
        self == (SyncPull { stage: self.stage, names: self.names, ..other })
    }

    /// Takes what came of the last call: the host's list of files, whose names are
    /// then gone through in ascending order, or the contents of a file, which are
    /// handed back. A call that failed, and a list that is none, end the pull.
    pub fn answer(&mut self, answer: Answer) -> (r: Result<Option<Vec<u8>>, ToolError>)
        ensures
            final(self).same_run(*old(self)),
            match (old(self).stage, answer@) {
                (PullStage::Manifest, ReplyView::Good { result, .. }) => match listed_files(result) {
                    Some(files) => {
                        &&& r matches Ok(None)
                        &&& final(self).stage == pull_stage_after(old(self).stage, PullEvent::Answered(true))
                        &&& ascending(views(final(self).names@))
                        &&& forall|name: Seq<char>| #[trigger]
                            views(final(self).names@).contains(name) <==> files.contains_key(name)
                    },
                    None => (r matches Err(e) && e@ == ToolProblem::InvalidManifest) && final(self).stage
                        == pull_stage_after(old(self).stage, PullEvent::Answered(false)) && final(self).names == old(self).names,
                },
                (PullStage::Read, ReplyView::Good { payload, .. }) => (r matches Ok(Some(bytes)) && bytes@ == payload)
                    && final(self).stage == pull_stage_after(old(self).stage, PullEvent::Answered(true)) && final(self).names == old(self).names,
                (_, ReplyView::Bad(problem)) => {
                    &&& final(self).stage == pull_stage_after(old(self).stage, PullEvent::Answered(false))
                    &&& final(self).names == old(self).names
                    &&& if old(self).stage == PullStage::Manifest || old(self).stage == PullStage::Read {
                        r matches Err(e) && e@ == problem
                    } else {
                        r matches Ok(None)
                    }
                },
                (_, ReplyView::Good { .. }) => (r matches Ok(None)) && *final(self) == *old(self),
            },
    {
        match self.stage {
            PullStage::Manifest => {
                let frame = match taken(answer) {
                    Ok(frame) => frame,
                    Err(e) => {
                        self.stage = PullStage::Over;
                        return Err(e);
                    },
                };
                let entries = match frame.header.result.get("entries") {
                    Some(v) => v.as_object(),
                    None => None,
                };
                match entries {
                    None => {
                        self.stage = PullStage::Over;
                        Err(ToolError::InvalidManifest)
                    },
                    Some(files) => {
                        self.names = names_of(files);
                        self.stage = PullStage::Ready;
                        Ok(None)
                    },
                }
            },
            PullStage::Read => match taken(answer) {
                Ok(frame) => {
                    self.stage = PullStage::Store;
                    Ok(Some(frame.payload))
                },
                Err(e) => {
                    self.stage = PullStage::Over;
                    Err(e)
                },
            },
            _ => Ok(None),
        }
    }

    /// What stands at the place that this pull has come to.
    pub open spec fn upcoming(self) -> Upcoming {
        if self.count >= self.names@.len() {
            Upcoming::End
        } else if leads_out(self.platform, self.names@[self.count as int]@) {
            Upcoming::Unsafe
        } else {
            Upcoming::File
        }
    }

    /// What comes next, where nothing is waited for: the next file, unless its
    /// name leads out of the directory, which ends the pull, or the end.
    pub fn step(&mut self) -> (r: Result<PullStep, ToolError>)
        ensures
            final(self).same_run(*old(self)),
            final(self).names == old(self).names,
            final(self).stage == pull_stage_after(old(self).stage, PullEvent::Stepped(old(self).upcoming())),
            old(self).stage != PullStage::Ready ==> (r matches Ok(PullStep::Nothing)) && *final(self) == *old(self),
            old(self).stage == PullStage::Ready && old(self).count < old(self).names@.len() ==> {
                let name = old(self).names@[old(self).count as int]@;
                match r {
                    Ok(PullStep::Fetch(file)) => !leads_out(
                        old(self).platform,
                        name,
                    ) && file.destination@ == join_on(old(self).platform, old(self).root@, name) && file.part@
                        == with_extension(
                        old(self).platform,
                        join_on(old(self).platform, old(self).root@, name),
                        "sshctx-part"@,
                    ) && file.call@ == fetch_call(old(self).host@, old(self).remote_path@, name),
                    Ok(_) => false,
                    Err(e) => leads_out(old(self).platform, name) && e@
                        == ToolProblem::UnsafePath,
                }
            },
            old(self).stage == PullStage::Ready && old(self).count >= old(self).names@.len() ==> (
            r matches Ok(PullStep::Finished(text)) && text@ == pull_summary(
                old(self).count as nat,
                old(self).bytes as nat,
            )),
    {
        match self.stage {
            PullStage::Ready => {},
            _ => {
                return Ok(PullStep::Nothing);
            },
        }
        if self.count >= self.names.len() {
            let mut out = "files=".to_owned();
            out.append(decimal_text(self.count as u64).as_str());
            out.append("\ntransferred_bytes=");
            out.append(decimal_text(self.bytes as u64).as_str());
            out.append("\n(Complete: sync pull finished.)");
            self.stage = PullStage::Over;
            return Ok(PullStep::Finished(out));
        }
        let name = self.names[self.count].clone();
        let destination = match safe_join_on(self.platform, self.root.as_str(), name.as_str()) {
            Ok(path) => path,
            Err(_) => {
                self.stage = PullStage::Over;
                return Err(ToolError::UnsafePath);
            },
        };
        let part = replace_extension(self.platform, destination.as_str(), "sshctx-part");
        let path = remote_path_text(self.remote_path.as_str(), name.as_str());
        let mut members = no_members();
        put(&mut members, "path", Json::Text(path));
        put(&mut members, "byte_limit", Json::number(MAX_PAYLOAD));
        let call = reading_call(self.host.as_str(), "read", Json::Object(members));
        self.stage = PullStage::Read;
        Ok(PullStep::Fetch(PullFile { destination, part, call }))
    }

    /// Whether one more file of this length can be counted.
    pub fn room_for(&self, length: usize) -> (r: bool)
        ensures
            r == (self.count < usize::MAX && self.bytes + length <= usize::MAX),
    {
        self.count < usize::MAX && self.bytes <= usize::MAX - length
    }

    /// The file whose contents were handed out is stored, with this many bytes.
    /// Where none was handed out, nothing happens.
    pub fn stored(&mut self, length: usize)
        requires
            old(self).count < usize::MAX,
            old(self).bytes + length <= usize::MAX,
        ensures
            *final(self) == (if old(self).stage == PullStage::Store {
                SyncPull {
                    stage: pull_stage_after(PullStage::Store, PullEvent::Stored),
                    count: (old(self).count + 1) as usize,
                    bytes: (old(self).bytes + length) as usize,
                    ..*old(self)
                }
            } else {
                *old(self)
            }),
    {
        match self.stage {
            PullStage::Store => {
                self.stage = PullStage::Ready;
                self.count = self.count + 1;
                self.bytes = self.bytes + length;
            },
            _ => {},
        }
    }
}

/// A file that is brought here goes below the directory that was asked for: its
/// place begins with that directory, and what follows does not lead out of it. So
/// does the place where it is put until it is complete, if its name ends in the
/// name of a file.
pub proof fn law_files_are_only_written_below_the_root(pull: SyncPull, file: PullFile)
    requires
        pull.count < pull.names@.len(),
        !leads_out(pull.platform, pull.names@[pull.count as int]@),
        file.destination@ == join_on(pull.platform, pull.root@, pull.names@[pull.count as int]@),
        file.part@ == with_extension(pull.platform, file.destination@, "sshctx-part"@),
    ensures
        pull.root@.is_prefix_of(file.destination@),
        ends_in_name(pull.platform, pull.names@[pull.count as int]@) ==> pull.root@.is_prefix_of(file.part@),
{
    let name = pull.names@[pull.count as int]@;
    law_a_joined_path_stays_below_root(pull.platform, pull.root@, name);
    reveal_strlit("sshctx-part");
    let extension = "sshctx-part"@;
    assert forall|i: int| 0 <= i < extension.len() implies !separates(pull.platform, #[trigger] extension[i]) by {}
    if ends_in_name(pull.platform, name) {
        law_a_replaced_extension_stays_below_root(pull.platform, pull.root@, name, extension);
    }
}

/// How a run over the listed files ends that has come this far: the place of the
/// first name that leads out of the directory, or the number of names.
pub open spec fn pull_end(platform: Platform, names: Seq<Seq<char>>, from: int) -> int
    decreases names.len() - from,
{
    if from < 0 || from >= names.len() || leads_out(platform, names[from]) {
        from
    } else {
        pull_end(platform, names, from + 1)
    }
}

/// A run brings every listed file here, one after the other, unless a name leads
/// out of the directory: then it stops there, and that name is not fetched.
pub proof fn law_a_run_stops_at_the_first_name_that_leads_out(platform: Platform, names: Seq<Seq<char>>, from: int)
    requires
        0 <= from <= names.len(),
    ensures
        from <= pull_end(platform, names, from) <= names.len(),
        forall|i: int| from <= i < pull_end(platform, names, from) ==> !leads_out(platform, #[trigger] names[i]),
        pull_end(platform, names, from) < names.len() ==> leads_out(
            platform,
            names[pull_end(platform, names, from)],
        ),
    decreases names.len() - from,
{
    if from < names.len() && !leads_out(platform, names[from]) {
        law_a_run_stops_at_the_first_name_that_leads_out(platform, names, from + 1);
    }
}

/// A listed file is asked for by a call that changes nothing and names the file's
/// path, which lies one slash below the directory, and the largest payload.
pub proof fn law_a_listed_file_is_asked_for_by_its_path(
    host: Seq<char>,
    directory: Seq<char>,
    slashes: nat,
    name: Seq<char>,
)
    requires
        directory.len() == 0 || directory.last() != '/',
    ensures
        ({
            let call = fetch_call(host, directory + Seq::new(slashes, |i: int| '/'), name);
            &&& call.host == host
            &&& call.method == "read"@
            &&& call.params.member("path"@) == Some(JsonView::Text(directory + seq!['/'] + name))
            &&& call.params.member("byte_limit"@) == Some(JsonView::Unsigned(268_435_456))
            &&& call.payload.len() == 0
            &&& call.readonly
        }),
{
    reveal_strlit("path");
    reveal_strlit("byte_limit");
    assert("path"@.len() == 4 && "byte_limit"@.len() == 10);
    law_a_file_lies_one_slash_below_its_directory(directory, slashes, name);
}

/// The files that a host lists are the members of what it gives as `entries`, and it
/// lists none at all where that is no object.
pub proof fn law_listed_files_are_the_entries(manifest: JsonView)
    ensures
        match manifest.member("entries"@) {
            Some(JsonView::Object(files)) => listed_files(manifest) == Some(files),
            _ => listed_files(manifest) is None,
        },
{
}

/// A pull goes on as long as its calls are answered well: the list is followed by
/// the first file, a question by its answer, that by the file being stored, and that
/// by the next file.
pub proof fn law_a_pull_goes_on_while_all_is_well()
    ensures
        pull_stage_after(PullStage::Manifest, PullEvent::Answered(true)) == PullStage::Ready,
        pull_stage_after(PullStage::Ready, PullEvent::Stepped(Upcoming::File)) == PullStage::Read,
        pull_stage_after(PullStage::Read, PullEvent::Answered(true)) == PullStage::Store,
        pull_stage_after(PullStage::Store, PullEvent::Stored) == PullStage::Ready,
        pull_stage_after(PullStage::Ready, PullEvent::Stepped(Upcoming::End)) == PullStage::Over,
{
}

/// What stands at a place of the list is a file exactly if there is a name at that
/// place and it stays below the directory.
pub proof fn law_what_comes_next(pull: SyncPull)
    ensures
        pull.upcoming() is End <==> pull.count >= pull.names@.len(),
        pull.upcoming() is File <==> pull.count < pull.names@.len() && !leads_out(
            pull.platform,
            pull.names@[pull.count as int]@,
        ),
{
}

/// The events of a pull of this many files, where everything goes well.
pub open spec fn smooth_pull(files: nat) -> Seq<PullEvent>
    decreases files,
{
    if files == 0 {
        Seq::empty()
    } else {
        seq![PullEvent::Stepped(Upcoming::File), PullEvent::Answered(true), PullEvent::Stored] + smooth_pull(
            (files - 1) as nat,
        )
    }
}

/// Where everything goes well, every listed file is asked for.
pub proof fn law_every_listed_file_is_asked_for(files: nat)
    ensures
        files_asked(PullStage::Ready, smooth_pull(files)) == files,
    decreases files,
{
    if files > 0 {
        let events = smooth_pull(files);
        let more = smooth_pull((files - 1) as nat);
        law_every_listed_file_is_asked_for((files - 1) as nat);
        let one = events.drop_first();
        let two = one.drop_first();
        assert(one =~= seq![PullEvent::Answered(true), PullEvent::Stored] + more);
        assert(two =~= seq![PullEvent::Stored] + more);
        assert(two.drop_first() =~= more);
        assert(events[0] == PullEvent::Stepped(Upcoming::File));
        assert(one[0] == PullEvent::Answered(true) && two[0] == PullEvent::Stored);
        assert(files_asked(PullStage::Store, two) == files_asked(PullStage::Ready, more));
        assert(files_asked(PullStage::Read, one) == files_asked(PullStage::Store, two));
    }
}

/// What is shown at the end of a pull names, line by line, how many files were
/// brought here and how many bytes they have.
pub proof fn law_a_pull_shows_its_counts(count: nat, bytes: nat)
    ensures
        pieces(pull_summary(count, bytes), '\n') == seq![
            "files="@ + decimal(count),
            "transferred_bytes="@ + decimal(bytes),
            "(Complete: sync pull finished.)"@,
        ],
{
    reveal_strlit("files=");
    reveal_strlit("\ntransferred_bytes=");
    reveal_strlit("transferred_bytes=");
    reveal_strlit("\n(Complete: sync pull finished.)");
    reveal_strlit("(Complete: sync pull finished.)");
    law_decimal_reads_back(count);
    law_decimal_reads_back(bytes);
    let feed = seq!['\n'];
    let a = "files="@ + decimal(count);
    let b = "transferred_bytes="@ + decimal(bytes);
    let c = "(Complete: sync pull finished.)"@;
    assert(pull_summary(count, bytes) =~= a + feed + (b + feed + c));
    law_pieces_of_parts(a, b + feed + c, '\n');
    law_pieces_of_parts(b, c, '\n');
    law_pieces_of_parts(c, Seq::empty(), '\n');
    assert(pieces(pull_summary(count, bytes), '\n') =~= seq![a, b, c]);
}

/// An answer and a step change nothing of a pull but its stage and its names: it goes on
/// with the same host, the same directories and the same counts.
pub proof fn law_a_pull_stays_the_same_run(before: SyncPull, after: SyncPull)
    requires
        after.same_run(before),
    ensures
        after.platform == before.platform,
        after.host == before.host,
        after.remote_path == before.remote_path,
        after.root == before.root,
        after.count == before.count,
        after.bytes == before.bytes,
{
}

} // verus!
