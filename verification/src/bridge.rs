//! The uninstall bridge: the helper program that finds and starts the
//! uninstaller of an executable. It is asked with command-line arguments and
//! answers with one line of tab-separated text.

use vstd::prelude::*;
use vstd::utf8::{
    decode_utf8, encode_utf8, encode_utf8_decode_utf8, encode_utf8_valid_utf8, valid_utf8,
};

use crate::base64::{base64_bytes, base64_decode, encodes, law_decoding_undoes_base64};
use crate::paths::{is_executable, is_executable_file};
use crate::text::{
    law_pieces_make_the_text, lemma_find_is_first, put_together, same_text, split_at_each,
    split_each, trim, trimmed, views, CharClass,
};

verus! {

/// A selected item behind which a program with an uninstaller was found.
pub struct BcuCandidate {
    /// The item as it was selected. It is never replaced by the executable, so
    /// that deleting a shortcut cannot delete what it leads to.
    pub source: String,
    /// The program that the item leads to.
    pub executable: String,
    pub id: String,
    pub display_name: String,
}

/// What a [`BcuCandidate`] reads.
#[verifier::ext_equal]
pub struct CandidateView {
    pub source: Seq<char>,
    pub executable: Seq<char>,
    pub id: Seq<char>,
    pub display_name: Seq<char>,
}

impl View for BcuCandidate {
    type V = CandidateView;

    open spec fn view(&self) -> CandidateView {
        CandidateView {
            source: self.source@,
            executable: self.executable@,
            id: self.id@,
            display_name: self.display_name@,
        }
    }
}

pub open spec fn candidate_views(candidates: Seq<BcuCandidate>) -> Seq<CandidateView> {
    Seq::new(candidates.len(), |i: int| candidates[i]@)
}

impl BcuCandidate {
    /// The same candidate once more.
    pub fn duplicate(&self) -> (copy: Self)
        ensures
            copy@ == self@,
    {
        BcuCandidate {
            source: self.source.clone(),
            executable: self.executable.clone(),
            id: self.id.clone(),
            display_name: self.display_name.clone(),
        }
    }
}

/// What the bridge says of an executable.
pub enum BcuProbe {
    Candidate(BcuCandidate),
    ExecutableWithoutUninstaller,
    NotExecutableShortcut,
}

/// What a [`BcuProbe`] reads.
pub enum ProbeView {
    Candidate(CandidateView),
    ExecutableWithoutUninstaller,
    NotExecutableShortcut,
}

impl View for BcuProbe {
    type V = ProbeView;

    open spec fn view(&self) -> ProbeView {
        match self {
            BcuProbe::Candidate(candidate) => ProbeView::Candidate(candidate@),
            BcuProbe::ExecutableWithoutUninstaller => ProbeView::ExecutableWithoutUninstaller,
            BcuProbe::NotExecutableShortcut => ProbeView::NotExecutableShortcut,
        }
    }
}

pub open spec fn probe_views(probes: Seq<BcuProbe>) -> Seq<ProbeView> {
    Seq::new(probes.len(), |i: int| probes[i]@)
}

/// What `String::from_utf8_lossy` makes of bytes.
pub uninterp spec fn utf8_lossy(bytes: Seq<u8>) -> Seq<char>;

/// Calls `String::from_utf8_lossy`: the text of well-formed UTF-8; other bytes
/// give a text with replacement characters, of which nothing more is said.
#[verifier::external_body]
fn lossy_text(bytes: &Vec<u8>) -> (text: String)
    ensures
        text@ == utf8_lossy(bytes@),
        valid_utf8(bytes@) ==> text@ == decode_utf8(bytes@),
{
    String::from_utf8_lossy(bytes).into_owned()
}

/// Calls `String::from_utf8`: the text, where the bytes are well-formed UTF-8.
#[verifier::external_body]
fn utf8_text(bytes: Vec<u8>) -> (text: Option<String>)
    ensures
        match text {
            Some(text) => valid_utf8(bytes@) && text@ == decode_utf8(bytes@),
            None => !valid_utf8(bytes@),
        },
{
    String::from_utf8(bytes).ok()
}

/// The name that the bridge wrote in Base64.
pub open spec fn decoded_name(field: Seq<char>) -> Option<Seq<char>> {
    match base64_bytes(field) {
        Some(bytes) => if valid_utf8(bytes) {
            Some(decode_utf8(bytes))
        } else {
            None
        },
        None => None,
    }
}

/// A display name that the bridge writes in Base64 is read as it was.
pub proof fn law_names_survive_encoding(field: Seq<char>, name: Seq<char>)
    requires
        encodes(field, encode_utf8(name)),
    ensures
        decoded_name(field) == Some(name),
{
    law_decoding_undoes_base64(field, encode_utf8(name));
    encode_utf8_valid_utf8(name);
    encode_utf8_decode_utf8(name);
}

/// What an answer of the bridge on `executable` means: `MATCH` with an
/// identifier and a name in Base64 is a candidate, whose source is yet to be
/// filled in, and `EXECUTABLE` alone a program without an uninstaller. Anything
/// else is no answer.
pub open spec fn probe_answer(answer: Seq<char>, executable: Seq<char>) -> ProbeView {
    let fields = split_at_each(trimmed(answer), '\t');
    if fields.len() == 1 && fields[0] == "EXECUTABLE"@ {
        ProbeView::ExecutableWithoutUninstaller
    } else if fields.len() == 3 && fields[0] == "MATCH"@ && trimmed(fields[1]).len() > 0 && trimmed(
        fields[2],
    ).len() > 0 && decoded_name(trimmed(fields[2])) is Some {
        ProbeView::Candidate(
            CandidateView {
                source: Seq::empty(),
                executable,
                id: trimmed(fields[1]),
                display_name: decoded_name(trimmed(fields[2]))->0,
            },
        )
    } else {
        ProbeView::NotExecutableShortcut
    }
}

/// Reads the text of an answer of the bridge on `executable`.
pub fn read_probe_answer(answer: &str, executable: &str) -> (probe: BcuProbe)
    ensures
        probe@ == probe_answer(answer@, executable@),
{
    let line = trim(answer);
    let fields = split_each(line.as_str(), '\t');
    let ghost parts = split_at_each(trimmed(answer@), '\t');
    assert(views(fields@) =~= parts);
    if fields.len() == 1 {
        assert(parts[0] == fields@[0]@);
        return if same_text(fields[0].as_str(), "EXECUTABLE") {
            BcuProbe::ExecutableWithoutUninstaller
        } else {
            BcuProbe::NotExecutableShortcut
        };
    }
    if fields.len() != 3 || !same_text(fields[0].as_str(), "MATCH") {
        return BcuProbe::NotExecutableShortcut;
    }
    assert(parts[0] == fields@[0]@ && parts[1] == fields@[1]@ && parts[2] == fields@[2]@);
    let id = trim(fields[1].as_str());
    let encoded = trim(fields[2].as_str());
    if id.as_str().is_empty() || encoded.as_str().is_empty() {
        return BcuProbe::NotExecutableShortcut;
    }
    let bytes = match base64_decode(encoded.as_str()) {
        Some(bytes) => bytes,
        None => {
            return BcuProbe::NotExecutableShortcut;
        },
    };
    match utf8_text(bytes) {
        Some(display_name) => {
            let candidate = BcuCandidate {
                source: String::new(),
                executable: executable.to_owned(),
                id,
                display_name,
            };
            BcuProbe::Candidate(candidate)
        },
        None => BcuProbe::NotExecutableShortcut,
    }
}

/// Reads what the bridge wrote on its output about `executable`.
pub fn read_probe_output(output: &Vec<u8>, executable: &str) -> (probe: BcuProbe)
    ensures
        probe@ == probe_answer(utf8_lossy(output@), executable@),
        valid_utf8(output@) ==> probe@ == probe_answer(decode_utf8(output@), executable@),
{
    let answer = lossy_text(output);
    read_probe_answer(answer.as_str(), executable)
}

/// How the run of the bridge ended.
pub enum BridgeRun {
    /// It could not be started, did not end in time, or reported a failure.
    Failed,
    /// It ended well and wrote this.
    Finished(Vec<u8>),
}

/// What the bridge found out about `executable`. Where the bridge or the
/// executable is no file, or the executable is none by its name, or the run
/// failed, it found out nothing.
pub fn probe_bcu_executable(
    bridge_is_file: bool,
    executable_is_file: bool,
    executable: &str,
    run: &BridgeRun,
) -> (probe: BcuProbe)
    ensures
        probe@ == (match run {
            BridgeRun::Finished(output) => if bridge_is_file && executable_is_file
                && is_executable(executable@) {
                probe_answer(utf8_lossy(output@), executable@)
            } else {
                ProbeView::NotExecutableShortcut
            },
            BridgeRun::Failed => ProbeView::NotExecutableShortcut,
        }),
{
    if !may_probe(bridge_is_file, executable_is_file, executable) {
        return BcuProbe::NotExecutableShortcut;
    }
    match run {
        BridgeRun::Finished(output) => read_probe_output(output, executable),
        BridgeRun::Failed => BcuProbe::NotExecutableShortcut,
    }
}

/// Whether the bridge is to be started for `executable` at all.
pub fn may_probe(bridge_is_file: bool, executable_is_file: bool, executable: &str) -> (may: bool)
    ensures
        may == (bridge_is_file && executable_is_file && is_executable(executable@)),
{
    bridge_is_file && executable_is_file && is_executable_file(executable)
}

/// How long the bridge may take, in milliseconds.
pub const BRIDGE_DEADLINE_MS: u64 = 20000;

/// What a look at the running bridge shows.
#[derive(Clone, Copy, PartialEq, Eq, Structural)]
pub enum BridgeState {
    Exited,
    Running,
    Unknown,
}

/// What to do after a look at the running bridge.
#[derive(Clone, Copy, PartialEq, Eq, Structural)]
pub enum BridgeWait {
    /// Take its output.
    Collect,
    /// Look again after a pause.
    Sleep,
    /// End it; it counts as failed.
    Kill,
    /// It counts as failed.
    GiveUp,
}

/// What to do `elapsed` milliseconds after the start of the bridge. A bridge
/// that runs is waited for until the deadline and then ended, so that the wait
/// is never endless.
pub fn bridge_wait(state: BridgeState, elapsed: u64) -> (wait: BridgeWait)
    ensures
        wait == (match state {
            BridgeState::Exited => BridgeWait::Collect,
            BridgeState::Running => if elapsed < BRIDGE_DEADLINE_MS {
                BridgeWait::Sleep
            } else {
                BridgeWait::Kill
            },
            BridgeState::Unknown => BridgeWait::GiveUp,
        }),
        wait == BridgeWait::Sleep <==> state == BridgeState::Running && elapsed < 20000,
        wait == BridgeWait::Kill <==> state == BridgeState::Running && elapsed >= 20000,
{
    match state {
        BridgeState::Exited => BridgeWait::Collect,
        BridgeState::Running => if elapsed < BRIDGE_DEADLINE_MS {
            BridgeWait::Sleep
        } else {
            BridgeWait::Kill
        },
        BridgeState::Unknown => BridgeWait::GiveUp,
    }
}

/// The arguments that ask the bridge about `executable`.
pub fn probe_arguments(executable: &str, index: &str) -> (arguments: Vec<String>)
    ensures
        views(arguments@) == seq!["resolve"@, executable@, index@],
{
    let mut arguments: Vec<String> = Vec::new();
    arguments.push("resolve".to_owned());
    arguments.push(executable.to_owned());
    arguments.push(index.to_owned());
    assert(views(arguments@) =~= seq!["resolve"@, executable@, index@]);
    arguments
}

/// Executable and identifier of each candidate, in order.
pub open spec fn candidate_arguments(candidates: Seq<CandidateView>) -> Seq<Seq<char>>
    decreases candidates.len(),
{
    if candidates.len() == 0 {
        Seq::empty()
    } else {
        candidate_arguments(candidates.drop_last()) + seq![
            candidates.last().executable,
            candidates.last().id,
        ]
    }
}

/// The arguments that start the uninstallers of `candidates`.
pub open spec fn batch_arguments(candidates: Seq<CandidateView>, quiet: bool) -> Seq<Seq<char>> {
    (if quiet {
        seq!["uninstall-batch"@, "--quiet"@]
    } else {
        seq!["uninstall-batch"@]
    }) + candidate_arguments(candidates)
}

/// The arguments that make the bridge start the uninstallers of `candidates`,
/// all in one run; nothing where the bridge is no file or there are no
/// candidates, which is an error.
pub fn launch_bcu_uninstaller(
    bridge_is_file: bool,
    candidates: &Vec<BcuCandidate>,
    quiet: bool,
) -> (arguments: Option<Vec<String>>)
    ensures
        match arguments {
            Some(arguments) => bridge_is_file && candidates@.len() > 0 && views(arguments@)
                == batch_arguments(candidate_views(candidates@), quiet),
            None => !bridge_is_file || candidates@.len() == 0,
        },
{
    if !bridge_is_file || candidates.len() == 0 {
        return None;
    }
    let mut arguments: Vec<String> = Vec::new();
    arguments.push("uninstall-batch".to_owned());
    if quiet {
        arguments.push("--quiet".to_owned());
    }
    let ghost start = views(arguments@);
    let ghost all = candidate_views(candidates@);
    let mut i: usize = 0;
    assert(start =~= (if quiet {
        seq!["uninstall-batch"@, "--quiet"@]
    } else {
        seq!["uninstall-batch"@]
    }));
    assert(start + candidate_arguments(all.take(0)) =~= start);
    while i < candidates.len()
        invariant
            i <= candidates@.len(),
            all == candidate_views(candidates@),
            views(arguments@) == start + candidate_arguments(all.take(i as int)),
        decreases candidates@.len() - i,
    {
        let ghost before = views(arguments@);
        arguments.push(candidates[i].executable.clone());
        arguments.push(candidates[i].id.clone());
        assert(views(arguments@) =~= before + seq![
            all[i as int].executable,
            all[i as int].id,
        ]);
        i = i + 1;
        assert(all.take(i as int).drop_last() =~= all.take(i - 1));
        assert(views(arguments@) =~= start + candidate_arguments(all.take(i as int)));
    }
    assert(all.take(i as int) =~= all);
    Some(arguments)
}

/// The line in which the bridge names an uninstaller.
pub open spec fn match_line(id: Seq<char>, field: Seq<char>) -> Seq<char> {
    "MATCH"@ + seq!['\t'] + id + seq!['\t'] + field
}

proof fn lemma_split_once(head: Seq<char>, mark: char, rest: Seq<char>)
    requires
        !head.contains(mark),
    ensures
        split_at_each(head + seq![mark] + rest, mark) == seq![head] + split_at_each(rest, mark),
        split_at_each(head, mark) == seq![head],
{
    let s = head + seq![mark] + rest;
    let class = CharClass::One(mark);
    let at = head.len() as int;
    assert forall|i: int| 0 <= i < at implies !class.has(#[trigger] s[i]) && !class.has(head[i]) by {
        assert(s[i] == head[i]);
        assert(head.contains(head[i]));
    }
    lemma_find_is_first(s, class, at);
    lemma_find_is_first(head, class, at);
    assert(s.take(at) =~= head);
    assert(s.skip(at + 1) =~= rest);
}

/// A line of three fields, of which the first is `MATCH`, is a candidate with the
/// identifier of the second and the name that the third holds, for the executable
/// that was asked about. White space round the line does not count.
pub proof fn law_match_lines_are_candidates(
    answer: Seq<char>,
    executable: Seq<char>,
    id: Seq<char>,
    field: Seq<char>,
    name: Seq<char>,
)
    requires
        trimmed(answer) == match_line(id, field),
        id.len() > 0 && !id.contains('\t') && trimmed(id) == id,
        field.len() > 0 && !field.contains('\t') && trimmed(field) == field,
        decoded_name(field) == Some(name),
    ensures
        probe_answer(answer, executable) == ProbeView::Candidate(
            CandidateView { source: Seq::empty(), executable, id, display_name: name },
        ),
{
    reveal_strlit("MATCH");
    reveal_strlit("EXECUTABLE");
    let head = "MATCH"@;
    let rest = id + seq!['\t'] + field;
    assert(match_line(id, field) =~= head + seq!['\t'] + rest);
    assert(!head.contains('\t'));
    lemma_split_once(head, '\t', rest);
    lemma_split_once(id, '\t', field);
    lemma_split_once(field, '\t', Seq::empty());
    let fields = split_at_each(match_line(id, field), '\t');
    assert(fields =~= seq![head, id, field]);
}

/// The word `EXECUTABLE` alone says that there is no uninstaller.
pub proof fn law_executable_alone_has_no_uninstaller(answer: Seq<char>, executable: Seq<char>)
    ensures
        probe_answer(answer, executable) is ExecutableWithoutUninstaller <==> trimmed(answer)
            == "EXECUTABLE"@,
{
    reveal_strlit("EXECUTABLE");
    let line = trimmed(answer);
    if line == "EXECUTABLE"@ {
        assert(!line.contains('\t'));
        lemma_split_once(line, '\t', Seq::empty());
    } else {
        law_pieces_make_the_text(line, '\t');
        let fields = split_at_each(line, '\t');
        if fields.len() == 1 {
            assert(put_together(fields, '\t') == fields[0]);
        }
    }
}

/// Only a line that names an uninstaller is a candidate, and it is never more than
/// the line says: its identifier and its name are those of the line, its executable
/// is the one that was asked about, and it has no item yet.
pub proof fn law_candidates_come_from_match_lines(answer: Seq<char>, executable: Seq<char>)
    ensures
        probe_answer(answer, executable) matches ProbeView::Candidate(candidate) ==> {
            &&& candidate.executable == executable
            &&& candidate.source.len() == 0
            &&& candidate.id.len() > 0
            &&& exists|id: Seq<char>, field: Seq<char>|
                trimmed(answer) == #[trigger] match_line(id, field) && candidate.id == trimmed(id)
                    && decoded_name(trimmed(field)) == Some(candidate.display_name)
        },
{
    let line = trimmed(answer);
    let fields = split_at_each(line, '\t');
    if probe_answer(answer, executable) is Candidate {
        law_pieces_make_the_text(line, '\t');
        reveal_with_fuel(put_together, 4);
        assert(fields.drop_first().drop_first()[0] == fields[2]);
        assert(put_together(fields, '\t') =~= match_line(fields[1], fields[2]));
        assert(line == match_line(fields[1], fields[2]));
    }
}

/// The bridge is told to uninstall a batch, silently or not, and then for each
/// candidate its executable and its identifier, in that order and in the order of the
/// candidates.
pub proof fn law_batch_names_every_candidate(
    candidates: Seq<CandidateView>,
    quiet: bool,
    i: int,
)
    requires
        0 <= i < candidates.len(),
    ensures
        ({
            let arguments = batch_arguments(candidates, quiet);
            let start: int = if quiet {
                2
            } else {
                1
            };
            &&& arguments.len() == start + 2 * candidates.len()
            &&& arguments[0] == "uninstall-batch"@
            &&& quiet ==> arguments[1] == "--quiet"@
            &&& arguments[start + 2 * i] == candidates[i].executable
            &&& arguments[start + 2 * i + 1] == candidates[i].id
        }),
{
    lemma_candidate_arguments(candidates);
}

proof fn lemma_candidate_arguments(candidates: Seq<CandidateView>)
    ensures
        candidate_arguments(candidates).len() == 2 * candidates.len(),
        forall|i: int|
            0 <= i < candidates.len() ==> candidate_arguments(candidates)[2 * i] == (
            #[trigger] candidates[i]).executable && candidate_arguments(candidates)[2 * i + 1]
                == candidates[i].id,
    decreases candidates.len(),
{
    if candidates.len() > 0 {
        let front = candidates.drop_last();
        lemma_candidate_arguments(front);
        assert forall|i: int| 0 <= i < candidates.len() implies candidate_arguments(
            candidates,
        )[2 * i] == (#[trigger] candidates[i]).executable && candidate_arguments(candidates)[2 * i
            + 1] == candidates[i].id by {
            if i < front.len() {
                assert(front[i] == candidates[i]);
                assert(candidate_arguments(front)[2 * i] == front[i].executable);
            }
        }
    }
}

/// A name is what the bytes of the field read in UTF-8, and there is none where they
/// read nothing.
pub proof fn law_names_are_utf8(field: Seq<char>)
    ensures
        decoded_name(field) matches Some(name) ==> base64_bytes(field) is Some && valid_utf8(
            base64_bytes(field)->0,
        ) && name == decode_utf8(base64_bytes(field)->0),
        base64_bytes(field) is None ==> decoded_name(field) is None,
        base64_bytes(field) matches Some(bytes) ==> (decoded_name(field) is Some <==> valid_utf8(
            bytes,
        )),
{
}

} // verus!
