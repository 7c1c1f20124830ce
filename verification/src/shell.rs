//! What the program says to the shell, and what the shell's answers mean.

use vstd::prelude::*;

use crate::overlay::state::{OutcomeView, OverlayView, Owed, Phase, RecycleOutcome};
use crate::text::{same_text, views};

verus! {

/// The status with which the shell refuses to delete an item for want of rights.
pub const DE_ACCESSDENIEDSRC: i32 = 0x78;
pub const ERROR_ACCESS_DENIED: u32 = 5;
pub const ERROR_CANCELLED: u32 = 1223;

/// The error that a deletion by the shell ended with: that of a cancelled
/// operation where the shell reports none but gave up, and that of missing
/// rights where the shell reports them in a way of its own.
pub open spec fn failure_code(status: i32, aborted: bool) -> Option<u32> {
    if status == 0 {
        if aborted {
            Some(ERROR_CANCELLED)
        } else {
            None
        }
    } else if status == DE_ACCESSDENIEDSRC {
        Some(ERROR_ACCESS_DENIED)
    } else {
        Some(status as u32)
    }
}

/// The error that a deletion by the shell ended with, if any.
pub fn recycle_failure_code(status: i32, aborted: bool) -> (code: Option<u32>)
    ensures
        code == failure_code(status, aborted),
{
    if status == 0 {
        return if aborted {
            Some(ERROR_CANCELLED)
        } else {
            None
        };
    }
    Some(
        if status == DE_ACCESSDENIEDSRC {
            ERROR_ACCESS_DENIED
        } else {
            status as u32
        },
    )
}

/// The result value of an error code: the code marked as a failure of the
/// system, unless it is none or is marked already.
pub open spec fn result_of(code: u32) -> u32 {
    if code == 0 || code >= 0x8000_0000 {
        code
    } else {
        (0x8007_0000 + code % 0x1_0000) as u32
    }
}

/// The result value of an error code.
pub fn result_of_code(code: u32) -> (result: u32)
    ensures
        result == result_of(code),
{
    if code == 0 || code >= 0x8000_0000 {
        code
    } else {
        0x8007_0000 + code % 0x1_0000
    }
}

/// The result value of missing rights.
pub const ACCESS_DENIED_RESULT: u32 = 0x8007_0005;

/// A failure by its result value and what it says.
pub struct Failure {
    pub result: u32,
    pub message: String,
}

/// What a deletion that ended with `failure` means.
pub open spec fn outcome_of(failure: Option<Failure>) -> OutcomeView {
    match failure {
        Some(failure) => if failure.result == ACCESS_DENIED_RESULT {
            OutcomeView::AccessDenied
        } else {
            OutcomeView::Failed(failure.message@)
        },
        None => OutcomeView::Done,
    }
}

/// What a deletion that ended with `failure` means for the overlay.
pub fn recycle_outcome(failure: Option<Failure>) -> (outcome: RecycleOutcome)
    ensures
        outcome@ == outcome_of(failure),
{
    match failure {
        Some(failure) => if failure.result == ACCESS_DENIED_RESULT {
            RecycleOutcome::AccessDenied
        } else {
            RecycleOutcome::Failed(failure.message)
        },
        None => RecycleOutcome::Done,
    }
}

/// Where the shell refuses to delete for want of rights, the overlay offers to
/// try again with more of them, whether the shell reports its own status or the
/// system's error.
pub proof fn law_missing_rights_offer_a_retry(
    s: OverlayView,
    status: i32,
    aborted: bool,
    failure: Failure,
    now: u64,
)
    requires
        s.owed == Owed::Recycling,
        status == DE_ACCESSDENIEDSRC || status == ERROR_ACCESS_DENIED as i32,
        failure.result == result_of(failure_code(status, aborted)->0),
    ensures
        s.told_recycled(outcome_of(Some(failure)), now).phase == Phase::Elevate,
        s.told_recycled(outcome_of(Some(failure)), now).delete_targets == s.delete_targets,
{
}

/// Paths, each followed by 0.
pub open spec fn terminated(paths: Seq<Seq<u16>>) -> Seq<u16>
    decreases paths.len(),
{
    if paths.len() == 0 {
        Seq::empty()
    } else {
        terminated(paths.drop_last()) + paths.last().push(0)
    }
}

pub open spec fn unit_views(paths: Seq<Vec<u16>>) -> Seq<Seq<u16>> {
    Seq::new(paths.len(), |i: int| paths[i]@)
}

/// The list that one deletion by the shell works through: every path followed
/// by 0, and 0 at the end.
pub fn recycle_list(paths: &Vec<Vec<u16>>) -> (list: Vec<u16>)
    ensures
        list@ == terminated(unit_views(paths@)).push(0),
{
    let ghost all = unit_views(paths@);
    let mut list: Vec<u16> = Vec::new();
    let mut i: usize = 0;
    while i < paths.len()
        invariant
            i <= paths@.len(),
            all == unit_views(paths@),
            list@ == terminated(all.take(i as int)),
        decreases paths@.len() - i,
    {
        let ghost before = list@;
        let path = &paths[i];
        let mut k: usize = 0;
        while k < path.len()
            invariant
                k <= path@.len(),
                list@ == before + path@.take(k as int),
            decreases path@.len() - k,
        {
            list.push(path[k]);
            k = k + 1;
            assert(list@ =~= before + path@.take(k as int));
        }
        list.push(0);
        i = i + 1;
        proof {
            assert(all.take(i as int).drop_last() =~= all.take(i - 1));
            assert(all.take(i as int).last() == path@);
            assert(list@ =~= before + path@.push(0));
        }
    }
    assert(all.take(i as int) =~= all);
    list.push(0);
    list
}

/// Whether `ShellExecute` has started something: its result is above 32.
pub fn was_started(result: isize) -> (started: bool)
    ensures
        started == (result > 32),
{
    result > 32
}

/// Texts in quotation marks, each after a space.
pub open spec fn quoted_list(texts: Seq<Seq<char>>) -> Seq<char>
    decreases texts.len(),
{
    if texts.len() == 0 {
        Seq::empty()
    } else {
        quoted_list(texts.drop_last()) + (" \""@ + texts.last() + "\""@)
    }
}

/// The parameters that make the program delete the given items with more
/// rights.
pub fn elevation_parameters(targets: &Vec<String>) -> (parameters: String)
    ensures
        parameters@ == "--elevated-delete"@ + quoted_list(views(targets@)),
{
    let ghost all = views(targets@);
    let mut parameters = "--elevated-delete".to_owned();
    let mut i: usize = 0;
    assert(parameters@ =~= "--elevated-delete"@ + quoted_list(all.take(0)));
    while i < targets.len()
        invariant
            i <= targets@.len(),
            all == views(targets@),
            parameters@ == "--elevated-delete"@ + quoted_list(all.take(i as int)),
        decreases targets@.len() - i,
    {
        let ghost before = parameters@;
        parameters.append(" \"");
        parameters.append(targets[i].as_str());
        parameters.append("\"");
        i = i + 1;
        proof {
            assert(all.take(i as int).drop_last() =~= all.take(i - 1));
            assert(parameters@ =~= before + (" \""@ + all[i - 1] + "\""@));
            assert(parameters@ =~= "--elevated-delete"@ + quoted_list(all.take(i as int)));
        }
    }
    assert(all.take(i as int) =~= all);
    parameters
}

/// The arguments that make the program show the overlay for a selection.
pub fn selection_arguments(targets: &Vec<String>) -> (arguments: Vec<String>)
    ensures
        views(arguments@) == seq!["--run-selection"@] + views(targets@),
{
    let mut arguments: Vec<String> = Vec::new();
    arguments.push("--run-selection".to_owned());
    let mut i: usize = 0;
    while i < targets.len()
        invariant
            i <= targets@.len(),
            arguments@.len() == i + 1,
            arguments@[0]@ == "--run-selection"@,
            forall|j: int| 0 <= j < i ==> (#[trigger] arguments@[j + 1])@ == targets@[j]@,
        decreases targets@.len() - i,
    {
        arguments.push(targets[i].clone());
        i = i + 1;
    }
    proof {
        let expected = seq!["--run-selection"@] + views(targets@);
        assert forall|k: int| 0 <= k < expected.len() implies views(arguments@)[k]
            == expected[k] by {
            if k > 0 {
                assert(arguments@[(k - 1) + 1]@ == targets@[k - 1]@);
            }
        }
        assert(views(arguments@) =~= expected);
    }
    arguments
}

/// What the program was started for.
#[derive(Clone, Copy, PartialEq, Eq, Structural)]
pub enum LaunchMode {
    SelectionBroker,
    Settings,
    /// Delete the arguments from the given one on.
    ElevatedDelete(usize),
    /// Show the overlay for the arguments from the given one on.
    Overlay(usize),
}

/// What the arguments, without the program's own name, ask for.
pub open spec fn mode_of(arguments: Seq<Seq<char>>) -> LaunchMode {
    if arguments.len() == 0 {
        LaunchMode::Overlay(0)
    } else if arguments[0] == "--selection-broker"@ {
        LaunchMode::SelectionBroker
    } else if arguments[0] == "--settings"@ {
        LaunchMode::Settings
    } else if arguments[0] == "--elevated-delete"@ {
        LaunchMode::ElevatedDelete(1)
    } else if arguments[0] == "--run-selection"@ {
        LaunchMode::Overlay(1)
    } else {
        LaunchMode::Overlay(0)
    }
}

/// What the arguments, without the program's own name, ask for.
pub fn launch_mode(arguments: &Vec<String>) -> (mode: LaunchMode)
    ensures
        mode == mode_of(views(arguments@)),
{
    if arguments.len() == 0 {
        return LaunchMode::Overlay(0);
    }
    assert(views(arguments@)[0] == arguments@[0]@);
    let first = arguments[0].as_str();
    if same_text(first, "--selection-broker") {
        LaunchMode::SelectionBroker
    } else if same_text(first, "--settings") {
        LaunchMode::Settings
    } else if same_text(first, "--elevated-delete") {
        LaunchMode::ElevatedDelete(1)
    } else if same_text(first, "--run-selection") {
        LaunchMode::Overlay(1)
    } else {
        LaunchMode::Overlay(0)
    }
}

/// The overlay is started with exactly the selection that it was asked for,
/// whatever the names of the items.
pub proof fn law_selection_reaches_the_overlay(targets: Seq<Seq<char>>)
    ensures
        mode_of(seq!["--run-selection"@] + targets) == LaunchMode::Overlay(1),
        (seq!["--run-selection"@] + targets).skip(1) == targets,
{
    let arguments = seq!["--run-selection"@] + targets;
    reveal_strlit("--run-selection");
    reveal_strlit("--selection-broker");
    reveal_strlit("--settings");
    reveal_strlit("--elevated-delete");
    assert(arguments[0] == "--run-selection"@);
    assert("--run-selection"@[2] == 'r');
    assert("--selection-broker"@[2] == 's');
    assert("--settings"@[2] == 's');
    assert("--elevated-delete"@[2] == 'e');
    assert(arguments.skip(1) =~= targets);
}

/// Whether a wait without delay has taken the mutex: it was free, or its last
/// owner has ended without giving it back.
pub fn owns_mutex(wait: u32) -> (owned: bool)
    ensures
        owned == (wait == 0 || wait == 0x80),
{
    wait == 0 || wait == 0x80
}

/// How often the helper hands a selection over before it gives up.
pub const SUBMISSION_TRIES: u32 = 80;

/// What the helper does after a try.
#[derive(Clone, Copy, PartialEq, Eq, Structural)]
pub enum Submission {
    Done,
    /// Wait a little, and try again.
    Again,
    GiveUp,
}

/// What the helper does when `tries` tries were made before this one.
pub fn after_submission(tries: u32, acknowledged: bool) -> (next: Submission)
    ensures
        next == (if acknowledged {
            Submission::Done
        } else if tries + 1 < SUBMISSION_TRIES {
            Submission::Again
        } else {
            Submission::GiveUp
        }),
        !acknowledged ==> (next == Submission::Again <==> tries < 79),
{
    if acknowledged {
        Submission::Done
    } else if tries < SUBMISSION_TRIES - 1 {
        Submission::Again
    } else {
        Submission::GiveUp
    }
}

/// The class of the command that Explorer calls.
pub const COMMAND_CLASS: u128 = 0x8c6932f1_4c2f_4f87_9f78_b563bc6df3b1;
pub const E_NOINTERFACE: u32 = 0x8000_4002;
pub const E_POINTER: u32 = 0x8000_4003;
pub const CLASS_E_NOAGGREGATION: u32 = 0x8004_0110;
pub const CLASS_E_CLASSNOTAVAILABLE: u32 = 0x8004_0111;

/// Whether the class factory is handed out: to a complete request for the one
/// class.
pub fn class_request(is_complete: bool, class: Option<u128>) -> (refusal: Option<u32>)
    ensures
        refusal == (if !is_complete {
            Some(E_POINTER)
        } else if class != Some(COMMAND_CLASS) {
            Some(CLASS_E_CLASSNOTAVAILABLE)
        } else {
            None
        }),
        refusal is None <==> is_complete && class == Some(
            0x8c6932f1_4c2f_4f87_9f78_b563bc6df3b1u128,
        ),
        refusal matches Some(code) ==> code == 0x8000_4003 && !is_complete || code == 0x8004_0111
            && is_complete,
{
    if !is_complete {
        return Some(E_POINTER);
    }
    match class {
        Some(class) => if class == COMMAND_CLASS {
            None
        } else {
            Some(CLASS_E_CLASSNOTAVAILABLE)
        },
        None => Some(CLASS_E_CLASSNOTAVAILABLE),
    }
}

/// Whether a command is made: for a complete request that wants no aggregate.
pub fn instance_request(is_complete: bool, is_aggregated: bool) -> (refusal: Option<u32>)
    ensures
        refusal == (if !is_complete {
            Some(E_POINTER)
        } else if is_aggregated {
            Some(CLASS_E_NOAGGREGATION)
        } else {
            None
        }),
        refusal is None <==> is_complete && !is_aggregated,
        refusal matches Some(code) ==> code == 0x8000_4003 && !is_complete || code == 0x8004_0110
            && is_complete,
{
    if !is_complete {
        Some(E_POINTER)
    } else if is_aggregated {
        Some(CLASS_E_NOAGGREGATION)
    } else {
        None
    }
}

/// A deletion that the shell reports as done has failed only where it gave up, which
/// counts as cancelled. Its own status for missing rights counts as the system's
/// error for them, and any other status as it is.
pub proof fn law_shell_status_is_read(status: i32, aborted: bool)
    ensures
        failure_code(status, aborted) is None <==> status == 0 && !aborted,
        status == 0 && aborted ==> failure_code(status, aborted) == Some(1223u32),
        status == 120 ==> failure_code(status, aborted) == Some(5u32),
        status > 0 && status != 120 ==> failure_code(status, aborted) == Some(status as u32),
        status < 0 ==> failure_code(status, aborted) == Some(status as u32),
{
}

/// An error code becomes a result value by its lower half under the mark of the
/// system; no error and what is a result value already stay.
pub proof fn law_codes_become_results(code: u32)
    ensures
        code == 0 ==> result_of(code) == 0,
        0 < code < 0x1_0000 ==> result_of(code) - 0x8007_0000 == code,
        0x1_0000 <= code < 0x8000_0000 ==> result_of(code) - 0x8007_0000 == code % 0x1_0000,
        code >= 0x8000_0000 ==> result_of(code) == code,
{
}

/// A deletion without a failure is done; missing rights are told apart from every
/// other failure, whose words are kept.
pub proof fn law_failures_are_told_apart(failure: Failure)
    ensures
        outcome_of(None) is Done,
        outcome_of(Some(failure)) is AccessDenied <==> failure.result == 0x8007_0005,
        failure.result != 0x8007_0005 ==> outcome_of(Some(failure)) == OutcomeView::Failed(
            failure.message@,
        ),
{
}

/// In the list for the shell the paths follow one another, each as it is and closed
/// by a zero.
pub proof fn law_list_holds_path_after_path(paths: Seq<Seq<u16>>, more: Seq<Seq<u16>>, path: Seq<u16>)
    ensures
        terminated(Seq::empty()).len() == 0,
        terminated(seq![path]) == path + seq![0u16],
        terminated(paths + more) == terminated(paths) + terminated(more),
    decreases more.len(),
{
    assert(seq![path].drop_last() =~= Seq::<Seq<u16>>::empty());
    assert(terminated(seq![path].drop_last()) =~= Seq::<u16>::empty());
    assert(terminated(seq![path]) =~= path + seq![0u16]);
    if more.len() == 0 {
        assert(paths + more =~= paths);
        assert(terminated(paths) + terminated(more) =~= terminated(paths));
    } else {
        law_list_holds_path_after_path(paths, more.drop_last(), path);
        assert((paths + more).drop_last() =~= paths + more.drop_last());
        assert(terminated(paths + more) =~= terminated(paths) + terminated(more));
    }
}

/// In the parameters for more rights the items follow one another, each in quotation
/// marks after a blank.
pub proof fn law_parameters_hold_item_after_item(
    texts: Seq<Seq<char>>,
    more: Seq<Seq<char>>,
    text: Seq<char>,
)
    ensures
        quoted_list(Seq::empty()).len() == 0,
        quoted_list(seq![text]) == seq![' ', '"'] + text + seq!['"'],
        quoted_list(texts + more) == quoted_list(texts) + quoted_list(more),
    decreases more.len(),
{
    reveal_strlit(" \"");
    reveal_strlit("\"");
    assert(" \""@ =~= seq![' ', '"']);
    assert("\""@ =~= seq!['"']);
    assert(seq![text].drop_last() =~= Seq::<Seq<char>>::empty());
    assert(quoted_list(seq![text].drop_last()) =~= Seq::<char>::empty());
    assert(quoted_list(seq![text]) =~= seq![' ', '"'] + text + seq!['"']);
    if more.len() == 0 {
        assert(texts + more =~= texts);
        assert(quoted_list(texts) + quoted_list(more) =~= quoted_list(texts));
    } else {
        law_parameters_hold_item_after_item(texts, more.drop_last(), text);
        assert((texts + more).drop_last() =~= texts + more.drop_last());
        assert(quoted_list(texts + more) =~= quoted_list(texts) + quoted_list(more));
    }
}

/// The first argument alone decides what the program does. Four words ask for
/// something; without any of them all arguments are items to show the overlay for.
pub proof fn law_first_argument_decides(word: Seq<char>, rest: Seq<Seq<char>>)
    ensures
        ({
            let mode = mode_of(seq![word] + rest);
            &&& word == "--selection-broker"@ <==> mode == LaunchMode::SelectionBroker
            &&& word == "--settings"@ <==> mode == LaunchMode::Settings
            &&& word == "--elevated-delete"@ <==> mode == LaunchMode::ElevatedDelete(1)
            &&& word == "--run-selection"@ <==> mode == LaunchMode::Overlay(1)
            &&& word != "--selection-broker"@ && word != "--settings"@ && word
                != "--elevated-delete"@ && word != "--run-selection"@ ==> mode
                == LaunchMode::Overlay(0)
        }),
        mode_of(Seq::empty()) == LaunchMode::Overlay(0),
{
    reveal_strlit("--run-selection");
    reveal_strlit("--selection-broker");
    reveal_strlit("--settings");
    reveal_strlit("--elevated-delete");
    assert("--run-selection"@.len() == 15 && "--selection-broker"@.len() == 18);
    assert("--settings"@.len() == 10 && "--elevated-delete"@.len() == 17);
    assert((seq![word] + rest)[0] == word);
}

/// With more rights exactly the queued items are deleted: the parameters start with
/// the word that asks for it.
pub proof fn law_rights_are_used_for_the_queue(targets: Seq<Seq<char>>)
    ensures
        mode_of(seq!["--elevated-delete"@] + targets) == LaunchMode::ElevatedDelete(1),
        (seq!["--elevated-delete"@] + targets).skip(1) == targets,
{
    law_first_argument_decides("--elevated-delete"@, targets);
    assert((seq!["--elevated-delete"@] + targets).skip(1) =~= targets);
}

} // verus!
