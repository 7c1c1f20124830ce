//! Installed programs: what the registry says of them, and which of them a
//! shortcut belongs to.

use vstd::prelude::*;

use crate::paths::{is_executable, is_executable_file, is_shortcut, is_shortcut_file};
use crate::picking::{is_pick, lemma_pick_grows};
use crate::text::{
    after_last, chars_of, find, find_from, is_trim, is_white, law_tail_follows_the_last,
    law_trimming_cuts_the_ends, lemma_back_to_trim, lemma_find_is_first, lower, lower_char,
    matches_at, same_text, split_first, tail_after_last, text_between, text_of, text_view,
    to_lower, trim, trim_back, trim_both, trimmed, without_back, without_ends, CharClass,
};

verus! {

/// `s` with `\` for every `/`.
pub open spec fn with_backslashes(s: Seq<char>) -> Seq<char> {
    Seq::new(
        s.len(),
        |i: int|
            if s[i] == '/' {
                '\\'
            } else {
                s[i]
            },
    )
}

/// A path as it is compared here: without white space and quotes around it,
/// with `\` for `/`, without `\` at its end, and in small letters.
pub open spec fn normalized(value: Seq<char>) -> Option<Seq<char>> {
    let inner = with_backslashes(trim_both(trimmed(value), CharClass::One('"')));
    if inner.len() == 0 {
        None
    } else {
        Some(lower(trim_back(inner, CharClass::One('\\'))))
    }
}

/// Puts a path into the form in which paths are compared; nothing where no
/// text is left.
pub fn normalized_path_string(value: &str) -> (path: Option<String>)
    ensures
        match path {
            Some(text) => normalized(value@) == Some(text@),
            None => normalized(value@) is None,
        },
{
    let outer = trim(value);
    let inner = without_ends(outer.as_str(), CharClass::One('"'));
    let chars = chars_of(inner.as_str());
    let mut slashed: Vec<char> = Vec::new();
    let mut i: usize = 0;
    while i < chars.len()
        invariant
            i <= chars@.len(),
            slashed@ == with_backslashes(chars@).take(i as int),
        decreases chars@.len() - i,
    {
        slashed.push(if chars[i] == '/' { '\\' } else { chars[i] });
        i = i + 1;
        assert(slashed@ =~= with_backslashes(chars@).take(i as int));
    }
    assert(slashed@ =~= with_backslashes(chars@));
    if slashed.len() == 0 {
        return None;
    }
    let text = text_of(&slashed);
    let cut = without_back(text.as_str(), CharClass::One('\\'));
    Some(to_lower(cut.as_str()))
}

/// Whether `path` is `directory` or stands below it.
pub open spec fn within(path: Seq<char>, directory: Seq<char>) -> bool {
    path == directory || directory.push('\\').is_prefix_of(path)
}

/// Whether the normalized `path` is the normalized `directory` or stands below
/// it.
pub fn path_is_within(path: &str, directory: &str) -> (inside: bool)
    ensures
        inside == within(path@, directory@),
{
    if same_text(path, directory) {
        return true;
    }
    let whole = chars_of(path);
    let mut start = chars_of(directory);
    start.push('\\');
    let inside = matches_at(&whole, &start, 0);
    proof {
        let wanted = directory@.push('\\');
        assert(start@ =~= wanted);
        if inside {
            assert(path@.subrange(0, wanted.len() as int) == wanted);
            assert forall|i: int| 0 <= i < wanted.len() implies wanted[i] == path@[i] by {
                assert(path@.subrange(0, wanted.len() as int)[i] == path@[i]);
            }
        } else if wanted.is_prefix_of(path@) {
            assert(path@.subrange(0, wanted.len() as int) =~= wanted);
        }
    }
    inside
}

/// The path in an icon entry: what stands between quotes, or else what stands
/// before the first comma.
pub open spec fn icon_path(value: Seq<char>) -> Option<Seq<char>> {
    let value = trimmed(value);
    let path = if value.len() > 0 && value[0] == '"' {
        quoted_head(value)
    } else {
        Some(trimmed(value.take(find_from(value, CharClass::One(','), 0))))
    };
    match path {
        Some(path) => if path.len() > 0 {
            Some(path)
        } else {
            None
        },
        None => None,
    }
}

/// What stands between the quote at the start of `value` and the next one.
pub open spec fn quoted_head(value: Seq<char>) -> Option<Seq<char>> {
    let rest = value.skip(1);
    let at = find_from(rest, CharClass::One('"'), 0);
    if at < rest.len() {
        Some(rest.take(at))
    } else {
        None
    }
}

/// What stands after the closing quote.
pub open spec fn quoted_tail(value: Seq<char>) -> Seq<char> {
    let rest = value.skip(1);
    rest.skip(find_from(rest, CharClass::One('"'), 0) + 1)
}

/// The path that an icon entry of the registry names.
pub fn display_icon_path(value: &str) -> (path: Option<String>)
    ensures
        match path {
            Some(text) => icon_path(value@) == Some(text@),
            None => icon_path(value@) is None,
        },
{
    let value = trim(value);
    let chars = chars_of(value.as_str());
    let path = if chars.len() > 0 && chars[0] == '"' {
        let rest = text_between(&chars, 1, chars.len());
        assert(rest@ =~= value@.skip(1));
        match split_first(rest.as_str(), CharClass::One('"')) {
            Some((path, _)) => path,
            None => {
                return None;
            },
        }
    } else {
        let end = find(&chars, CharClass::One(','));
        let head = text_between(&chars, 0, end);
        assert(head@ =~= value@.take(end as int));
        trim(head.as_str())
    };
    if path.as_str().is_empty() {
        None
    } else {
        Some(path)
    }
}

/// A command line as program and arguments: a program in quotes ends at the
/// closing quote, any other at the first white space. Nothing where a quote is
/// not closed.
pub open spec fn command_split(command: Seq<char>) -> Option<(Seq<char>, Seq<char>)> {
    let command = trimmed(command);
    if command.len() > 0 && command[0] == '"' {
        match quoted_head(command) {
            Some(program) => Some((trimmed(program), trimmed(quoted_tail(command)))),
            None => None,
        }
    } else {
        let at = find_from(command, CharClass::White, 0);
        if at < command.len() {
            Some((trimmed(command.take(at)), trimmed(command.skip(at + 1))))
        } else {
            Some((trimmed(command), Seq::empty()))
        }
    }
}

/// The programs that may uninstall though no file of that name is there.
pub open spec fn is_known_host(program: Seq<char>) -> bool {
    let name = lower(after_last(program, CharClass::Separator));
    name == "msiexec"@ || name == "msiexec.exe"@ || name == "rundll32"@ || name == "rundll32.exe"@
}

/// Whether a program may be started to uninstall: a file, or a known host.
pub open spec fn is_allowed_host(program: Seq<char>, is_file: bool) -> bool {
    is_file || is_known_host(program)
}

/// Program and arguments of an uninstall command that may be started.
pub open spec fn uninstall_command(command: Seq<char>, program_is_file: bool) -> Option<
    (Seq<char>, Seq<char>),
> {
    match command_split(command) {
        Some((program, arguments)) => if program.len() > 0 && is_allowed_host(
            program,
            program_is_file,
        ) {
            Some((program, arguments))
        } else {
            None
        },
        None => None,
    }
}

/// Splits a command line into program and arguments, without a shell.
pub fn split_command(command: &str) -> (parts: Option<(String, String)>)
    ensures
        match parts {
            Some((program, arguments)) => command_split(command@) == Some((program@, arguments@)),
            None => command_split(command@) is None,
        },
{
    let command = trim(command);
    let chars = chars_of(command.as_str());
    if chars.len() > 0 && chars[0] == '"' {
        let rest = text_between(&chars, 1, chars.len());
        assert(rest@ =~= command@.skip(1));
        match split_first(rest.as_str(), CharClass::One('"')) {
            Some((program, arguments)) => {
                Some((trim(program.as_str()), trim(arguments.as_str())))
            },
            None => None,
        }
    } else {
        match split_first(command.as_str(), CharClass::White) {
            Some((program, arguments)) => {
                Some((trim(program.as_str()), trim(arguments.as_str())))
            },
            None => Some((trim(command.as_str()), String::new())),
        }
    }
}

/// Whether `program` may be started to uninstall; `is_file` says whether a file
/// of that name is there.
pub fn is_allowed_uninstall_host(program: &str, is_file: bool) -> (allowed: bool)
    ensures
        allowed == is_allowed_host(program@, is_file),
{
    if is_file {
        return true;
    }
    let tail = tail_after_last(program, CharClass::Separator);
    let name = to_lower(tail.as_str());
    same_text(name.as_str(), "msiexec") || same_text(name.as_str(), "msiexec.exe") || same_text(
        name.as_str(),
        "rundll32",
    ) || same_text(name.as_str(), "rundll32.exe")
}

/// Program and arguments of an uninstall command of the registry. Nothing where
/// the command is malformed or its program may not be started; in particular
/// no command interpreter may, unless the command names its file.
pub fn parse_uninstall_command(command: &str, program_is_file: bool) -> (parts: Option<
    (String, String),
>)
    ensures
        match parts {
            Some((program, arguments)) => uninstall_command(command@, program_is_file) == Some(
                (program@, arguments@),
            ),
            None => uninstall_command(command@, program_is_file) is None,
        },
{
    match split_command(command) {
        Some((program, arguments)) => {
            if program.as_str().is_empty() || !is_allowed_uninstall_host(program.as_str(), program_is_file) {
                None
            } else {
                Some((program, arguments))
            }
        },
        None => None,
    }
}

/// A command whose program is no file is accepted for Windows' two installer
/// hosts alone.
pub proof fn law_only_known_hosts_without_file(command: Seq<char>)
    ensures
        uninstall_command(command, false) matches Some((program, _)) ==> is_known_host(program),
{
}

/// A desktop program that Windows lists as installed.
pub struct InstalledApp {
    pub display_name: String,
    pub uninstall_command: String,
}

/// What an [`InstalledApp`] reads.
pub struct AppView {
    pub display_name: Seq<char>,
    pub uninstall_command: Seq<char>,
}

impl View for InstalledApp {
    type V = AppView;

    open spec fn view(&self) -> AppView {
        AppView {
            display_name: self.display_name@,
            uninstall_command: self.uninstall_command@,
        }
    }
}

pub open spec fn app_views(apps: Seq<InstalledApp>) -> Seq<AppView> {
    Seq::new(apps.len(), |i: int| apps[i]@)
}

/// One uninstall entry of the registry, with what the disk says of the files
/// that it names.
pub struct RegistryEntry {
    pub display_name: Option<String>,
    pub uninstall_command: Option<String>,
    pub install_location: Option<String>,
    /// Whether the program of the uninstall command is a file.
    pub host_is_file: bool,
    /// The canonical form of the file that the icon entry names, if it is there.
    pub display_icon: Option<String>,
}

/// What a [`RegistryEntry`] reads.
pub struct EntryView {
    pub display_name: Option<Seq<char>>,
    pub uninstall_command: Option<Seq<char>>,
    pub install_location: Option<Seq<char>>,
    pub host_is_file: bool,
    pub display_icon: Option<Seq<char>>,
}

impl View for RegistryEntry {
    type V = EntryView;

    open spec fn view(&self) -> EntryView {
        EntryView {
            display_name: text_view(self.display_name),
            uninstall_command: text_view(self.uninstall_command),
            install_location: text_view(self.install_location),
            host_is_file: self.host_is_file,
            display_icon: text_view(self.display_icon),
        }
    }
}

pub open spec fn entry_views(entries: Seq<RegistryEntry>) -> Seq<EntryView> {
    Seq::new(entries.len(), |i: int| entries[i]@)
}

/// Whether the normalized `target` is in the entry's install location or is its
/// icon.
pub open spec fn entry_owns(entry: EntryView, target: Seq<char>) -> bool {
    ||| entry.install_location matches Some(location) && normalized(location) matches Some(
        directory,
    ) && within(target, directory)
    ||| entry.display_icon matches Some(icon) && normalized(icon) == Some(target)
}

/// The program that the entry describes, where the entry is complete and owns
/// `target`.
pub open spec fn entry_match(entry: EntryView, target: Seq<char>) -> Option<AppView> {
    match (entry.display_name, entry.uninstall_command) {
        (Some(name), Some(command)) => if trimmed(name).len() > 0 && uninstall_command(
            command,
            entry.host_is_file,
        ) is Some && entry_owns(entry, target) {
            Some(AppView { display_name: name, uninstall_command: command })
        } else {
            None
        },
        _ => None,
    }
}

/// The programs of the entries that own `target`, in their order.
pub open spec fn entry_matches(entries: Seq<EntryView>, target: Seq<char>) -> Seq<AppView>
    decreases entries.len(),
{
    if entries.len() == 0 {
        Seq::empty()
    } else {
        let before = entry_matches(entries.drop_last(), target);
        match entry_match(entries.last(), target) {
            Some(app) => before.push(app),
            None => before,
        }
    }
}

/// The program that `entry` describes, where it owns the normalized `target`.
pub fn uninstall_match(entry: &RegistryEntry, target: &str) -> (app: Option<InstalledApp>)
    ensures
        match app {
            Some(app) => entry_match(entry@, target@) == Some(app@),
            None => entry_match(entry@, target@) is None,
        },
{
    let (name, command) = match (&entry.display_name, &entry.uninstall_command) {
        (Some(name), Some(command)) => (name, command),
        _ => {
            return None;
        },
    };
    if trim(name.as_str()).as_str().is_empty() || parse_uninstall_command(
        command.as_str(),
        entry.host_is_file,
    ).is_none() {
        return None;
    }
    let in_install_location = match &entry.install_location {
        Some(location) => match normalized_path_string(location.as_str()) {
            Some(directory) => path_is_within(target, directory.as_str()),
            None => false,
        },
        None => false,
    };
    let is_display_icon = match &entry.display_icon {
        Some(icon) => match normalized_path_string(icon.as_str()) {
            Some(path) => same_text(path.as_str(), target),
            None => false,
        },
        None => false,
    };
    if in_install_location || is_display_icon {
        Some(InstalledApp { display_name: name.clone(), uninstall_command: command.clone() })
    } else {
        None
    }
}

/// The programs of one registry hive that own the normalized `target`.
pub fn uninstall_matches_in_hive(entries: &Vec<RegistryEntry>, target: &str) -> (apps: Vec<
    InstalledApp,
>)
    ensures
        app_views(apps@) == entry_matches(entry_views(entries@), target@),
{
    let mut apps: Vec<InstalledApp> = Vec::new();
    let ghost all = entry_views(entries@);
    let mut i: usize = 0;
    assert(app_views(apps@) =~= Seq::<AppView>::empty());
    while i < entries.len()
        invariant
            i <= entries@.len(),
            all == entry_views(entries@),
            app_views(apps@) == entry_matches(all.take(i as int), target@),
        decreases entries@.len() - i,
    {
        let ghost before = app_views(apps@);
        match uninstall_match(&entries[i], target) {
            Some(app) => {
                apps.push(app);
                assert(app_views(apps@) =~= before.push(app@));
            },
            None => {},
        }
        i = i + 1;
        assert(all.take(i as int).drop_last() =~= all.take(i - 1));
    }
    assert(all.take(i as int) =~= all);
    apps
}

/// What to do with the status of one step of a registry enumeration.
#[derive(Clone, Copy, PartialEq, Eq, Structural)]
pub enum EnumerationStep {
    Read,
    Skip,
    Stop,
}

/// Windows' code for the end of an enumeration.
pub const ERROR_NO_MORE_ITEMS: u32 = 259;

/// Reads the status of one step of a registry enumeration.
pub fn enumeration_step(status: u32) -> (step: EnumerationStep)
    ensures
        step == (if status == ERROR_NO_MORE_ITEMS {
            EnumerationStep::Stop
        } else if status == 0 {
            EnumerationStep::Read
        } else {
            EnumerationStep::Skip
        }),
        step == EnumerationStep::Stop <==> status == 259,
        step == EnumerationStep::Read <==> status == 0,
{
    if status == ERROR_NO_MORE_ITEMS {
        EnumerationStep::Stop
    } else if status == 0 {
        EnumerationStep::Read
    } else {
        EnumerationStep::Skip
    }
}

/// Whether all of `apps` have the same uninstall command.
pub open spec fn one_command(apps: Seq<AppView>) -> bool {
    forall|i: int|
        0 <= i < apps.len() ==> (#[trigger] apps[i]).uninstall_command == apps[0].uninstall_command
}

/// The program that a shortcut belongs to: one whose command is the only one
/// among the matches, where a shortcut leads to a program.
pub open spec fn shortcut_app(
    shortcut: Seq<char>,
    target: Option<Seq<char>>,
    matches: Seq<AppView>,
) -> Option<AppView> {
    if is_shortcut(shortcut) && (target matches Some(path) && is_executable(path)) && matches.len()
        > 0 && one_command(matches) {
        Some(matches[0])
    } else {
        None
    }
}

/// The one installed program behind a shortcut. `target` is what the shortcut
/// leads to, and `matches` are the programs of all hives that own it, in the
/// order of the hives; more than one uninstall command among them is
/// ambiguous and gives nothing.
pub fn installed_app_for_shortcut(
    shortcut: &str,
    target: Option<&str>,
    matches: &Vec<InstalledApp>,
) -> (app: Option<InstalledApp>)
    ensures
        ({
            let wanted = match target {
                Some(path) => Some(path@),
                None => None,
            };
            match app {
                Some(app) => shortcut_app(shortcut@, wanted, app_views(matches@)) == Some(app@),
                None => shortcut_app(shortcut@, wanted, app_views(matches@)) is None,
            }
        }),
{
    if !is_shortcut_file(shortcut) {
        return None;
    }
    match target {
        Some(path) => {
            if !is_executable_file(path) {
                return None;
            }
        },
        None => {
            return None;
        },
    }
    if matches.len() == 0 {
        return None;
    }
    let ghost all = app_views(matches@);
    let mut i: usize = 1;
    while i < matches.len()
        invariant
            1 <= i <= matches@.len(),
            all == app_views(matches@),
            forall|j: int|
                0 <= j < i ==> (#[trigger] all[j]).uninstall_command == all[0].uninstall_command,
        decreases matches@.len() - i,
    {
        if !same_text(
            matches[i].uninstall_command.as_str(),
            matches[0].uninstall_command.as_str(),
        ) {
            assert(all[i as int].uninstall_command != all[0].uninstall_command);
            return None;
        }
        i = i + 1;
    }
    let first = &matches[0];
    Some(
        InstalledApp {
            display_name: first.display_name.clone(),
            uninstall_command: first.uninstall_command.clone(),
        },
    )
}

/// A character as it is compared: a small letter for a capital, and `\` for `/`.
pub open spec fn folded(c: char) -> char {
    if c == '/' {
        '\\'
    } else {
        lower_char(c)
    }
}

/// Whether `path` is the stretch of `value` between the two indices, folded, and only
/// white space and quotes stand before it, and behind it those and separators.
pub open spec fn is_normal_form(value: Seq<char>, path: Seq<char>, from: int, to: int) -> bool {
    &&& 0 <= from <= to <= value.len()
    &&& path.len() == to - from
    &&& forall|i: int| 0 <= i < path.len() ==> #[trigger] path[i] == folded(value[from + i])
    &&& forall|i: int| 0 <= i < from ==> is_white(#[trigger] value[i]) || value[i] == '"'
    &&& forall|i: int|
        to <= i < value.len() ==> is_white(#[trigger] value[i]) || value[i] == '"' || value[i]
            == '/' || value[i] == '\\'
    &&& path.len() > 0 ==> path.last() != '\\'
}

/// Paths are compared without regard to the case of letters, to the direction of
/// their separators, to separators at their end, and to white space and quotes round
/// them; everything else counts. Where nothing but white space and quotes is there,
/// there is no path.
pub proof fn law_spelling_does_not_count(value: Seq<char>)
    ensures
        normalized(value) matches Some(path) ==> exists|from: int, to: int|
            is_normal_form(value, path, from, to),
        normalized(value) is None ==> forall|i: int|
            0 <= i < value.len() ==> is_white(#[trigger] value[i]) || value[i] == '"',
{
    let quote = CharClass::One('"');
    let slash = CharClass::One('\\');
    let outer = trimmed(value);
    law_trimming_cuts_the_ends(value, CharClass::White);
    let (a, b) = choose|a: int, b: int| is_trim(value, outer, CharClass::White, a, b);
    let inner = trim_both(outer, quote);
    law_trimming_cuts_the_ends(outer, quote);
    let (c, d) = choose|c: int, d: int| is_trim(outer, inner, quote, c, d);
    let slashed = with_backslashes(inner);
    let k = lemma_back_to_trim(slashed, slash);
    let from = a + c;
    let to = from + k;
    assert forall|i: int| 0 <= i < from implies is_white(#[trigger] value[i]) || value[i] == '"' by {
        if i < a {
            assert(CharClass::White.has(value[i]));
        } else {
            assert(outer[i - a] == value[i]);
            assert(quote.has(outer[i - a]));
        }
    }
    assert forall|i: int| to <= i < value.len() implies is_white(#[trigger] value[i]) || value[i]
        == '"' || value[i] == '/' || value[i] == '\\' by {
        if i >= b {
            assert(CharClass::White.has(value[i]));
        } else {
            assert(outer[i - a] == value[i]);
            if i - a >= d {
                assert(quote.has(outer[i - a]));
            } else {
                let j = i - a - c;
                assert(inner[j] == value[i]);
                assert(slash.has(slashed[j]));
            }
        }
    }
    match normalized(value) {
        Some(path) => {
            let cut = trim_back(slashed, slash);
            assert(cut == slashed.take(k));
            assert forall|i: int| 0 <= i < path.len() implies #[trigger] path[i] == folded(
                value[from + i],
            ) by {
                assert(cut[i] == slashed[i]);
                assert(inner[i] == outer[c + i]);
                assert(outer[c + i] == value[a + c + i]);
            }
            if path.len() > 0 {
                assert(!slash.has(slashed[k - 1]));
                assert(path.last() == lower_char(slashed[k - 1]));
            }
            assert(is_normal_form(value, path, from, to));
        },
        None => {
            assert(inner.len() == 0);
            assert forall|i: int| 0 <= i < value.len() implies is_white(#[trigger] value[i])
                || value[i] == '"' by {
                if a <= i < b {
                    assert(outer[i - a] == value[i]);
                    assert(quote.has(outer[i - a]));
                } else {
                    assert(CharClass::White.has(value[i]));
                }
            }
        },
    }
}

/// A path is within a directory where it is that directory, or goes on after it with
/// a separator. That it merely starts with the same letters is not enough.
pub proof fn law_paths_below_are_within(directory: Seq<char>, rest: Seq<char>, path: Seq<char>)
    ensures
        within(directory, directory),
        within(directory + seq!['\\'] + rest, directory),
        rest.len() > 0 && rest[0] != '\\' ==> !within(directory + rest, directory),
        within(path, directory) ==> path == directory || exists|below: Seq<char>|
            path == #[trigger] (directory + seq!['\\'] + below),
        within(path, directory) ==> path.len() >= directory.len(),
{
    let start = directory.push('\\');
    assert(start.is_prefix_of(directory + seq!['\\'] + rest));
    if rest.len() > 0 && rest[0] != '\\' {
        let other = directory + rest;
        assert(other[directory.len() as int] == rest[0]);
        assert(start[directory.len() as int] == '\\');
    }
    if within(path, directory) && path != directory {
        let below = path.skip(start.len() as int);
        assert forall|i: int| 0 <= i < start.len() implies path[i] == #[trigger] start[i] by {
            assert(path.subrange(0, start.len() as int)[i] == path[i]);
        }
        assert forall|i: int| 0 <= i < directory.len() implies path[i] == directory[i] by {
            assert(start[i] == directory[i]);
        }
        assert(start[directory.len() as int] == '\\');
        assert(path =~= directory + seq!['\\'] + below);
    }
}

proof fn lemma_quoted(value: Seq<char>, inner: Seq<char>, rest: Seq<char>)
    requires
        value == seq!['"'] + inner + seq!['"'] + rest,
        !inner.contains('"'),
    ensures
        quoted_head(value) == Some(inner),
        quoted_tail(value) == rest,
{
    let tail = value.skip(1);
    let quote = CharClass::One('"');
    assert(tail =~= inner + seq!['"'] + rest);
    assert forall|i: int| 0 <= i < inner.len() implies !quote.has(#[trigger] tail[i]) by {
        assert(tail[i] == inner[i]);
        assert(inner.contains(inner[i]));
    }
    lemma_find_is_first(tail, quote, inner.len() as int);
    assert(tail.take(inner.len() as int) =~= inner);
    assert(tail.skip(inner.len() as int + 1) =~= rest);
}

proof fn lemma_unclosed(value: Seq<char>, inner: Seq<char>)
    requires
        value == seq!['"'] + inner,
        !inner.contains('"'),
    ensures
        quoted_head(value) is None,
{
    let tail = value.skip(1);
    let quote = CharClass::One('"');
    assert(tail =~= inner);
    assert forall|i: int| 0 <= i < inner.len() implies !quote.has(#[trigger] tail[i]) by {
        assert(inner.contains(inner[i]));
    }
    lemma_find_is_first(tail, quote, inner.len() as int);
}

proof fn lemma_head(value: Seq<char>, head: Seq<char>, class: CharClass, rest: Seq<char>)
    requires
        value == head + rest,
        forall|i: int| 0 <= i < head.len() ==> !class.has(#[trigger] head[i]),
        rest.len() > 0 ==> class.has(rest[0]),
    ensures
        find_from(value, class, 0) == head.len(),
        value.take(head.len() as int) == head,
{
    assert forall|i: int| 0 <= i < head.len() implies !class.has(#[trigger] value[i]) by {
        assert(value[i] == head[i]);
    }
    if rest.len() > 0 {
        assert(value[head.len() as int] == rest[0]);
    }
    lemma_find_is_first(value, class, head.len() as int);
    assert(value.take(head.len() as int) =~= head);
}

/// An icon entry names the path between quotes, if it starts with one, and else what
/// stands before its first comma. An entry whose quote is not closed names none, nor
/// does one without a path.
pub proof fn law_icon_entries_name_their_path(
    value: Seq<char>,
    path: Seq<char>,
    rest: Seq<char>,
)
    ensures
        trimmed(value) == seq!['"'] + path + seq!['"'] + rest && !path.contains('"') && path.len()
            > 0 ==> icon_path(value) == Some(path),
        trimmed(value) == seq!['"'] + path && !path.contains('"') ==> icon_path(value) is None,
        trimmed(value) == path + rest && path.len() > 0 && path[0] != '"' && !path.contains(',')
            && (rest.len() > 0 ==> rest[0] == ',') && trimmed(path) == path ==> icon_path(value)
            == Some(path),
        trimmed(value).len() == 0 ==> icon_path(value) is None,
{
    let text = trimmed(value);
    if text == seq!['"'] + path + seq!['"'] + rest && !path.contains('"') && path.len() > 0 {
        lemma_quoted(text, path, rest);
        assert(text[0] == '"');
    }
    if text == seq!['"'] + path && !path.contains('"') {
        lemma_unclosed(text, path);
        assert(text[0] == '"');
    }
    if text == path + rest && path.len() > 0 && path[0] != '"' && !path.contains(',') && (rest.len()
        > 0 ==> rest[0] == ',') && trimmed(path) == path {
        let comma = CharClass::One(',');
        assert forall|i: int| 0 <= i < path.len() implies !comma.has(#[trigger] path[i]) by {
            assert(path.contains(path[i]));
        }
        lemma_head(text, path, comma, rest);
        assert(text[0] == path[0]);
    }
    if text.len() == 0 {
        let comma = CharClass::One(',');
        lemma_head(text, Seq::empty(), comma, text);
        assert(text.take(0) =~= Seq::<char>::empty());
        assert(trimmed(Seq::<char>::empty()) =~= Seq::<char>::empty());
    }
}

/// The program of a command line ends at the closing quote, if the line starts with
/// one, and else at the first white space; what follows are the arguments. Nothing
/// is made of a line whose quote is not closed.
pub proof fn law_command_lines_are_split(
    command: Seq<char>,
    program: Seq<char>,
    gap: char,
    rest: Seq<char>,
)
    ensures
        trimmed(command) == seq!['"'] + program + seq!['"'] + rest && !program.contains('"')
            ==> command_split(command) == Some((trimmed(program), trimmed(rest))),
        trimmed(command) == seq!['"'] + program && !program.contains('"') ==> command_split(
            command,
        ) is None,
        trimmed(command) == program + seq![gap] + rest && is_white(gap) && is_word(program)
            && program[0] != '"' ==> command_split(command) == Some(
            (trimmed(program), trimmed(rest)),
        ),
        trimmed(command) == program && is_word(program) && program[0] != '"' ==> command_split(
            command,
        ) == Some((trimmed(program), Seq::<char>::empty())),
{
    let text = trimmed(command);
    let white = CharClass::White;
    if text == seq!['"'] + program + seq!['"'] + rest && !program.contains('"') {
        lemma_quoted(text, program, rest);
        assert(text[0] == '"');
    }
    if text == seq!['"'] + program && !program.contains('"') {
        lemma_unclosed(text, program);
        assert(text[0] == '"');
    }
    if text == program + seq![gap] + rest && is_white(gap) && is_word(program) && program[0] != '"' {
        assert(text =~= program + (seq![gap] + rest));
        lemma_head(text, program, white, seq![gap] + rest);
        assert(text.skip(program.len() as int + 1) =~= rest);
        assert(text[0] == program[0]);
    }
    if text == program && is_word(program) && program[0] != '"' {
        assert(text =~= program + Seq::<char>::empty());
        lemma_head(text, program, white, Seq::empty());
    }
}

/// Whether there is something, and no white space in it.
pub open spec fn is_word(text: Seq<char>) -> bool {
    text.len() > 0 && forall|i: int| 0 <= i < text.len() ==> !is_white(#[trigger] text[i])
}

/// The hosts that may uninstall though their file is not found are known by their
/// names alone, in letters of either case and in whatever directory: the installer
/// and the library runner of Windows, with or without their extension.
pub proof fn law_hosts_are_known_by_name(
    directory: Seq<char>,
    separator: char,
    name: Seq<char>,
)
    requires
        separator == '\\' || separator == '/',
        !name.contains('\\') && !name.contains('/'),
    ensures
        is_known_host(directory + seq![separator] + name) == is_known_host(name),
        is_known_host(name) <==> lower(name) == "msiexec"@ || lower(name) == "msiexec.exe"@ || lower(
            name,
        ) == "rundll32"@ || lower(name) == "rundll32.exe"@,
{
    let class = CharClass::Separator;
    let whole = directory + seq![separator] + name;
    law_tail_follows_the_last(whole, class);
    law_tail_follows_the_last(name, class);
    let tail = after_last(whole, class);
    let from = whole.len() - tail.len();
    let at = directory.len() as int;
    if from <= at {
        assert(tail[at - from] == whole[at]);
        assert(whole[at] == separator);
    } else if from > at + 1 {
        assert(whole[from - 1] == name[from - 1 - (at + 1)]);
        assert(name.contains(name[from - 1 - (at + 1)]));
    }
    assert(tail =~= name);
    let short = after_last(name, class);
    let start = name.len() - short.len();
    if start > 0 {
        assert(name.contains(name[start - 1]));
    }
    assert(short =~= name);
}

/// A command may be started where it can be split, names a program, and that is a
/// file or a known host; it is started as it was split.
pub proof fn law_commands_need_a_host(command: Seq<char>, is_file: bool)
    ensures
        uninstall_command(command, is_file) matches Some(parts) ==> command_split(command) == Some(
            parts,
        ) && parts.0.len() > 0 && (is_file || is_known_host(parts.0)),
        command_split(command) matches Some(parts) ==> (parts.0.len() > 0 && (is_file
            || is_known_host(parts.0)) ==> uninstall_command(command, is_file) == Some(parts)),
        command_split(command) is None ==> uninstall_command(command, is_file) is None,
{
}

/// A program of the registry belongs to a target that lies in its directory, or that
/// is its icon. It must have a name and a command that may be started; both are
/// taken as they are.
pub proof fn law_entries_own_their_files(entry: EntryView, target: Seq<char>)
    ensures
        entry_match(entry, target) matches Some(app) ==> {
            &&& entry.display_name == Some(app.display_name)
            &&& entry.uninstall_command == Some(app.uninstall_command)
            &&& trimmed(app.display_name).len() > 0
            &&& uninstall_command(app.uninstall_command, entry.host_is_file) is Some
            &&& entry_owns(entry, target)
        },
        entry.display_name is Some && entry.uninstall_command is Some && trimmed(
            entry.display_name->0,
        ).len() > 0 && uninstall_command(entry.uninstall_command->0, entry.host_is_file) is Some
            && entry_owns(entry, target) ==> entry_match(entry, target) is Some,
        entry.install_location is None && entry.display_icon is None ==> !entry_owns(
            entry,
            target,
        ),
        entry.install_location is Some && normalized(entry.install_location->0) is Some && within(
            target,
            normalized(entry.install_location->0)->0,
        ) ==> entry_owns(entry, target),
        entry.display_icon is Some && normalized(entry.display_icon->0) == Some(target)
            ==> entry_owns(entry, target),
        entry_owns(entry, target) ==> (entry.install_location is Some && normalized(
            entry.install_location->0,
        ) is Some && within(target, normalized(entry.install_location->0)->0)) || (
        entry.display_icon is Some && normalized(entry.display_icon->0) == Some(target)),
{
}

/// The programs of a hive that own the target are found, and no others, in the order
/// of their entries.
pub proof fn law_owners_are_found(entries: Seq<EntryView>, target: Seq<char>)
    ensures
        is_pick(
            entry_matches(entries, target),
            entries.len(),
            |k: int| entry_match(entries[k], target) is Some,
            |k: int| entry_match(entries[k], target)->0,
        ),
    decreases entries.len(),
{
    if entries.len() > 0 {
        let front = entries.drop_last();
        law_owners_are_found(front, target);
        lemma_pick_grows(
            entry_matches(front, target),
            |k: int| entry_match(front[k], target) is Some,
            |k: int| entry_match(front[k], target)->0,
            entry_matches(entries, target),
            entries.len(),
            |k: int| entry_match(entries[k], target) is Some,
            |k: int| entry_match(entries[k], target)->0,
        );
    }
}

/// A shortcut belongs to a program where it leads to an executable and all the
/// programs that own that have one and the same command; the first of them is taken.
/// Two different commands give none.
pub proof fn law_ambiguous_programs_are_none(
    shortcut: Seq<char>,
    target: Option<Seq<char>>,
    found: Seq<AppView>,
    i: int,
    j: int,
)
    ensures
        shortcut_app(shortcut, target, found) matches Some(app) ==> {
            &&& is_shortcut(shortcut)
            &&& target is Some && is_executable(target->0)
            &&& found.len() > 0 && app == found[0]
        },
        0 <= i < found.len() && 0 <= j < found.len() && found[i].uninstall_command
            != found[j].uninstall_command ==> shortcut_app(shortcut, target, found) is None,
        is_shortcut(shortcut) && target is Some && is_executable(target->0) && found.len() == 1
            ==> shortcut_app(shortcut, target, found) == Some(found[0]),
        found.len() == 0 ==> shortcut_app(shortcut, target, found) is None,
{
}

} // verus!
