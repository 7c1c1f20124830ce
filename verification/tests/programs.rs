use monster_deleter::base64::base64_decode;
use monster_deleter::paths::{
    extension, extension_in, file_name, is_executable_file, is_same_path, is_shortcut_file,
    name_ends_in, order_paths,
};
use monster_deleter::patterns::{has_hit, matches_uninstall_patterns};
use monster_deleter::programs::{
    display_icon_path, enumeration_step, installed_app_for_shortcut, is_allowed_uninstall_host,
    normalized_path_string, parse_uninstall_command, path_is_within, uninstall_match,
    uninstall_matches_in_hive, EnumerationStep, InstalledApp, RegistryEntry, ERROR_NO_MORE_ITEMS,
};
use monster_deleter::registry::{
    expanded_text, expansion_size, is_readable_text, registry_text, REG_EXPAND_SZ, REG_SZ,
};
use monster_deleter::text::{
    contains_text, decimal_text, same_ignoring_case, split_each, split_first, tail_after_last,
    to_lower, trim, without_ends, CharClass,
};

#[test]
fn accepts_the_windows_installer_host_without_a_shell() {
    assert_eq!(
        parse_uninstall_command("msiexec.exe /x {01234567-89AB-CDEF-0123-456789ABCDEF}", false),
        Some((
            "msiexec.exe".to_owned(),
            "/x {01234567-89AB-CDEF-0123-456789ABCDEF}".to_owned()
        ))
    );
}

#[test]
fn rejects_command_interpreters() {
    assert_eq!(parse_uninstall_command("cmd.exe /c del C:\\data", false), None);
    assert_eq!(parse_uninstall_command("powershell.exe -Command Remove-Item", false), None);
}

#[test]
fn decodes_bridge_text_without_a_parser_dependency() {
    assert_eq!(base64_decode("5bCP5oCq5YW9"), Some("小怪兽".as_bytes().to_vec()));
}

#[test]
fn only_lnk_files_are_considered_for_uninstall_detection() {
    assert!(is_shortcut_file("app.LNK"));
    assert!(!is_shortcut_file("app.exe"));
    assert!(!is_shortcut_file("folder"));
    assert!(is_executable_file("app.EXE"));
    assert!(!is_executable_file("app.lnk"));
}

#[test]
fn configured_patterns_choose_uninstall_probe_targets() {
    let patterns = vec![r"(?i)^.*\.lnk$".to_owned(), r"(?i)^.*\.exe$".to_owned()];
    assert!(matches_uninstall_patterns("Quota Float.LNK", &patterns));
    assert!(matches_uninstall_patterns("quota-float.exe", &patterns));
    assert!(!matches_uninstall_patterns("notes.txt", &patterns));
}

#[test]
fn broken_patterns_match_nothing() {
    let patterns = vec!["(".to_owned()];
    assert!(!matches_uninstall_patterns("(", &patterns));
    let patterns = vec!["(".to_owned(), "^a".to_owned()];
    assert!(matches_uninstall_patterns("abc", &patterns));
    assert!(!matches_uninstall_patterns("abc", &Vec::new()));
}

#[test]
fn one_hit_among_outcomes_is_enough() {
    assert!(has_hit(&vec![None, Some(false), Some(true)]));
    assert!(!has_hit(&vec![None, Some(false)]));
    assert!(!has_hit(&Vec::new()));
}

#[test]
fn base64_stops_at_padding_and_refuses_other_characters() {
    assert_eq!(base64_decode("TQ=="), Some(b"M".to_vec()));
    assert_eq!(base64_decode("TQ"), Some(b"M".to_vec()));
    assert_eq!(base64_decode("TWE="), Some(b"Ma".to_vec()));
    assert_eq!(base64_decode("TWE"), Some(b"Ma".to_vec()));
    assert_eq!(base64_decode("TWFu"), Some(b"Man".to_vec()));
    assert_eq!(base64_decode("TWFu=!!"), Some(b"Man".to_vec()));
    assert_eq!(base64_decode(""), Some(Vec::new()));
    assert_eq!(base64_decode("A"), Some(Vec::new()));
    assert_eq!(base64_decode("+/+/"), Some(vec![0xfb, 0xff, 0xbf]));
    assert_eq!(base64_decode("TW u"), None);
    assert_eq!(base64_decode("TWé"), None);
    assert_eq!(base64_decode("TWFu-"), None);
}

#[test]
fn quoted_commands_are_split_at_the_closing_quote() {
    assert_eq!(
        parse_uninstall_command("  \"C:\\Program Files\\a b\\un.exe\"  /S /x ", true),
        Some(("C:\\Program Files\\a b\\un.exe".to_owned(), "/S /x".to_owned()))
    );
    assert_eq!(parse_uninstall_command("\"C:\\a\\un.exe /S", true), None);
    assert_eq!(parse_uninstall_command("\"\" /S", true), None);
    assert_eq!(parse_uninstall_command("   ", true), None);
    assert_eq!(
        parse_uninstall_command("un.exe", true),
        Some(("un.exe".to_owned(), String::new()))
    );
    assert_eq!(
        parse_uninstall_command("C:\\Windows\\RunDll32.EXE\tx,y", false),
        Some(("C:\\Windows\\RunDll32.EXE".to_owned(), "x,y".to_owned()))
    );
}

#[test]
fn hosts_are_known_by_name_or_are_files() {
    assert!(is_allowed_uninstall_host("anything", true));
    assert!(!is_allowed_uninstall_host("anything", false));
    assert!(is_allowed_uninstall_host("C:/x\\MSIEXEC", false));
    assert!(is_allowed_uninstall_host("rundll32", false));
    assert!(!is_allowed_uninstall_host("msiexec.exe\\x", false));
    assert!(!is_allowed_uninstall_host("xmsiexec", false));
}

#[test]
fn paths_are_normalized_for_comparison() {
    assert_eq!(
        normalized_path_string(" \"C:/Program Files/App\\\\\" "),
        Some("c:\\program files\\app".to_owned())
    );
    assert_eq!(normalized_path_string("  "), None);
    assert_eq!(normalized_path_string("\"\""), None);
    assert_eq!(normalized_path_string("/"), Some(String::new()));
    assert_eq!(normalized_path_string("ÄB"), Some("Äb".to_owned()));
}

#[test]
fn containment_needs_a_whole_component() {
    assert!(path_is_within("c:\\app\\a.exe", "c:\\app"));
    assert!(path_is_within("c:\\app", "c:\\app"));
    assert!(!path_is_within("c:\\apples\\a.exe", "c:\\app"));
    assert!(!path_is_within("c:\\ap", "c:\\app"));
}

#[test]
fn icons_name_files() {
    assert_eq!(display_icon_path(" \"C:\\a,b\\x.exe\",0 "), Some("C:\\a,b\\x.exe".to_owned()));
    assert_eq!(display_icon_path("C:\\a\\x.exe , 3"), Some("C:\\a\\x.exe".to_owned()));
    assert_eq!(display_icon_path("C:\\a\\x.exe"), Some("C:\\a\\x.exe".to_owned()));
    assert_eq!(display_icon_path("\"C:\\a\\x.exe"), None);
    assert_eq!(display_icon_path(",0"), None);
    assert_eq!(display_icon_path("\"\",0"), None);
}

fn entry(name: &str, command: &str, location: Option<&str>, icon: Option<&str>) -> RegistryEntry {
    RegistryEntry {
        display_name: Some(name.to_owned()),
        uninstall_command: Some(command.to_owned()),
        install_location: location.map(str::to_owned),
        host_is_file: false,
        display_icon: icon.map(str::to_owned),
    }
}

#[test]
fn registry_entries_match_by_location_or_icon() {
    let target = "c:\\app\\a.exe";
    let by_location = entry("App", "msiexec /x", Some("C:\\App\\"), None);
    assert!(uninstall_match(&by_location, target).is_some());
    let by_icon = entry("App", "msiexec /x", None, Some("C:\\App\\a.exe"));
    assert!(uninstall_match(&by_icon, target).is_some());
    let elsewhere = entry("App", "msiexec /x", Some("C:\\Other"), Some("C:\\App\\b.exe"));
    assert!(uninstall_match(&elsewhere, target).is_none());
    let nameless = entry("  ", "msiexec /x", Some("C:\\App"), None);
    assert!(uninstall_match(&nameless, target).is_none());
    let interpreter = entry("App", "cmd.exe /c x", Some("C:\\App"), None);
    assert!(uninstall_match(&interpreter, target).is_none());
    let mut silent = entry("App", "msiexec /x", Some("C:\\App"), None);
    silent.uninstall_command = None;
    assert!(uninstall_match(&silent, target).is_none());
    let found = uninstall_matches_in_hive(&vec![elsewhere, by_location, by_icon], target);
    assert_eq!(found.len(), 2);
    assert_eq!(found[0].display_name, "App");
    assert_eq!(found[1].uninstall_command, "msiexec /x");
}

fn app(name: &str, command: &str) -> InstalledApp {
    InstalledApp { display_name: name.to_owned(), uninstall_command: command.to_owned() }
}

#[test]
fn shortcuts_belong_to_one_program_or_none() {
    let one = vec![app("A", "x"), app("B", "x")];
    let found = installed_app_for_shortcut("a.lnk", Some("a.exe"), &one);
    assert_eq!(found.map(|app| app.display_name), Some("A".to_owned()));
    let two = vec![app("A", "x"), app("B", "y")];
    assert!(installed_app_for_shortcut("a.lnk", Some("a.exe"), &two).is_none());
    assert!(installed_app_for_shortcut("a.txt", Some("a.exe"), &one).is_none());
    assert!(installed_app_for_shortcut("a.lnk", Some("a.txt"), &one).is_none());
    assert!(installed_app_for_shortcut("a.lnk", None, &one).is_none());
    assert!(installed_app_for_shortcut("a.lnk", Some("a.exe"), &Vec::new()).is_none());
}

#[test]
fn enumeration_stops_at_the_end_and_skips_failures() {
    assert!(matches!(enumeration_step(ERROR_NO_MORE_ITEMS), EnumerationStep::Stop));
    assert!(matches!(enumeration_step(5), EnumerationStep::Skip));
    assert!(matches!(enumeration_step(0), EnumerationStep::Read));
}

#[test]
fn registry_texts_are_read_up_to_the_first_zero() {
    assert!(is_readable_text(0, REG_SZ, 2));
    assert!(is_readable_text(0, REG_EXPAND_SZ, 65536));
    assert!(!is_readable_text(0, REG_SZ, 1));
    assert!(!is_readable_text(0, REG_SZ, 65537));
    assert!(!is_readable_text(0, 3, 10));
    assert!(!is_readable_text(2, REG_SZ, 10));
    let raw = vec![b'a', 0, 0xac, 0x20, 0, 0, b'x', 0];
    assert_eq!(registry_text(&raw, 8), "a€");
    assert_eq!(registry_text(&raw, 3), "a");
    assert_eq!(registry_text(&vec![0x00, 0xd8, b'x', 0], 4), "\u{fffd}x");
}

#[test]
fn expansions_fall_back_to_the_text_itself() {
    assert_eq!(expansion_size(0), None);
    assert_eq!(expansion_size(32769), None);
    assert_eq!(expansion_size(32768), Some(32768));
    let units: Vec<u16> = "C:\\x\0".encode_utf16().collect();
    assert_eq!(expanded_text("%x%", &units, 5), "C:\\x");
    assert_eq!(expanded_text("%x%", &units, 0), "%x%");
    assert_eq!(expanded_text("%x%", &units, 6), "%x%");
}

#[test]
fn names_and_extensions_come_from_the_last_component() {
    assert_eq!(file_name("dir/app.lnk"), Some("app.lnk".to_owned()));
    assert_eq!(file_name("dir/.."), None);
    assert_eq!(file_name(""), None);
    assert_eq!(extension("dir.d/app"), None);
    assert_eq!(extension("app.tar.gz"), Some("gz".to_owned()));
    assert_eq!(extension(".lnk"), None);
    assert_eq!(extension("app."), Some(String::new()));
    assert!(!is_shortcut_file(".lnk"));
    assert_eq!(extension_in("app.LNK"), Some("LNK".to_owned()));
    assert_eq!(extension_in("app"), None);
    assert!(name_ends_in("app.LNK", "lnk"));
    assert!(!name_ends_in("app.lnk.txt", "lnk"));
    assert!(is_shortcut_file("a/b.d/c.Lnk"));
}

#[test]
fn paths_compare_by_components() {
    assert!(is_same_path("a//b/./c", "a/b/c"));
    assert!(!is_same_path("a/b", "a/c"));
    assert!(!is_same_path("a/b", "/a/b"));
    assert_eq!(order_paths("a/b", "a/c"), -1);
    assert_eq!(order_paths("a/b", "a"), 1);
    assert_eq!(order_paths("a/b", "a/b/"), 0);
    for (left, right) in [("a", "b"), ("/a", "a"), ("..", "a"), ("a.b", "a/b"), ("é", "z")] {
        let expected = std::path::Path::new(left).cmp(std::path::Path::new(right));
        let order: i8 = match expected {
            std::cmp::Ordering::Less => -1,
            std::cmp::Ordering::Equal => 0,
            std::cmp::Ordering::Greater => 1,
        };
        assert_eq!(order_paths(left, right), order, "{left} {right}");
    }
}

#[test]
fn white_space_is_that_of_the_standard_library() {
    for code in 0..=0x10ffff_u32 {
        if let Some(c) = char::from_u32(code) {
            assert_eq!(CharClass::White.holds(c), c.is_whitespace(), "{code:x}");
        }
    }
    assert_eq!(trim(" \u{3000}a b\t"), "a b");
    assert_eq!(trim(""), "");
}

#[test]
fn texts_are_taken_apart() {
    assert_eq!(without_ends("\"\"a\"b\"", CharClass::One('"')), "a\"b");
    assert_eq!(split_each("a\t\tb", '\t'), vec!["a", "", "b"]);
    assert_eq!(split_each("", '\t'), vec![""]);
    assert_eq!(
        split_first("a b c", CharClass::White),
        Some(("a".to_owned(), "b c".to_owned()))
    );
    assert_eq!(split_first("abc", CharClass::White), None);
    assert_eq!(tail_after_last("a/b\\c", CharClass::Separator), "c");
    assert_eq!(tail_after_last("abc", CharClass::Separator), "abc");
    assert!(contains_text("abcabd", "abd"));
    assert!(contains_text("", ""));
    assert!(!contains_text("ab", "abc"));
    assert_eq!(to_lower("AÄz"), "aÄz");
    assert!(same_ignoring_case("LnK", "lNk"));
    assert!(!same_ignoring_case("lnk", "ln"));
}

#[test]
fn numbers_are_written_in_decimal() {
    for value in [0, 7, 10, 99, 100, 1234567890] {
        assert_eq!(decimal_text(value), value.to_string());
    }
    assert_eq!(decimal_text(usize::MAX), usize::MAX.to_string());
}
