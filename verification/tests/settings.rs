use monster_deleter::audio::{tracks, Audio};
use monster_deleter::bridge::{
    bridge_wait, launch_bcu_uninstaller, may_probe, probe_arguments, probe_bcu_executable,
    read_probe_answer, read_probe_output, BcuCandidate, BcuProbe, BridgeRun, BridgeState,
    BridgeWait,
};
use monster_deleter::config::{
    batch_uninstall_target_matches_config, read_uninstall_config, silent_prompt,
    uninstall_feature_enabled, uninstall_prompt, uninstall_silent_execution_enabled,
    uninstall_target_matches_config, write_uninstall_config, write_user_config, UninstallConfig,
};
use monster_deleter::paths::is_listed;
use monster_deleter::shortcut::{
    link_target, shortcut_target, uninstall_probe_target, Resolution, MAX_SHORTCUT_RESOLUTION_HOPS,
};

const DOCUMENT: &str = r#"{
  "uninstall": {
    "batch_target_patterns": [
      "(?i)^.*\\.lnk$"
    ],
    "cleanup_after_uninstall": false,
    "enabled": true,
    "mode": "official",
    "target_patterns": [
      "(?i)^.*\\.lnk$",
      "(?i)^.*\\.exe$"
    ]
  }
}
"#;

fn texts(list: &[&str]) -> Vec<String> {
    list.iter().map(|text| (*text).to_owned()).collect()
}

#[test]
fn default_settings_have_a_document() {
    assert_eq!(write_uninstall_config(&UninstallConfig::default()), DOCUMENT);
}

#[test]
fn documents_are_read_back() {
    let config = UninstallConfig {
        enabled: false,
        mode: "a \"b\"\n".to_owned(),
        target_patterns: texts(&["x", "\\"]),
        batch_target_patterns: Vec::new(),
    };
    let (read, migrate) = read_uninstall_config(Some(&write_uninstall_config(&config)), None);
    assert!(!migrate);
    assert!(!read.enabled);
    assert_eq!(read.mode, config.mode);
    assert_eq!(read.target_patterns, config.target_patterns);
    assert_eq!(read.batch_target_patterns, config.batch_target_patterns);
}

#[test]
fn missing_and_odd_settings_fall_back() {
    let (read, _) = read_uninstall_config(
        Some(r#"{"uninstall":{"enabled":1,"mode":"silent","target_patterns":["a",2,"b"]}}"#),
        Some("enabled = false"),
    );
    assert!(read.enabled);
    assert_eq!(read.mode, "silent");
    assert_eq!(read.target_patterns, texts(&["a", "b"]));
    assert_eq!(read.batch_target_patterns, texts(&["(?i)^.*\\.lnk$"]));
    let (plain, migrate) = read_uninstall_config(Some("[]"), Some("enabled = false"));
    assert!(plain.enabled);
    assert!(!migrate);
    let (none, migrate) = read_uninstall_config(None, None);
    assert_eq!(none.mode, "official");
    assert!(!migrate);
}

#[test]
fn older_settings_are_taken_over() {
    let (read, migrate) = read_uninstall_config(
        Some("not json"),
        Some("[uninstall]\nenabled = false\nmode = \"force_silent\"\n"),
    );
    assert!(migrate);
    assert!(!read.enabled);
    assert_eq!(read.mode, "silent");
    let (official, migrate) = read_uninstall_config(None, Some("mode = \"other\""));
    assert!(migrate);
    assert!(official.enabled);
    assert_eq!(official.mode, "official");
    let (again, migrate) = read_uninstall_config(Some(&write_uninstall_config(&read)), None);
    assert!(!migrate);
    assert_eq!((again.enabled, again.mode), (read.enabled, read.mode));
}

#[test]
fn answers_become_settings() {
    let mut config = UninstallConfig::default();
    let text = write_user_config(&mut config, true, true);
    assert_eq!(config.mode, "silent");
    assert_eq!(text, DOCUMENT.replace("official", "silent"));
    assert!(uninstall_silent_execution_enabled(&config));
    write_user_config(&mut config, false, true);
    assert_eq!(config.mode, "official");
    assert!(!uninstall_feature_enabled(&config));
    assert!(!uninstall_silent_execution_enabled(&config));
    config.mode = "force_silent".to_owned();
    assert!(!uninstall_silent_execution_enabled(&config));
    config.enabled = true;
    assert!(uninstall_silent_execution_enabled(&config));
}

#[test]
fn settings_name_items_by_their_file_names() {
    let config = UninstallConfig::default();
    assert!(uninstall_target_matches_config("d/App.EXE", &config));
    assert!(!batch_uninstall_target_matches_config("d/App.EXE", &config));
    assert!(batch_uninstall_target_matches_config("d/App.LNK", &config));
    assert!(!uninstall_target_matches_config("d.lnk/..", &config));
}

#[test]
fn settings_are_asked_for_in_words() {
    let mut config = UninstallConfig::default();
    let prompt = uninstall_prompt(&config, "C:\\c.json");
    assert!(prompt.starts_with("当前：已启用。\n\n启用卸载功能吗？"));
    assert!(prompt.ends_with("设置保存在：C:\\c.json"));
    assert!(silent_prompt(&config).starts_with("当前：正常执行。"));
    config.mode = "silent".to_owned();
    assert!(silent_prompt(&config).starts_with("当前：静默执行。"));
    config.enabled = false;
    assert!(uninstall_prompt(&config, "").starts_with("当前：未启用。"));
}

fn kind(probe: &BcuProbe) -> String {
    match probe {
        BcuProbe::Candidate(candidate) => {
            assert_eq!(candidate.source, "");
            assert_eq!(candidate.executable, "p.exe");
            format!("{} {}", candidate.id, candidate.display_name)
        }
        BcuProbe::ExecutableWithoutUninstaller => "executable".to_owned(),
        BcuProbe::NotExecutableShortcut => "nothing".to_owned(),
    }
}

#[test]
fn bridge_answers_are_read() {
    for (answer, expected) in [
        ("MATCH\t id 7 \t5bCP5oCq5YW9\r\n", "id 7 小怪兽"),
        ("EXECUTABLE\n", "executable"),
        ("EXECUTABLE\tx", "nothing"),
        ("MATCH\tid", "nothing"),
        ("MATCH", "nothing"),
        ("MATCH\t \tTQ==", "nothing"),
        ("MATCH\tid\t\t", "nothing"),
        ("MATCH\tid\tTQ==\tx", "nothing"),
        ("MATCH\tid\t!!", "nothing"),
        ("MATCH\tid\t/w==", "nothing"),
        ("OTHER", "nothing"),
        ("", "nothing"),
    ] {
        assert_eq!(kind(&read_probe_answer(answer, "p.exe")), expected, "{answer}");
    }
    assert_eq!(kind(&read_probe_output(&b"MATCH\t\xff\tTQ==".to_vec(), "p.exe")), "\u{fffd} M");
}

#[test]
fn only_programs_are_probed() {
    let run = BridgeRun::Finished(b"EXECUTABLE".to_vec());
    assert_eq!(kind(&probe_bcu_executable(true, true, "p.exe", &run)), "executable");
    assert_eq!(kind(&probe_bcu_executable(false, true, "p.exe", &run)), "nothing");
    assert_eq!(kind(&probe_bcu_executable(true, false, "p.exe", &run)), "nothing");
    assert_eq!(kind(&probe_bcu_executable(true, true, "p.txt", &run)), "nothing");
    assert_eq!(kind(&probe_bcu_executable(true, true, "p.exe", &BridgeRun::Failed)), "nothing");
    assert!(may_probe(true, true, "p.EXE"));
    assert!(!may_probe(true, true, "p.lnk"));
}

#[test]
fn the_bridge_has_a_deadline() {
    assert!(matches!(bridge_wait(BridgeState::Exited, 99999), BridgeWait::Collect));
    assert!(matches!(bridge_wait(BridgeState::Running, 19999), BridgeWait::Sleep));
    assert!(matches!(bridge_wait(BridgeState::Running, 20000), BridgeWait::Kill));
    assert!(matches!(bridge_wait(BridgeState::Unknown, 0), BridgeWait::GiveUp));
}

#[test]
fn the_bridge_is_asked_with_arguments() {
    assert_eq!(probe_arguments("p.exe", "i.tsv"), texts(&["resolve", "p.exe", "i.tsv"]));
    let candidate = BcuCandidate {
        source: "a.lnk".to_owned(),
        executable: "p.exe".to_owned(),
        id: "7".to_owned(),
        display_name: "P".to_owned(),
    };
    let copy = candidate.duplicate();
    assert_eq!(copy.display_name, "P");
    let list = vec![candidate, copy];
    assert_eq!(
        launch_bcu_uninstaller(true, &list, true),
        Some(texts(&["uninstall-batch", "--quiet", "p.exe", "7", "p.exe", "7"]))
    );
    assert_eq!(
        launch_bcu_uninstaller(true, &list, false),
        Some(texts(&["uninstall-batch", "p.exe", "7", "p.exe", "7"]))
    );
    assert_eq!(launch_bcu_uninstaller(false, &list, false), None);
    assert_eq!(launch_bcu_uninstaller(true, &Vec::new(), false), None);
}

/// Follows shortcuts whose links are given by a function of their names.
fn resolve(start: &str, link: impl Fn(&str) -> Option<&'static str>) -> Option<String> {
    let mut state = shortcut_target(start);
    loop {
        match state {
            Resolution::Read(walk) => {
                let next = link(&walk.current).map(str::to_owned);
                state = walk.follow(next);
            }
            Resolution::Found(path) => return Some(path),
            Resolution::Nothing => return None,
        }
    }
}

#[test]
fn shortcuts_are_followed_to_their_target() {
    let chain = |name: &str| match name {
        "1.lnk" => Some("2.LNK"),
        "2.LNK" => Some("3.lnk"),
        "3.lnk" => Some("4.lnk"),
        "4.lnk" => Some("p.exe"),
        "0.lnk" => Some("1.lnk"),
        "loop.lnk" => Some("d/../loop.lnk"),
        "d/../loop.lnk" => Some("loop.lnk"),
        _ => None,
    };
    assert_eq!(MAX_SHORTCUT_RESOLUTION_HOPS, 4);
    assert_eq!(resolve("4.lnk", chain), Some("p.exe".to_owned()));
    assert_eq!(resolve("1.lnk", chain), Some("p.exe".to_owned()));
    assert_eq!(resolve("0.lnk", chain), None);
    assert_eq!(resolve("loop.lnk", chain), None);
    assert_eq!(resolve("gone.lnk", chain), None);
    assert_eq!(resolve("p.exe", chain), None);
    assert_eq!(resolve("self.lnk", |_| Some("self.lnk")), None);
}

#[test]
fn items_lead_to_programs() {
    let found = Some("p.exe".to_owned());
    assert_eq!(uninstall_probe_target("a.lnk", found.clone(), true), found);
    assert_eq!(uninstall_probe_target("a.lnk", found.clone(), false), None);
    assert_eq!(uninstall_probe_target("a.lnk", Some("p.txt".to_owned()), true), None);
    assert_eq!(uninstall_probe_target("a.lnk", None, true), None);
    assert_eq!(uninstall_probe_target("q.exe", None, true), Some("q.exe".to_owned()));
    assert_eq!(uninstall_probe_target("q.txt", None, true), None);
}

#[test]
fn links_end_at_the_first_zero() {
    assert_eq!(link_target(&vec![0x61, 0x62, 0, 0x63]), Some("ab".to_owned()));
    assert_eq!(link_target(&vec![0, 0x61]), None);
    assert_eq!(link_target(&vec![0x61]), None);
    assert!(is_listed(&texts(&["a/b", "c"]), "a//b"));
    assert!(!is_listed(&texts(&["a/b", "c"]), "a"));
}

#[test]
fn sounds_are_commands() {
    let list = tracks("assets");
    assert_eq!(list.len(), 3);
    let path = ["assets", "音频", "monster-talk.wav"].iter().collect::<std::path::PathBuf>();
    assert_eq!(
        list[1].open_command(),
        format!("open \"{}\" type waveaudio alias monster_talk", path.display())
    );
    assert_eq!(list[0].volume_command(), "setaudio monster_bgm volume to 500");
    assert_eq!(list[2].volume_command(), "setaudio monster_boom volume to 300");
    let audio = Audio::new(&list, &vec![true, false, true]);
    assert_eq!(audio.aliases, texts(&["monster_bgm", "monster_boom"]));
    assert_eq!(audio.play_loop(), "play monster_bgm repeat");
    assert_eq!(
        audio.play("monster_talk"),
        texts(&["stop monster_talk", "seek monster_talk to start", "play monster_talk"])
    );
    assert_eq!(
        audio.close(),
        texts(&["stop monster_bgm", "close monster_bgm", "stop monster_boom", "close monster_boom"])
    );
}
