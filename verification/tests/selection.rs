use monster_deleter::locations::{
    bcu_bridge_path, legacy_user_config_path, overlay_executable, program_beside, resource_dir,
    uninstall_index_path, user_config_directory, user_config_path,
};
use monster_deleter::selection::{
    is_acknowledgement, path_list, receive_selection, selection_packet, BrokerWait, ReceiveFailure,
    SelectionBatch, SELECTION_BROKER_ADDR, SELECTION_BROKER_MAX_PACKET,
};
use monster_deleter::shell::{
    after_submission, class_request, elevation_parameters, instance_request, launch_mode,
    owns_mutex, recycle_failure_code, recycle_list, recycle_outcome, result_of_code,
    selection_arguments, was_started, Failure, LaunchMode, Submission, ACCESS_DENIED_RESULT,
    CLASS_E_CLASSNOTAVAILABLE, CLASS_E_NOAGGREGATION, COMMAND_CLASS, DE_ACCESSDENIEDSRC,
    ERROR_ACCESS_DENIED, ERROR_CANCELLED, E_POINTER,
};
use monster_deleter::overlay::state::RecycleOutcome;
use monster_deleter::wide::{decode, decode_lossy, pair_bytes, until_zero, wide};

fn texts(list: &[&str]) -> Vec<String> {
    list.iter().map(|text| (*text).to_owned()).collect()
}

#[test]
fn maps_legacy_shell_access_denied_to_a_uac_retry() {
    assert_eq!(
        recycle_failure_code(DE_ACCESSDENIEDSRC, false),
        Some(ERROR_ACCESS_DENIED)
    );
    assert_eq!(recycle_failure_code(0, true), Some(ERROR_CANCELLED));
    assert_eq!(recycle_failure_code(0, false), None);
}

#[test]
fn other_shell_failures_keep_their_code() {
    assert_eq!(recycle_failure_code(2, true), Some(2));
    assert_eq!(recycle_failure_code(-1, false), Some(u32::MAX));
    assert_eq!(recycle_failure_code(5, false), Some(ERROR_ACCESS_DENIED));
    assert_eq!(result_of_code(ERROR_ACCESS_DENIED), ACCESS_DENIED_RESULT);
    assert_eq!(result_of_code(0), 0);
    assert_eq!(result_of_code(0x8007_0002), 0x8007_0002);
    assert_eq!(result_of_code(0x1_0002), 0x8007_0002);
}

#[test]
fn missing_rights_are_told_from_other_failures() {
    let denied = Failure { result: ACCESS_DENIED_RESULT, message: "no".to_owned() };
    assert!(matches!(recycle_outcome(Some(denied)), RecycleOutcome::AccessDenied));
    let other = Failure { result: 0x8007_0002, message: "gone".to_owned() };
    assert!(matches!(recycle_outcome(Some(other)), RecycleOutcome::Failed(text) if text == "gone"));
    assert!(matches!(recycle_outcome(None), RecycleOutcome::Done));
}

#[test]
fn the_shell_gets_a_list_that_ends_twice() {
    let paths = vec![vec![1, 2], vec![3]];
    assert_eq!(recycle_list(&paths), vec![1, 2, 0, 3, 0, 0]);
    assert_eq!(recycle_list(&Vec::new()), vec![0]);
}

#[test]
fn packets_carry_the_selection() {
    let paths = texts(&["C:\\a b", "D:\\小怪兽😀"]);
    let packet = selection_packet(&paths).unwrap();
    let expected: Vec<u8> = "C:\\a b\0D:\\小怪兽😀\0"
        .encode_utf16()
        .flat_map(u16::to_le_bytes)
        .collect();
    assert_eq!(packet, expected);
    assert_eq!(receive_selection(&packet), paths);
}

#[test]
fn unreasonable_packets_are_dropped() {
    assert_eq!(receive_selection(&Vec::new()), Vec::<String>::new());
    assert_eq!(receive_selection(&vec![b'a', 0, 0]), Vec::<String>::new());
    assert_eq!(
        receive_selection(&vec![1; SELECTION_BROKER_MAX_PACKET + 2]),
        Vec::<String>::new()
    );
    assert_eq!(receive_selection(&vec![1; SELECTION_BROKER_MAX_PACKET]).len(), 1);
    let broken = vec![0x00, 0xd8, 0, 0, b'a', 0];
    assert_eq!(receive_selection(&broken), texts(&["a"]));
    let empty_names = vec![0, 0, 0, 0, b'a', 0, 0, 0];
    assert_eq!(receive_selection(&empty_names), texts(&["a"]));
}

#[test]
fn too_long_selections_are_not_sent() {
    let longest = "x".repeat(SELECTION_BROKER_MAX_PACKET / 2 - 1);
    assert_eq!(
        selection_packet(&vec![longest.clone()]).map(|packet| packet.len()),
        Some(SELECTION_BROKER_MAX_PACKET)
    );
    assert!(selection_packet(&vec![longest + "x"]).is_none());
    assert_eq!(selection_packet(&Vec::new()), Some(Vec::new()));
}

#[test]
fn acknowledgements_are_one_byte() {
    assert!(is_acknowledgement(&vec![1]));
    assert!(!is_acknowledgement(&vec![0]));
    assert!(!is_acknowledgement(&Vec::new()));
    assert!(!is_acknowledgement(&vec![1, 1]));
    assert_eq!(SELECTION_BROKER_ADDR, "127.0.0.1:39618");
}

#[test]
fn batches_are_sorted_and_hold_each_path_once() {
    let mut batch = SelectionBatch::new();
    batch.receive(texts(&["b", "a/x"]), 5);
    batch.receive(Vec::new(), 6);
    batch.receive(texts(&["a//x", "a"]), 7);
    assert_eq!(batch.first_received, Some(5));
    assert_eq!(batch.finish(), texts(&["a", "a/x", "b"]));
    assert_eq!(SelectionBatch::new().finish(), Vec::<String>::new());
}

#[test]
fn brokers_wait_for_the_window_or_the_limit() {
    let mut batch = SelectionBatch::new();
    assert!(matches!(batch.idle(ReceiveFailure::WouldBlock, 2999), BrokerWait::Sleep));
    assert!(matches!(batch.idle(ReceiveFailure::ConnectionReset, 3000), BrokerWait::Finish));
    assert!(matches!(batch.idle(ReceiveFailure::Other, 0), BrokerWait::Finish));
    batch.receive(texts(&["a"]), 100);
    assert!(matches!(batch.idle(ReceiveFailure::WouldBlock, 1099), BrokerWait::Sleep));
    assert!(matches!(batch.idle(ReceiveFailure::WouldBlock, 1100), BrokerWait::Finish));
}

#[test]
fn utf16_is_written_and_read() {
    assert_eq!(wide("a😀"), vec![0x61, 0xd83d, 0xde00, 0]);
    assert_eq!(decode(&vec![0x61, 0xd83d, 0xde00]), Some("a😀".to_owned()));
    assert_eq!(decode(&vec![0xde00]), None);
    assert_eq!(decode(&vec![0xd83d]), None);
    for units in [vec![0xde00, 0x61], vec![0xd83d, 0x61], vec![0xd83d, 0xd83d, 0xde00]] {
        assert_eq!(decode_lossy(&units), String::from_utf16_lossy(&units));
    }
    assert_eq!(until_zero(&vec![1, 2, 0, 3]), vec![1, 2]);
    assert_eq!(pair_bytes(&vec![1, 2, 3]), vec![0x0201]);
    assert_eq!(path_list(&texts(&["ab", ""])), vec![0x61, 0x62, 0, 0]);
}

#[test]
fn elevation_quotes_every_target() {
    assert_eq!(
        elevation_parameters(&texts(&["C:\\a b", "c"])),
        "--elevated-delete \"C:\\a b\" \"c\""
    );
    assert_eq!(elevation_parameters(&Vec::new()), "--elevated-delete");
}

#[test]
fn arguments_choose_the_mode() {
    assert_eq!(launch_mode(&texts(&["--selection-broker"])) == LaunchMode::SelectionBroker, true);
    assert!(launch_mode(&texts(&["--settings", "x"])) == LaunchMode::Settings);
    assert!(launch_mode(&texts(&["--elevated-delete", "x"])) == LaunchMode::ElevatedDelete(1));
    assert!(launch_mode(&texts(&["x", "--settings"])) == LaunchMode::Overlay(0));
    assert!(launch_mode(&Vec::new()) == LaunchMode::Overlay(0));
    let arguments = selection_arguments(&texts(&["--settings", "b"]));
    assert_eq!(arguments, texts(&["--run-selection", "--settings", "b"]));
    assert!(launch_mode(&arguments) == LaunchMode::Overlay(1));
}

#[test]
fn small_answers_of_the_system_are_read() {
    assert!(was_started(33));
    assert!(!was_started(32));
    assert!(!was_started(-1));
    assert!(owns_mutex(0));
    assert!(owns_mutex(0x80));
    assert!(!owns_mutex(0x102));
}

#[test]
fn helpers_try_eighty_times() {
    assert!(after_submission(0, true) == Submission::Done);
    assert!(after_submission(78, false) == Submission::Again);
    assert!(after_submission(79, false) == Submission::GiveUp);
    assert!(after_submission(u32::MAX, false) == Submission::GiveUp);
}

#[test]
fn only_the_command_class_is_handed_out() {
    assert_eq!(class_request(false, Some(COMMAND_CLASS)), Some(E_POINTER));
    assert_eq!(class_request(true, Some(1)), Some(CLASS_E_CLASSNOTAVAILABLE));
    assert_eq!(class_request(true, Some(COMMAND_CLASS)), None);
    assert_eq!(instance_request(false, true), Some(E_POINTER));
    assert_eq!(instance_request(true, true), Some(CLASS_E_NOAGGREGATION));
    assert_eq!(instance_request(true, false), None);
}

fn under(parts: &[&str]) -> String {
    parts.iter().collect::<std::path::PathBuf>().to_str().unwrap().to_owned()
}

#[test]
fn files_are_where_they_belong() {
    assert_eq!(resource_dir(Some(&under(&["a", "b.exe"]))), "a");
    assert_eq!(resource_dir(None), ".");
    assert_eq!(resource_dir(Some("")), ".");
    assert_eq!(
        bcu_bridge_path("r"),
        under(&["r", "assets", "tools", "bcu-bridge", "bcu-bridge.exe"])
    );
    assert_eq!(user_config_directory(Some("l"), "r"), under(&["l", "MonsterDeleter"]));
    assert_eq!(user_config_directory(None, "r"), under(&["r", "MonsterDeleter"]));
    assert_eq!(user_config_path("d"), under(&["d", "config.json"]));
    assert_eq!(legacy_user_config_path("d"), under(&["d", "config.toml"]));
    assert_eq!(uninstall_index_path("d"), under(&["d", "uninstall-index.tsv"]));
    assert_eq!(
        program_beside(&under(&["d", "x.dll"])),
        Some(under(&["d", "monster-deleter.exe"]))
    );
    assert_eq!(program_beside(""), None);
}

#[test]
fn modules_name_the_program_beside_them() {
    let mut buffer: Vec<u16> = under(&["d", "x.dll"]).encode_utf16().collect();
    let length = buffer.len();
    buffer.push(0);
    assert_eq!(
        overlay_executable(&buffer, length),
        Some(under(&["d", "monster-deleter.exe"]))
    );
    assert_eq!(overlay_executable(&buffer, 0), None);
    assert_eq!(overlay_executable(&buffer, length + 1), None);
}
