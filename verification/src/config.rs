//! The user's settings: when and how programs are offered for removal.

use vstd::prelude::*;

use crate::json::{
    as_array, as_bool, as_str, from_bool, from_list, from_pairs, from_text, get, is_section,
    is_setting, is_settings_document, json_tree, member, object_of, pair_views, parse,
    parsed_json, pretty_json, to_pretty, trees, JsonTree,
};
use crate::paths::{file_name, file_name_of};
use crate::patterns::{any_match, matches_uninstall_patterns, regex_match};
use crate::picking::{is_pick, lemma_pick_grows};
use crate::text::{contains_text, has_text, optional_view, same_text, views};

verus! {

/// The settings of the uninstall feature.
pub struct UninstallConfig {
    pub enabled: bool,
    pub mode: String,
    /// Which names a single selected item must have to be looked at.
    pub target_patterns: Vec<String>,
    /// Which names the items of a larger selection must have.
    pub batch_target_patterns: Vec<String>,
}

/// What an [`UninstallConfig`] reads.
#[verifier::ext_equal]
pub struct ConfigView {
    pub enabled: bool,
    pub mode: Seq<char>,
    pub target_patterns: Seq<Seq<char>>,
    pub batch_target_patterns: Seq<Seq<char>>,
}

impl View for UninstallConfig {
    type V = ConfigView;

    open spec fn view(&self) -> ConfigView {
        ConfigView {
            enabled: self.enabled,
            mode: self.mode@,
            target_patterns: views(self.target_patterns@),
            batch_target_patterns: views(self.batch_target_patterns@),
        }
    }
}

/// The settings of a user who has none: official uninstallers are offered, for
/// shortcuts and programs, and in a larger selection for shortcuts alone.
pub open spec fn default_config() -> ConfigView {
    ConfigView {
        enabled: true,
        mode: "official"@,
        target_patterns: seq!["(?i)^.*\\.lnk$"@, "(?i)^.*\\.exe$"@],
        batch_target_patterns: seq!["(?i)^.*\\.lnk$"@],
    }
}

impl Default for UninstallConfig {
    fn default() -> (config: Self)
        ensures
            config@ == default_config(),
    {
        let mut target_patterns: Vec<String> = Vec::new();
        target_patterns.push("(?i)^.*\\.lnk$".to_owned());
        target_patterns.push("(?i)^.*\\.exe$".to_owned());
        let mut batch_target_patterns: Vec<String> = Vec::new();
        batch_target_patterns.push("(?i)^.*\\.lnk$".to_owned());
        let config = UninstallConfig {
            enabled: true,
            mode: "official".to_owned(),
            target_patterns,
            batch_target_patterns,
        };
        assert(config@ =~= default_config());
        config
    }
}

/// The texts among the elements of a list.
pub open spec fn texts_of(items: Seq<JsonTree>) -> Seq<Seq<char>>
    decreases items.len(),
{
    if items.len() == 0 {
        Seq::empty()
    } else {
        let before = texts_of(items.drop_last());
        match items.last() {
            JsonTree::Text(text) => before.push(text),
            _ => before,
        }
    }
}

pub open spec fn bool_setting(section: JsonTree, key: Seq<char>, otherwise: bool) -> bool {
    match member(section, key) {
        Some(JsonTree::Bool(value)) => value,
        _ => otherwise,
    }
}

pub open spec fn text_setting(
    section: JsonTree,
    key: Seq<char>,
    otherwise: Seq<char>,
) -> Seq<char> {
    match member(section, key) {
        Some(JsonTree::Text(text)) => text,
        _ => otherwise,
    }
}

pub open spec fn list_setting(
    section: JsonTree,
    key: Seq<char>,
    otherwise: Seq<Seq<char>>,
) -> Seq<Seq<char>> {
    match member(section, key) {
        Some(JsonTree::List(items)) => texts_of(items),
        _ => otherwise,
    }
}

/// The settings that a document holds: each one that is there with the right
/// type, and the default for every other.
pub open spec fn config_of_tree(tree: JsonTree) -> ConfigView {
    match member(tree, "uninstall"@) {
        Some(section) => ConfigView {
            enabled: bool_setting(section, "enabled"@, default_config().enabled),
            mode: text_setting(section, "mode"@, default_config().mode),
            target_patterns: list_setting(
                section,
                "target_patterns"@,
                default_config().target_patterns,
            ),
            batch_target_patterns: list_setting(
                section,
                "batch_target_patterns"@,
                default_config().batch_target_patterns,
            ),
        },
        None => default_config(),
    }
}

/// The settings that a file of the older format holds.
pub open spec fn legacy_config(text: Seq<char>) -> ConfigView {
    ConfigView {
        enabled: !has_text(text, "enabled = false"@),
        mode: if has_text(text, "mode = \"silent\""@) || has_text(
            text,
            "mode = \"force_silent\""@,
        ) {
            "silent"@
        } else {
            "official"@
        },
        ..default_config()
    }
}

/// The settings that the two files give, `contents` being that of the present
/// format; a file that could not be read is nothing.
pub open spec fn config_read(contents: Option<Seq<char>>, legacy: Option<Seq<char>>) -> ConfigView {
    if contents is Some && parsed_json(contents->0) is Some {
        config_of_tree(parsed_json(contents->0)->0)
    } else if legacy is Some {
        legacy_config(legacy->0)
    } else {
        default_config()
    }
}

/// Whether the settings come from the older file and are to be written anew.
pub open spec fn needs_migration(contents: Option<Seq<char>>, legacy: Option<Seq<char>>) -> bool {
    !(contents is Some && parsed_json(contents->0) is Some) && legacy is Some
}

fn read_list(items: &Vec<serde_json::Value>) -> (texts: Vec<String>)
    ensures
        views(texts@) == texts_of(trees(items@)),
{
    let mut texts: Vec<String> = Vec::new();
    let ghost all = trees(items@);
    let mut i: usize = 0;
    assert(views(texts@) =~= Seq::<Seq<char>>::empty());
    while i < items.len()
        invariant
            i <= items@.len(),
            all == trees(items@),
            views(texts@) == texts_of(all.take(i as int)),
        decreases items@.len() - i,
    {
        let ghost before = views(texts@);
        match as_str(&items[i]) {
            Some(text) => {
                texts.push(text.to_owned());
                assert(views(texts@) =~= before.push(text@));
            },
            None => {},
        }
        i = i + 1;
        assert(all.take(i as int).drop_last() =~= all.take(i - 1));
    }
    assert(all.take(i as int) =~= all);
    texts
}

/// The settings in a document that `serde_json` has read.
fn config_in(document: &serde_json::Value) -> (config: UninstallConfig)
    ensures
        config@ == config_of_tree(json_tree(*document)),
{
    let mut config = UninstallConfig::default();
    match get(document, "uninstall") {
        Some(section) => {
            match get(section, "enabled") {
                Some(value) => match as_bool(value) {
                    Some(enabled) => {
                        config.enabled = enabled;
                    },
                    None => {},
                },
                None => {},
            }
            match get(section, "mode") {
                Some(value) => match as_str(value) {
                    Some(mode) => {
                        config.mode = mode.to_owned();
                    },
                    None => {},
                },
                None => {},
            }
            match get(section, "target_patterns") {
                Some(value) => match as_array(value) {
                    Some(items) => {
                        config.target_patterns = read_list(items);
                    },
                    None => {},
                },
                None => {},
            }
            match get(section, "batch_target_patterns") {
                Some(value) => match as_array(value) {
                    Some(items) => {
                        config.batch_target_patterns = read_list(items);
                    },
                    None => {},
                },
                None => {},
            }
            assert(config@ =~= config_of_tree(json_tree(*document)));
        },
        None => {},
    }
    config
}

/// The settings that the two settings files give, and whether they are to be
/// written anew because they come from the older file.
pub fn read_uninstall_config(contents: Option<&str>, legacy: Option<&str>) -> (read: (
    UninstallConfig,
    bool,
))
    ensures
        read.0@ == config_read(optional_view(contents), optional_view(legacy)),
        read.1 == needs_migration(optional_view(contents), optional_view(legacy)),
{
    match contents {
        Some(text) => match parse(text) {
            Ok(document) => {
                return (config_in(&document), false);
            },
            Err(_) => {},
        },
        None => {},
    }
    match legacy {
        Some(text) => {
            let mut config = UninstallConfig::default();
            config.enabled = !contains_text(text, "enabled = false");
            config.mode = if contains_text(text, "mode = \"silent\"") || contains_text(
                text,
                "mode = \"force_silent\"",
            ) {
                "silent".to_owned()
            } else {
                "official".to_owned()
            };
            assert(config@ =~= legacy_config(text@));
            (config, true)
        },
        None => (UninstallConfig::default(), false),
    }
}

/// A list of texts as a document.
pub open spec fn list_tree(texts: Seq<Seq<char>>) -> JsonTree {
    JsonTree::List(Seq::new(texts.len(), |i: int| JsonTree::Text(texts[i])))
}

/// The settings as a document.
pub open spec fn config_tree(config: ConfigView) -> JsonTree {
    JsonTree::Object(
        map![
            "uninstall"@ => JsonTree::Object(
                map![
                    "enabled"@ => JsonTree::Bool(config.enabled),
                    "mode"@ => JsonTree::Text(config.mode),
                    "target_patterns"@ => list_tree(config.target_patterns),
                    "batch_target_patterns"@ => list_tree(config.batch_target_patterns),
                    "cleanup_after_uninstall"@ => JsonTree::Bool(false)
                ],
            )
        ],
    )
}

proof fn lemma_keys_differ()
    ensures
        "enabled"@.len() == 7,
        "mode"@.len() == 4,
        "target_patterns"@.len() == 15,
        "batch_target_patterns"@.len() == 21,
        "cleanup_after_uninstall"@.len() == 23,
{
    reveal_strlit("enabled");
    reveal_strlit("mode");
    reveal_strlit("target_patterns");
    reveal_strlit("batch_target_patterns");
    reveal_strlit("cleanup_after_uninstall");
}

proof fn lemma_texts_of_list(texts: Seq<Seq<char>>)
    ensures
        texts_of(list_tree(texts)->List_0) == texts,
    decreases texts.len(),
{
    let items = list_tree(texts)->List_0;
    if texts.len() > 0 {
        lemma_texts_of_list(texts.drop_last());
        assert(items.drop_last() =~= list_tree(texts.drop_last())->List_0);
        assert(texts.drop_last().push(texts.last()) =~= texts);
    } else {
        assert(texts_of(items) =~= texts);
    }
}

/// Writing settings as a document and reading the document gives them back.
pub proof fn law_settings_survive_document(config: ConfigView)
    ensures
        config_of_tree(config_tree(config)) == config,
{
    lemma_keys_differ();
    lemma_texts_of_list(config.target_patterns);
    lemma_texts_of_list(config.batch_target_patterns);
    assert(config_of_tree(config_tree(config)) =~= config);
}

fn write_list(texts: &Vec<String>) -> (document: serde_json::Value)
    ensures
        json_tree(document) == list_tree(views(texts@)),
{
    let mut items: Vec<serde_json::Value> = Vec::new();
    let mut i: usize = 0;
    while i < texts.len()
        invariant
            i <= texts@.len(),
            items@.len() == i,
            forall|j: int|
                0 <= j < i ==> json_tree(#[trigger] items@[j]) == JsonTree::Text(texts@[j]@),
        decreases texts@.len() - i,
    {
        items.push(from_text(texts[i].as_str()));
        i = i + 1;
    }
    assert(trees(items@) =~= list_tree(views(texts@))->List_0);
    from_list(items)
}

/// The text of the settings file for `config`. Reading that text gives the same
/// settings again.
pub fn write_uninstall_config(config: &UninstallConfig) -> (text: String)
    ensures
        text@ == pretty_json(config_tree(config@)).push('\n'),
        parsed_json(text@) == Some(config_tree(config@)),
        config_of_tree(config_tree(config@)) == config@,
{
    let mut section: Vec<(String, serde_json::Value)> = Vec::new();
    section.push(("enabled".to_owned(), from_bool(config.enabled)));
    section.push(("mode".to_owned(), from_text(config.mode.as_str())));
    section.push(("target_patterns".to_owned(), write_list(&config.target_patterns)));
    section.push(("batch_target_patterns".to_owned(), write_list(&config.batch_target_patterns)));
    section.push(("cleanup_after_uninstall".to_owned(), from_bool(false)));
    let ghost inner = pair_views(section@);
    proof {
        lemma_keys_differ();
    }
    let section = from_pairs(section);
    let mut whole: Vec<(String, serde_json::Value)> = Vec::new();
    whole.push(("uninstall".to_owned(), section));
    let ghost outer = pair_views(whole@);
    let document = from_pairs(whole);
    proof {
        let tree = config_tree(config@);
        let members = member(tree, "uninstall"@)->0->Object_0;
        reveal_with_fuel(object_of, 6);
        assert(object_of(inner) =~= members);
        assert(object_of(outer) =~= tree->Object_0);
        assert(is_setting(list_tree(config@.target_patterns)));
        assert(is_setting(list_tree(config@.batch_target_patterns)));
        assert(is_section(JsonTree::Object(members)));
        assert(is_settings_document(tree));
        law_settings_survive_document(config@);
    }
    let mut text = match to_pretty(&document) {
        Ok(text) => text,
        Err(_) => String::new(),
    };
    text.push('\n');
    text
}

/// The settings after the user has answered whether the feature is on, and
/// whether uninstallers run silently; the patterns stay.
pub open spec fn with_answers(
    config: ConfigView,
    uninstall_enabled: bool,
    silent_execution: bool,
) -> ConfigView {
    ConfigView {
        enabled: uninstall_enabled,
        mode: if uninstall_enabled && silent_execution {
            "silent"@
        } else {
            "official"@
        },
        ..config
    }
}

/// Puts the user's answers into the settings and gives the text of the new
/// settings file.
pub fn write_user_config(
    config: &mut UninstallConfig,
    uninstall_enabled: bool,
    silent_execution: bool,
) -> (text: String)
    ensures
        final(config)@ == with_answers(old(config)@, uninstall_enabled, silent_execution),
        text@ == pretty_json(config_tree(final(config)@)).push('\n'),
        parsed_json(text@) == Some(config_tree(final(config)@)),
{
    config.enabled = uninstall_enabled;
    config.mode = if uninstall_enabled && silent_execution {
        "silent".to_owned()
    } else {
        "official".to_owned()
    };
    assert(config@ =~= with_answers(old(config)@, uninstall_enabled, silent_execution));
    write_uninstall_config(config)
}

/// Whether the settings ask for silent uninstallers.
pub open spec fn is_silent(config: ConfigView) -> bool {
    config.enabled && (config.mode == "silent"@ || config.mode == "force_silent"@)
}

/// Whether programs are offered for removal.
pub fn uninstall_feature_enabled(config: &UninstallConfig) -> (enabled: bool)
    ensures
        enabled == config@.enabled,
{
    config.enabled
}

/// Whether uninstallers run silently.
pub fn uninstall_silent_execution_enabled(config: &UninstallConfig) -> (silent: bool)
    ensures
        silent == is_silent(config@),
{
    config.enabled && (same_text(config.mode.as_str(), "silent") || same_text(
        config.mode.as_str(),
        "force_silent",
    ))
}

/// The user's answers are what the settings file says afterwards, however the
/// file came about.
pub proof fn law_answers_are_kept(
    config: ConfigView,
    uninstall_enabled: bool,
    silent_execution: bool,
    text: Seq<char>,
    legacy: Option<Seq<char>>,
)
    requires
        parsed_json(text) == Some(
            config_tree(with_answers(config, uninstall_enabled, silent_execution)),
        ),
    ensures
        config_read(Some(text), legacy) == with_answers(
            config,
            uninstall_enabled,
            silent_execution,
        ),
        config_read(Some(text), legacy).enabled == uninstall_enabled,
        is_silent(config_read(Some(text), legacy)) == (uninstall_enabled && silent_execution),
        config_read(Some(text), legacy).target_patterns == config.target_patterns,
        config_read(Some(text), legacy).batch_target_patterns == config.batch_target_patterns,
        !needs_migration(Some(text), legacy),
{
    law_settings_survive_document(with_answers(config, uninstall_enabled, silent_execution));
    reveal_strlit("official");
    reveal_strlit("silent");
    reveal_strlit("force_silent");
    assert("official"@.len() == 8 && "silent"@.len() == 6 && "force_silent"@.len() == 12);
}

/// Settings that were taken over from the older file are read again as they
/// were, from the file that was written for them.
pub proof fn law_migration_keeps_settings(
    contents: Option<Seq<char>>,
    legacy: Option<Seq<char>>,
    text: Seq<char>,
)
    requires
        needs_migration(contents, legacy),
        parsed_json(text) == Some(config_tree(config_read(contents, legacy))),
    ensures
        config_read(Some(text), legacy) == config_read(contents, legacy),
        !needs_migration(Some(text), legacy),
{
    law_settings_survive_document(config_read(contents, legacy));
}

/// Whether the file name of `path` matches one of the patterns.
pub open spec fn name_matches(path: Seq<char>, patterns: Seq<Seq<char>>) -> bool {
    match file_name_of(path) {
        Some(name) => any_match(patterns, name),
        None => false,
    }
}

fn path_matches(path: &str, patterns: &Vec<String>) -> (found: bool)
    ensures
        found == name_matches(path@, views(patterns@)),
{
    match file_name(path) {
        Some(name) => matches_uninstall_patterns(name.as_str(), patterns),
        None => false,
    }
}

/// Whether a single selected item is looked at for a program to uninstall.
pub fn uninstall_target_matches_config(path: &str, config: &UninstallConfig) -> (found: bool)
    ensures
        found == name_matches(path@, config@.target_patterns),
{
    path_matches(path, &config.target_patterns)
}

/// Whether an item of a larger selection is looked at for a program to
/// uninstall.
pub fn batch_uninstall_target_matches_config(path: &str, config: &UninstallConfig) -> (found: bool)
    ensures
        found == name_matches(path@, config@.batch_target_patterns),
{
    path_matches(path, &config.batch_target_patterns)
}

/// The question whether the uninstall feature shall be on.
pub open spec fn uninstall_prompt_text(enabled: bool, path: Seq<char>) -> Seq<char> {
    "当前："@ + (if enabled {
        "已启用"@
    } else {
        "未启用"@
    })
        + "。\n\n启用卸载功能吗？\n\n启用后，确认删除软件快捷方式时，会额外询问是否调用该软件的官方卸载程序；关闭后始终执行原有的小怪兽删除逻辑。\n\n设置保存在："@
        + path
}

/// The question whether the uninstall feature shall be on. It says whether it is,
/// and where the settings are kept.
pub fn uninstall_prompt(config: &UninstallConfig, path: &str) -> (prompt: String)
    ensures
        prompt@ == uninstall_prompt_text(config@.enabled, path@),
{
    let mut prompt = "当前：".to_owned();
    if config.enabled {
        prompt.append("已启用");
    } else {
        prompt.append("未启用");
    }
    prompt.append(
        "。\n\n启用卸载功能吗？\n\n启用后，确认删除软件快捷方式时，会额外询问是否调用该软件的官方卸载程序；关闭后始终执行原有的小怪兽删除逻辑。\n\n设置保存在：",
    );
    prompt.append(path);
    prompt
}

/// The question whether uninstallers shall run without being seen.
pub open spec fn silent_prompt_text(silent: bool) -> Seq<char> {
    "当前："@ + (if silent {
        "静默执行"@
    } else {
        "正常执行"@
    })
        + "。\n\n让卸载功能静默执行吗？\n\n选择“是”会尽量跳过软件自身的卸载界面；仍可能显示 UAC 或厂商窗口。选择“否”则使用官方卸载界面。"@
}

/// The question whether uninstallers shall run without being seen. It says
/// whether they do.
pub fn silent_prompt(config: &UninstallConfig) -> (prompt: String)
    ensures
        prompt@ == silent_prompt_text(is_silent(config@)),
{
    let mut prompt = "当前：".to_owned();
    if uninstall_silent_execution_enabled(config) {
        prompt.append("静默执行");
    } else {
        prompt.append("正常执行");
    }
    prompt.append(
        "。\n\n让卸载功能静默执行吗？\n\n选择“是”会尽量跳过软件自身的卸载界面；仍可能显示 UAC 或厂商窗口。选择“否”则使用官方卸载界面。",
    );
    prompt
}

/// The texts of a list of settings are read in their order; what is no text is
/// passed over.
pub proof fn law_lists_give_their_texts(items: Seq<JsonTree>)
    ensures
        is_pick(
            texts_of(items),
            items.len(),
            |k: int| items[k] is Text,
            |k: int| items[k]->Text_0,
        ),
    decreases items.len(),
{
    if items.len() > 0 {
        let front = items.drop_last();
        law_lists_give_their_texts(front);
        lemma_pick_grows(
            texts_of(front),
            |k: int| front[k] is Text,
            |k: int| front[k]->Text_0,
            texts_of(items),
            items.len(),
            |k: int| items[k] is Text,
            |k: int| items[k]->Text_0,
        );
    }
}

/// Whether the settings are those of a user who has none: official uninstallers are
/// offered for one shortcut or program, and of several items for shortcuts.
pub open spec fn is_default(config: ConfigView) -> bool {
    &&& config.enabled
    &&& config.mode == "official"@
    &&& config.target_patterns == seq!["(?i)^.*\\.lnk$"@, "(?i)^.*\\.exe$"@]
    &&& config.batch_target_patterns == seq!["(?i)^.*\\.lnk$"@]
}

/// Each setting is read under its own key of the section, and is what it is by
/// default where that key is missing or holds something of another type. A document
/// without the section has the default settings.
pub proof fn law_settings_are_read_by_their_keys(
    members: Map<Seq<char>, JsonTree>,
    section: Map<Seq<char>, JsonTree>,
)
    ensures
        is_default(default_config()),
        !members.dom().contains("uninstall"@) ==> is_default(
            config_of_tree(JsonTree::Object(members)),
        ),
        members.dom().contains("uninstall"@) && members["uninstall"@] == JsonTree::Object(section)
            ==> {
            let config = config_of_tree(JsonTree::Object(members));
            let there = |key: Seq<char>| section.dom().contains(key);
            &&& there("enabled"@) && section["enabled"@] is Bool ==> config.enabled
                == section["enabled"@]->Bool_0
            &&& !there("enabled"@) || !(section["enabled"@] is Bool) ==> config.enabled
            &&& there("mode"@) && section["mode"@] is Text ==> config.mode
                == section["mode"@]->Text_0
            &&& !there("mode"@) || !(section["mode"@] is Text) ==> config.mode == "official"@
            &&& there("target_patterns"@) && section["target_patterns"@] is List
                ==> config.target_patterns == texts_of(section["target_patterns"@]->List_0)
            &&& !there("target_patterns"@) || !(section["target_patterns"@] is List)
                ==> config.target_patterns == seq!["(?i)^.*\\.lnk$"@, "(?i)^.*\\.exe$"@]
            &&& there("batch_target_patterns"@) && section["batch_target_patterns"@] is List
                ==> config.batch_target_patterns == texts_of(
                section["batch_target_patterns"@]->List_0,
            )
            &&& !there("batch_target_patterns"@) || !(section["batch_target_patterns"@] is List)
                ==> config.batch_target_patterns == seq!["(?i)^.*\\.lnk$"@]
        },
{
}

/// Settings are written as one section, in which each stands under its own key.
pub proof fn law_settings_are_written_by_their_keys(config: ConfigView)
    ensures
        ({
            let tree = config_tree(config);
            &&& tree is Object
            &&& tree->Object_0.dom() == set!["uninstall"@]
            &&& tree->Object_0["uninstall"@] is Object
            &&& {
                let section = tree->Object_0["uninstall"@]->Object_0;
                &&& section.dom() == set![
                    "enabled"@,
                    "mode"@,
                    "target_patterns"@,
                    "batch_target_patterns"@,
                    "cleanup_after_uninstall"@,
                ]
                &&& section["enabled"@] == JsonTree::Bool(config.enabled)
                &&& section["mode"@] == JsonTree::Text(config.mode)
                &&& section["cleanup_after_uninstall"@] == JsonTree::Bool(false)
                &&& is_list_of(section["target_patterns"@], config.target_patterns)
                &&& is_list_of(section["batch_target_patterns"@], config.batch_target_patterns)
            }
        }),
{
    lemma_keys_differ();
    let tree = config_tree(config);
    let section = tree->Object_0["uninstall"@]->Object_0;
    assert(tree->Object_0.dom() =~= set!["uninstall"@]);
    assert(section.dom() =~= set![
        "enabled"@,
        "mode"@,
        "target_patterns"@,
        "batch_target_patterns"@,
        "cleanup_after_uninstall"@,
    ]);
}

/// Whether the document is the list of the texts, one by one.
pub open spec fn is_list_of(tree: JsonTree, texts: Seq<Seq<char>>) -> bool {
    &&& tree is List
    &&& tree->List_0.len() == texts.len()
    &&& forall|i: int| 0 <= i < texts.len() ==> #[trigger] tree->List_0[i] == JsonTree::Text(texts[i])
}

/// The file of the present format counts where it is a document at all; else that of
/// the older format; and without either the settings are the default ones. Only what
/// comes from the older file is written anew.
pub proof fn law_newer_file_counts_first(contents: Option<Seq<char>>, legacy: Option<Seq<char>>)
    ensures
        contents is Some && parsed_json(contents->0) is Some ==> config_read(contents, legacy)
            == config_of_tree(parsed_json(contents->0)->0) && !needs_migration(contents, legacy),
        (contents matches Some(text) ==> parsed_json(text) is None) && legacy is None
            ==> is_default(config_read(contents, legacy)) && !needs_migration(contents, legacy),
        (contents matches Some(text) ==> parsed_json(text) is None) && legacy is Some ==> {
            let text = legacy->0;
            let config = config_read(contents, legacy);
            &&& needs_migration(contents, legacy)
            &&& config.enabled <==> !has_text(text, "enabled = false"@)
            &&& has_text(text, "mode = \"silent\""@) || has_text(text, "mode = \"force_silent\""@)
                ==> config.mode == "silent"@
            &&& !has_text(text, "mode = \"silent\""@) && !has_text(
                text,
                "mode = \"force_silent\""@,
            ) ==> config.mode == "official"@
            &&& config.target_patterns == seq!["(?i)^.*\\.lnk$"@, "(?i)^.*\\.exe$"@]
            &&& config.batch_target_patterns == seq!["(?i)^.*\\.lnk$"@]
        },
{
}

/// Uninstallers run silently only where they are offered at all and one of the two
/// silent modes is set. Who answers that they shall be silent, but not that they
/// shall be offered, gets official ones.
pub proof fn law_silence_needs_the_feature(config: ConfigView, enabled: bool, silent: bool)
    ensures
        is_silent(config) ==> config.enabled,
        config.enabled && config.mode == "silent"@ ==> is_silent(config),
        config.enabled && config.mode == "force_silent"@ ==> is_silent(config),
        config.mode != "silent"@ && config.mode != "force_silent"@ ==> !is_silent(config),
        ({
            let out = with_answers(config, enabled, silent);
            &&& out.enabled == enabled
            &&& enabled && silent ==> out.mode == "silent"@
            &&& !enabled || !silent ==> out.mode == "official"@
            &&& out.target_patterns == config.target_patterns
            &&& out.batch_target_patterns == config.batch_target_patterns
        }),
{
}

/// An item is looked at where its file name matches a pattern; its directory does not
/// matter, and a path without a file name is not looked at.
pub proof fn law_names_are_matched(path: Seq<char>, patterns: Seq<Seq<char>>, i: int)
    ensures
        file_name_of(path) is None ==> !name_matches(path, patterns),
        file_name_of(path) is Some && 0 <= i < patterns.len() && regex_match(
            patterns[i],
            file_name_of(path)->0,
        ) == Some(true) ==> name_matches(path, patterns),
        (forall|k: int|
            0 <= k < patterns.len() ==> regex_match(#[trigger] patterns[k], file_name_of(path)->0)
                != Some(true)) ==> !name_matches(path, patterns),
{
}

/// The question whether programs shall be offered for removal says first whether
/// they are, and last where that is kept.
pub proof fn law_prompts_say_what_is_set(enabled: bool, silent: bool, path: Seq<char>)
    ensures
        ({
            let prompt = uninstall_prompt_text(enabled, path);
            &&& enabled ==> ("当前："@ + "已启用"@).is_prefix_of(prompt)
            &&& !enabled ==> ("当前："@ + "未启用"@).is_prefix_of(prompt)
            &&& prompt.skip(prompt.len() - path.len()) == path
        }),
        silent ==> ("当前："@ + "静默执行"@).is_prefix_of(silent_prompt_text(silent)),
        !silent ==> ("当前："@ + "正常执行"@).is_prefix_of(silent_prompt_text(silent)),
{
    let prompt = uninstall_prompt_text(enabled, path);
    assert(prompt.skip(prompt.len() - path.len()) =~= path);
}

} // verus!
