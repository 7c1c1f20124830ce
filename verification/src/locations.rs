//! Where the program's files are.

use vstd::prelude::*;

use crate::paths::{join, joined_path, parent, parent_path};
use crate::text::optional_view;
use crate::wide::{decode_lossy, decoded_lossy};

verus! {

/// The directory of the running program, or else the current one.
pub open spec fn resource_directory(program: Option<Seq<char>>) -> Seq<char> {
    match program {
        Some(path) => match parent_path(path) {
            Some(directory) => directory,
            None => "."@,
        },
        None => "."@,
    }
}

/// The directory of the program whose path is `program`, if that is known.
pub fn resource_dir(program: Option<&str>) -> (directory: String)
    ensures
        directory@ == resource_directory(optional_view(program)),
{
    match program {
        Some(path) => match parent(path) {
            Some(directory) => directory,
            None => ".".to_owned(),
        },
        None => ".".to_owned(),
    }
}

/// The uninstall bridge below the program's directory.
pub open spec fn bridge_path(resources: Seq<char>) -> Seq<char> {
    joined_path(
        joined_path(joined_path(joined_path(resources, "assets"@), "tools"@), "bcu-bridge"@),
        "bcu-bridge.exe"@,
    )
}

/// The uninstall bridge of a program in the directory `resources`.
pub fn bcu_bridge_path(resources: &str) -> (path: String)
    ensures
        path@ == bridge_path(resources@),
{
    let assets = join(resources, "assets");
    let tools = join(assets.as_str(), "tools");
    let bridge = join(tools.as_str(), "bcu-bridge");
    join(bridge.as_str(), "bcu-bridge.exe")
}

/// The directory of the user's settings: below the user's local application
/// data where they are known, and else below the program's directory.
pub open spec fn config_directory(local_data: Option<Seq<char>>, resources: Seq<char>) -> Seq<
    char,
> {
    joined_path(
        match local_data {
            Some(directory) => directory,
            None => resources,
        },
        "MonsterDeleter"@,
    )
}

/// The directory of the user's settings.
pub fn user_config_directory(local_data: Option<&str>, resources: &str) -> (path: String)
    ensures
        path@ == config_directory(optional_view(local_data), resources@),
{
    match local_data {
        Some(directory) => join(directory, "MonsterDeleter"),
        None => join(resources, "MonsterDeleter"),
    }
}

/// The settings file in the directory of the user's settings.
pub fn user_config_path(directory: &str) -> (path: String)
    ensures
        path@ == joined_path(directory@, "config.json"@),
{
    join(directory, "config.json")
}

/// The settings file of the older format.
pub fn legacy_user_config_path(directory: &str) -> (path: String)
    ensures
        path@ == joined_path(directory@, "config.toml"@),
{
    join(directory, "config.toml")
}

/// The index of installed programs that the uninstall bridge keeps.
pub fn uninstall_index_path(directory: &str) -> (path: String)
    ensures
        path@ == joined_path(directory@, "uninstall-index.tsv"@),
{
    join(directory, "uninstall-index.tsv")
}

/// The program in the directory of the file at `path`.
pub open spec fn beside(path: Seq<char>) -> Option<Seq<char>> {
    match parent_path(path) {
        Some(directory) => Some(joined_path(directory, "monster-deleter.exe"@)),
        None => None,
    }
}

/// The program in the directory of the file at `path`, where it has one.
pub fn program_beside(path: &str) -> (program: Option<String>)
    ensures
        match program {
            Some(program) => beside(path@) == Some(program@),
            None => beside(path@) is None,
        },
{
    match parent(path) {
        Some(directory) => Some(join(directory.as_str(), "monster-deleter.exe")),
        None => None,
    }
}

/// The program beside the module whose path `buffer` holds in its first
/// `length` units; nothing where the path is empty, does not fit, or has no
/// directory.
pub fn overlay_executable(buffer: &Vec<u16>, length: usize) -> (path: Option<String>)
    ensures
        ({
            let found = beside(decoded_lossy(buffer@.take(length as int)));
            match path {
                Some(path) => 0 < length < buffer@.len() && found == Some(path@),
                None => !(0 < length < buffer@.len()) || found is None,
            }
        }),
{
    if length == 0 || length >= buffer.len() {
        return None;
    }
    let mut units: Vec<u16> = buffer.clone();
    units.truncate(length);
    assert(units@ =~= buffer@.take(length as int));
    let module = decode_lossy(&units);
    program_beside(module.as_str())
}

/// The program's files lie below its own directory, and the user's settings below the
/// user's local data, or below the program's directory where those are not known.
pub proof fn law_files_lie_where_they_belong(
    program: Option<Seq<char>>,
    local_data: Option<Seq<char>>,
    resources: Seq<char>,
)
    ensures
        program is Some && parent_path(program->0) is Some ==> resource_directory(program)
            == parent_path(program->0)->0,
        program is None || parent_path(program->0) is None ==> resource_directory(program) == "."@,
        local_data is Some ==> config_directory(local_data, resources) == joined_path(
            local_data->0,
            "MonsterDeleter"@,
        ),
        local_data is None ==> config_directory(local_data, resources) == joined_path(
            resources,
            "MonsterDeleter"@,
        ),
        ({
            let assets = joined_path(resources, "assets"@);
            let tools = joined_path(assets, "tools"@);
            bridge_path(resources) == joined_path(joined_path(tools, "bcu-bridge"@), "bcu-bridge.exe"@)
        }),
        program is Some && parent_path(program->0) is Some ==> beside(program->0) == Some(
            joined_path(parent_path(program->0)->0, "monster-deleter.exe"@),
        ),
        program is Some && parent_path(program->0) is None ==> beside(program->0) is None,
{
}

} // verus!
