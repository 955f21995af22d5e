//! Where the settings are kept.

use std::path::PathBuf;
use vstd::prelude::*;

verus! {

#[verifier::external_type_specification]
#[verifier::external_body]
pub struct ExPathBuf(std::path::PathBuf);

/// The directory below the home directory that holds the settings.
pub const DEFAULT_KIMI_CONFIG_DIR: &'static str = ".kimi-code";

/// The environment variable that names another directory.
pub const KIMI_HOME_ENV: &'static str = "KIMI_CODE_HOME";

/// The main configuration file.
pub const KIMI_CONFIG_FILE: &'static str = "config.toml";

/// The components of a path, in order, each as text; what is not Unicode shows as the
/// replacement character.
pub uninterp spec fn path_names(path: std::path::PathBuf) -> Seq<Seq<char>>;

/// A name that is one component of a path on every platform.
pub open spec fn is_plain_name(name: Seq<char>) -> bool {
    &&& name.len() > 2
    &&& forall|i: int|
        0 <= i < name.len() ==> (#[trigger] name[i]) != '/' && name[i] != '\\' && name[i] != ':'
}

/// Joining a name to `dir` adds a component. On Windows it may complete the name of a server
/// and its share instead: left out are the paths of one or two components that begin with a
/// backslash, such as `\\server`.
pub open spec fn takes_names(dir: PathBuf) -> bool {
    let names = path_names(dir);
    0 < names.len() < 3 ==> names[0].len() > 0 ==> names[0][0] != '\\'
}

/// `path` is `name` in the directory `dir`.
pub open spec fn is_in(path: PathBuf, dir: PathBuf, name: Seq<char>) -> bool {
    path_names(path) == path_names(dir).push(name)
}

/// The components of `dir` joined with a name, each as text.
pub uninterp spec fn joined_names(dir: std::path::PathBuf, name: Seq<char>) -> Seq<Seq<char>>;

/// `path` is `dir` joined with `name`: `name` in the directory `dir`, where joining adds a
/// component.
pub open spec fn is_joined(path: PathBuf, dir: PathBuf, name: Seq<char>) -> bool {
    &&& path_names(path) == joined_names(dir, name)
    &&& takes_names(dir) ==> is_in(path, dir, name)
}

/// `Path::join` with a plain name: a path that follows from the two alone, and has the
/// components of `dir`, and then `name`, where joining adds a component.
#[verifier::external_body]
pub(crate) fn path_join(dir: &PathBuf, name: &str) -> (r: PathBuf)
    requires
        is_plain_name(name@),
    ensures
        path_names(r) == joined_names(*dir, name@),
        takes_names(*dir) ==> is_in(r, *dir, name@),
{
    dir.join(name)
}

/// `PathBuf::from` on a plain name: the path with this one component.
#[verifier::external_body]
pub(crate) fn path_from(name: &str) -> (r: PathBuf)
    requires
        is_plain_name(name@),
    ensures
        path_names(r) == seq![name@],
{
    PathBuf::from(name)
}

/// `OsStr::is_empty` on a path: whether the path has no components.
#[verifier::external_body]
pub(crate) fn path_is_empty(path: &PathBuf) -> (r: bool)
    ensures
        r == (path_names(*path).len() == 0),
{
    path.as_os_str().is_empty()
}

/// The directory of the settings: the one chosen in the application's own settings, else the
/// one that the environment names, unless that is empty, else the default one below the home
/// directory, or below the working directory where there is no home.
pub fn get_kimi_config_dir(
    override_dir: Option<PathBuf>,
    env_dir: Option<PathBuf>,
    home_dir: Option<PathBuf>,
) -> (r: PathBuf)
    ensures
        match (override_dir, env_dir, home_dir) {
            (Some(chosen), _, _) => r == chosen,
            (None, Some(named), _) if path_names(named).len() > 0 => r == named,
            (None, _, Some(home)) => is_joined(r, home, DEFAULT_KIMI_CONFIG_DIR@),
            (None, _, None) => path_names(r) == seq![DEFAULT_KIMI_CONFIG_DIR@],
        },
{
    proof {
        reveal_strlit(".kimi-code");
    }
    if let Some(chosen) = override_dir {
        return chosen;
    }
    if let Some(named) = env_dir {
        if !path_is_empty(&named) {
            return named;
        }
    }
    match home_dir {
        Some(home) => path_join(&home, DEFAULT_KIMI_CONFIG_DIR),
        None => path_from(DEFAULT_KIMI_CONFIG_DIR),
    }
}

/// The main configuration file in the directory of the settings.
pub fn get_kimi_config_path(dir: &PathBuf) -> (r: PathBuf)
    ensures
        is_joined(r, *dir, KIMI_CONFIG_FILE@),
{
    proof {
        reveal_strlit("config.toml");
    }
    path_join(dir, KIMI_CONFIG_FILE)
}

/// The file of the MCP servers in the directory of the settings.
pub fn get_kimi_mcp_path(dir: &PathBuf) -> (r: PathBuf)
    ensures
        is_joined(r, *dir, "mcp.json"@),
{
    proof {
        reveal_strlit("mcp.json");
    }
    path_join(dir, "mcp.json")
}

/// The directory of the skills in the directory of the settings.
pub fn get_kimi_skills_dir(dir: &PathBuf) -> (r: PathBuf)
    ensures
        is_joined(r, *dir, "skills"@),
{
    proof {
        reveal_strlit("skills");
    }
    path_join(dir, "skills")
}

/// The file of the global instructions in the directory of the settings.
pub fn get_kimi_agents_md_path(dir: &PathBuf) -> (r: PathBuf)
    ensures
        is_joined(r, *dir, "AGENTS.md"@),
{
    proof {
        reveal_strlit("AGENTS.md");
    }
    path_join(dir, "AGENTS.md")
}

/// The configuration file, the file of the MCP servers, the directory of the skills and the
/// file of the instructions are four, side by side in the directory of the settings. Left out
/// are the directories to which joining does not add a component.
pub proof fn law_files_lie_side_by_side(
    dir: PathBuf,
    config: PathBuf,
    mcp: PathBuf,
    skills: PathBuf,
    instructions: PathBuf,
)
    requires
        takes_names(dir),
        is_joined(config, dir, KIMI_CONFIG_FILE@),
        is_joined(mcp, dir, "mcp.json"@),
        is_joined(skills, dir, "skills"@),
        is_joined(instructions, dir, "AGENTS.md"@),
    ensures
        path_names(config).drop_last() == path_names(dir),
        path_names(mcp).drop_last() == path_names(dir),
        path_names(skills).drop_last() == path_names(dir),
        path_names(instructions).drop_last() == path_names(dir),
        path_names(config) != path_names(mcp),
        path_names(config) != path_names(skills),
        path_names(config) != path_names(instructions),
        path_names(mcp) != path_names(skills),
        path_names(mcp) != path_names(instructions),
        path_names(skills) != path_names(instructions),
{
    reveal_strlit("config.toml");
    reveal_strlit("mcp.json");
    reveal_strlit("skills");
    reveal_strlit("AGENTS.md");
    assert(KIMI_CONFIG_FILE@.len() == 11 && "mcp.json"@.len() == 8 && "skills"@.len() == 6
        && "AGENTS.md"@.len() == 9);
    assert(path_names(config).last() == KIMI_CONFIG_FILE@);
    assert(path_names(mcp).last() == "mcp.json"@);
    assert(path_names(skills).last() == "skills"@);
    assert(path_names(instructions).last() == "AGENTS.md"@);
    assert(path_names(config).drop_last() =~= path_names(dir));
    assert(path_names(mcp).drop_last() =~= path_names(dir));
    assert(path_names(skills).drop_last() =~= path_names(dir));
    assert(path_names(instructions).drop_last() =~= path_names(dir));
}

} // verus!
