//! What the operations on the MCP servers promise, said of the texts before and after.

use crate::error::AppError;
use crate::json::{exact_within, is_exact, json_document, json_pretty, json_tree, member_of, Json};
use crate::mcp::{lemma_entries_at, lemma_entries_contains, read_kimi_mcp_servers_map};
use crate::mcp::{remove_server_from_kimi, root_members, saves_servers, servers_in_value};
use crate::mcp::{set_kimi_mcp_servers_map, sync_single_server_to_kimi, value_with_servers};
use crate::mcp::{with_servers, ServerMap};
use crate::paths::{joined_names, path_names, takes_names};
use crate::round_trips::{law_removed_server_is_gone, law_servers_read_back, law_set_servers_are_read};
use crate::round_trips::law_synced_server_is_read;
use crate::saving::FileWrite;
use crate::text::text_of;
use serde_json::Value;
use std::path::PathBuf;
use vstd::prelude::*;

verus! {

/// `path` is "mcp.json" joined to `dir`.
pub open spec fn is_servers_file(path: PathBuf, dir: PathBuf) -> bool {
    &&& path_names(path) == joined_names(dir, "mcp.json"@)
    &&& takes_names(dir) ==> path_names(path) == path_names(dir).push("mcp.json"@)
}

/// `servers` are the servers in a JSON value: the members of the object under "mcpServers", and
/// none where there is no object.
pub open spec fn are_servers_of(servers: Map<Seq<char>, Json>, root: Json) -> bool {
    match member_of(root, "mcpServers"@) {
        Some(Json::Object(m)) => servers == m,
        _ => servers == Map::<Seq<char>, Json>::empty(),
    }
}

/// `members` are those of a JSON value that is an object, and none of any other.
pub open spec fn are_members_of(members: Map<Seq<char>, Json>, root: Json) -> bool {
    match root {
        Json::Object(m) => members == m,
        _ => members == Map::<Seq<char>, Json>::empty(),
    }
}

/// `servers` are the servers in the file with this text, which is JSON, or not there.
pub open spec fn are_servers_in(servers: Map<Seq<char>, Json>, content: Option<&str>) -> bool {
    match content {
        Some(text) => json_document(text@) matches Ok(root) && are_servers_of(servers, root),
        None => servers == Map::<Seq<char>, Json>::empty(),
    }
}

/// An error says of "mcp.json" in `dir` why it is no JSON.
pub open spec fn blames_servers_file(e: AppError, dir: PathBuf, reason: Seq<char>) -> bool {
    e matches AppError::Json { path, message } && is_servers_file(path, dir) && message@ == reason
}

/// The servers that are read are those in the file, and none where there is no file; a text
/// that is no JSON is refused, with the path and the reason.
pub proof fn law_read_servers_are_in_the_file(
    dir: &PathBuf,
    content: Option<&str>,
    r: Result<ServerMap, AppError>,
)
    requires
        call_ensures(read_kimi_mcp_servers_map, (dir, content), r),
    ensures
        match content {
            Some(text) => match json_document(text@) {
                Ok(root) => r matches Ok(m) && are_servers_of(m@, root),
                Err(reason) => r matches Err(e) && blames_servers_file(e, *dir, reason),
            },
            None => r matches Ok(m) && m@ == Map::<Seq<char>, Json>::empty(),
        },
{
}

/// The servers of a value are the members of the object under "mcpServers".
pub proof fn law_servers_of_a_value(root: &Value, r: ServerMap)
    requires
        call_ensures(servers_in_value, (root,), r),
    ensures
        are_servers_of(r@, json_tree(*root)),
{
}

/// A value with servers has them under "mcpServers", and every other member that the object
/// had before; what was no object, or not there, is an empty one.
pub proof fn law_value_with_servers_keeps_the_rest(
    existing: Option<Value>,
    servers: &ServerMap,
    r: Result<Value, AppError>,
    key: Seq<char>,
)
    requires
        call_ensures(value_with_servers, (existing, servers), r),
    ensures
        r matches Ok(v) && json_tree(v) is Object && member_of(json_tree(v), "mcpServers"@) == Some(
            Json::Object(servers@),
        ) && (key != "mcpServers"@ ==> member_of(json_tree(v), key) == match existing {
            Some(e) => member_of(json_tree(e), key),
            None => None,
        }),
{
}

/// `w` writes these members to "mcp.json" in `dir`, which the owner writes and all read: the
/// servers under "mcpServers", and every other member of the object that was in the file.
pub open spec fn writes_servers(
    w: FileWrite,
    dir: PathBuf,
    content: Option<&str>,
    members: Map<Seq<char>, Json>,
    servers: Map<Seq<char>, Json>,
) -> bool {
    &&& is_servers_file(w.path, dir)
    &&& w.mode == 0o644
    &&& w.content@ == json_pretty(Json::Object(members))
    &&& members.contains_key("mcpServers"@) && members["mcpServers"@] == Json::Object(servers)
    &&& forall|k: Seq<char>|
        k != "mcpServers"@ ==> #[trigger] member_of(Json::Object(members), k) == match content {
            Some(text) => match json_document(text@) {
                Ok(root) => member_of(root, k),
                Err(_) => None,
            },
            None => None,
        }
}

/// What is written with these servers.
proof fn lemma_written(
    w: FileWrite,
    dir: PathBuf,
    content: Option<&str>,
    servers: Map<Seq<char>, Json>,
) -> (members: Map<Seq<char>, Json>)
    requires
        saves_servers(w, dir, with_servers(text_of(content), servers)),
    ensures
        writes_servers(w, dir, content, members, servers),
        with_servers(text_of(content), servers) == Json::Object(members),
{
    root_members(text_of(content)).insert("mcpServers"@, Json::Object(servers))
}

/// Setting the servers always succeeds, and writes them beside what else the file holds; a file
/// that is not there, is no JSON or no object counts as an empty object. The members of what
/// is written come back.
pub proof fn law_set_servers_writes_them(
    dir: &PathBuf,
    content: Option<&str>,
    servers: &ServerMap,
    r: Result<FileWrite, AppError>,
) -> (members: Map<Seq<char>, Json>)
    requires
        call_ensures(set_kimi_mcp_servers_map, (dir, content, servers), r),
    ensures
        r matches Ok(w) && writes_servers(w, *dir, content, members, servers@),
{
    lemma_written(r->Ok_0, *dir, content, servers@)
}

/// Adding a server writes nothing where the settings are not kept in step, whatever the file
/// holds. Where they are, it fails exactly where the file is no JSON, and else writes the
/// servers that were there, with this one under its name. The members and the servers that
/// are written come back.
pub proof fn law_sync_writes_one_server(
    in_step: bool,
    dir: &PathBuf,
    content: Option<&str>,
    id: &str,
    server: &Value,
    r: Result<Option<FileWrite>, AppError>,
    before: Map<Seq<char>, Json>,
) -> (written: (Map<Seq<char>, Json>, Map<Seq<char>, Json>))
    requires
        call_ensures(sync_single_server_to_kimi, (in_step, dir, content, id, server), r),
    ensures
        !in_step ==> r == Ok::<Option<FileWrite>, AppError>(None),
        in_step && are_servers_in(before, content) ==> (r matches Ok(Some(w)) && writes_servers(
            w,
            *dir,
            content,
            written.0,
            written.1,
        ) && written.1.contains_key(id@) && written.1[id@] == json_tree(*server) && forall|
            name: Seq<char>,
        |
            name != id@ ==> #[trigger] member_of(Json::Object(written.1), name) == member_of(
                Json::Object(before),
                name,
            )),
        in_step ==> (text_of(content) matches Some(text) ==> (json_document(text) matches Err(reason)
            ==> (r matches Err(e) && blames_servers_file(e, *dir, reason)))),
{
    let all = before.insert(id@, json_tree(*server));
    if in_step && are_servers_in(before, content) {
        (lemma_written(r->Ok_0->0, *dir, content, all), all)
    } else {
        (Map::empty(), Map::empty())
    }
}

/// Removing a server writes nothing where the settings are not kept in step, whatever the file
/// holds. Where they are, it fails exactly where the file is no JSON, and else writes the
/// servers that were there but for the one of this name. The members and the servers that are
/// written come back.
pub proof fn law_removal_writes_the_others(
    in_step: bool,
    dir: &PathBuf,
    content: Option<&str>,
    id: &str,
    r: Result<Option<FileWrite>, AppError>,
    before: Map<Seq<char>, Json>,
) -> (written: (Map<Seq<char>, Json>, Map<Seq<char>, Json>))
    requires
        call_ensures(remove_server_from_kimi, (in_step, dir, content, id), r),
    ensures
        !in_step ==> r == Ok::<Option<FileWrite>, AppError>(None),
        in_step && are_servers_in(before, content) ==> (r matches Ok(Some(w)) && writes_servers(
            w,
            *dir,
            content,
            written.0,
            written.1,
        ) && !written.1.contains_key(id@) && forall|name: Seq<char>|
            name != id@ ==> #[trigger] member_of(Json::Object(written.1), name) == member_of(
                Json::Object(before),
                name,
            )),
        in_step ==> (text_of(content) matches Some(text) ==> (json_document(text) matches Err(reason)
            ==> (r matches Err(e) && blames_servers_file(e, *dir, reason)))),
{
    let left = before.remove(id@);
    if in_step && are_servers_in(before, content) {
        (lemma_written(r->Ok_0->0, *dir, content, left), left)
    } else {
        (Map::empty(), Map::empty())
    }
}

/// Servers that were set are read again from what was written: each of them and no other, and
/// the same where they hold no number that is not an integer. Left out are servers that are
/// nested so deep that the parser does not take the file.
pub proof fn law_set_servers_come_back(
    dir: &PathBuf,
    content: Option<&str>,
    servers: &ServerMap,
    w: FileWrite,
    text: &str,
    r: Result<ServerMap, AppError>,
    name: Seq<char>,
)
    requires
        call_ensures(set_kimi_mcp_servers_map, (dir, content, servers), Ok::<FileWrite, AppError>(w)),
        text@ == w.content@,
        call_ensures(read_kimi_mcp_servers_map, (dir, Some(text)), r),
    ensures
        r matches Ok(m) ==> (m@.contains_key(name) <==> servers@.contains_key(name)) && (
        servers@.contains_key(name) && is_exact(servers@[name]) ==> m@[name] == servers@[name]),
        exact_within(Json::Object(servers@), 126) ==> (r matches Ok(m) && m@ == servers@),
{
    law_set_servers_are_read(*dir, text_of(content), servers@, w);
    if let Ok(m) = r {
        law_servers_read_back(*dir, text_of(content), servers@, w, m@);
        assert(m@.dom().contains(name) <==> servers@.dom().contains(name));
    }
}

/// A server that was added is read again from what was written, beside all that were there and
/// no other, where the file is read.
pub proof fn law_synced_server_comes_back(
    dir: &PathBuf,
    content: Option<&str>,
    id: &str,
    server: &Value,
    w: FileWrite,
    text: &str,
    m: ServerMap,
    before: Map<Seq<char>, Json>,
    name: Seq<char>,
)
    requires
        call_ensures(
            sync_single_server_to_kimi,
            (true, dir, content, id, server),
            Ok::<Option<FileWrite>, AppError>(Some(w)),
        ),
        are_servers_in(before, content),
        text@ == w.content@,
        call_ensures(read_kimi_mcp_servers_map, (dir, Some(text)), Ok::<ServerMap, AppError>(m)),
    ensures
        m@.contains_key(name) <==> name == id@ || before.contains_key(name),
        is_exact(json_tree(*server)) ==> m@[id@] == json_tree(*server),
        name != id@ && before.contains_key(name) && is_exact(before[name]) ==> m@[name]
            == before[name],
{
    law_synced_server_is_read(*dir, text_of(content), before, id@, json_tree(*server), w, m@);
    assert(m@.dom().contains(name) <==> before.dom().insert(id@).contains(name));
}

/// A server that was removed is not read again from what was written, and all the others are,
/// where the file is read.
pub proof fn law_removed_server_stays_away(
    dir: &PathBuf,
    content: Option<&str>,
    id: &str,
    w: FileWrite,
    text: &str,
    m: ServerMap,
    before: Map<Seq<char>, Json>,
    name: Seq<char>,
)
    requires
        call_ensures(
            remove_server_from_kimi,
            (true, dir, content, id),
            Ok::<Option<FileWrite>, AppError>(Some(w)),
        ),
        are_servers_in(before, content),
        text@ == w.content@,
        call_ensures(read_kimi_mcp_servers_map, (dir, Some(text)), Ok::<ServerMap, AppError>(m)),
    ensures
        m@.contains_key(name) <==> name != id@ && before.contains_key(name),
        name != id@ && before.contains_key(name) && is_exact(before[name]) ==> m@[name]
            == before[name],
{
    law_removed_server_is_gone(*dir, text_of(content), before, id@, w, m@);
    assert(m@.dom().contains(name) <==> before.dom().remove(id@).contains(name));
}

/// The questions that are asked of the servers by name, and how many there are, agree.
pub proof fn law_servers_are_found_by_name<'a>(
    servers: &'a ServerMap,
    name: &str,
    known: bool,
    found: Option<&'a Value>,
    count: usize,
    none: bool,
)
    requires
        call_ensures(ServerMap::contains_key, (servers, name), known),
        call_ensures(ServerMap::get, (servers, name), found),
        call_ensures(ServerMap::len, (servers,), count),
        call_ensures(ServerMap::is_empty, (servers,), none),
    ensures
        known == servers@.contains_key(name@),
        known <==> found is Some,
        found matches Some(v) ==> json_tree(*v) == servers@[name@],
        count == servers@.len(),
        none <==> count == 0,
{
}

/// A server that is inserted is there under its name, in the place of one that was, and one
/// that is removed is not; the others stay as they are.
pub proof fn law_servers_change_one_by_one(
    more: &mut ServerMap,
    name: String,
    server: Value,
    less: &mut ServerMap,
    gone: &str,
    other: Seq<char>,
)
    requires
        call_ensures(ServerMap::insert, (more, name, server), ()),
        call_ensures(ServerMap::remove, (less, gone), ()),
    ensures
        final(more)@.contains_key(name@),
        final(more)@[name@] == json_tree(server),
        other != name@ ==> (final(more)@.contains_key(other) <==> old(more)@.contains_key(other)),
        other != name@ && old(more)@.contains_key(other) ==> final(more)@[other]
            == old(more)@[other],
        !final(less)@.contains_key(gone@),
        other != gone@ ==> (final(less)@.contains_key(other) <==> old(less)@.contains_key(other)),
        other != gone@ && old(less)@.contains_key(other) ==> final(less)@[other]
            == old(less)@[other],
{
}

/// New servers are none, and servers as a list are those that there are, each once.
pub proof fn law_servers_are_listed_once(
    fresh: ServerMap,
    servers: ServerMap,
    list: Vec<(String, Value)>,
    name: Seq<char>,
    i: int,
    j: int,
)
    requires
        call_ensures(ServerMap::new, (), fresh),
        call_ensures(ServerMap::into_entries, (servers,), list),
    ensures
        !fresh@.contains_key(name),
        servers@.contains_key(name) <==> exists|k: int|
            0 <= k < list@.len() && (#[trigger] list@[k]).0@ == name,
        0 <= i < list@.len() ==> servers@[list@[i].0@] == json_tree(list@[i].1),
        0 <= i < j < list@.len() ==> list@[i].0@ != list@[j].0@,
{
    lemma_entries_contains(list@, name);
    if 0 <= i < list@.len() {
        lemma_entries_at(list@, i);
    }
}

} // verus!
