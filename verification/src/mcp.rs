//! The MCP servers: a JSON file that holds them beside whatever else is in it.

use crate::error::AppError;
use crate::json::{empty_object, is_nested, json_document, json_pretty, json_reads_back, json_tree};
use crate::json::{member, member_of, object_in, object_insert, object_members, parse_json, write_json, Json};
use crate::paths::{get_kimi_mcp_path, is_joined};
use crate::saving::{FileWrite, FILE_MODE};
use crate::text::{joined, text_of};
use serde_json::Value;
use std::collections::HashMap;
use std::path::PathBuf;
use vstd::prelude::*;

verus! {

/// The values of a list under their names.
pub open spec fn entries_map(s: Seq<(String, Value)>) -> Map<Seq<char>, Json>
    decreases s.len(),
{
    if s.len() == 0 {
        Map::empty()
    } else {
        entries_map(s.drop_last()).insert(s.last().0@, json_tree(s.last().1))
    }
}

/// No name occurs twice.
pub open spec fn distinct_names(s: Seq<(String, Value)>) -> bool {
    forall|i: int, j: int| 0 <= i < j < s.len() ==> s[i].0@ != s[j].0@
}

/// Servers by their names.
#[derive(Debug)]
pub struct ServerMap {
    entries: Vec<(String, Value)>,
}

impl View for ServerMap {
    type V = Map<Seq<char>, Json>;

    closed spec fn view(&self) -> Map<Seq<char>, Json> {
        entries_map(self.entries@)
    }
}

/// A name is in the map of a list where it is in the list.
pub proof fn lemma_entries_contains(s: Seq<(String, Value)>, name: Seq<char>)
    ensures
        entries_map(s).contains_key(name) <==> exists|i: int|
            0 <= i < s.len() && (#[trigger] s[i]).0@ == name,
        entries_map(s).dom().finite(),
    decreases s.len(),
{
    if s.len() > 0 {
        lemma_entries_contains(s.drop_last(), name);
        if s.last().0@ == name {
            assert(s[s.len() - 1].0@ == name);
        }
        if exists|i: int| 0 <= i < s.drop_last().len() && (#[trigger] s.drop_last()[i]).0@ == name {
            let i = choose|i: int|
                0 <= i < s.drop_last().len() && (#[trigger] s.drop_last()[i]).0@ == name;
            assert(s[i].0@ == name);
        }
        if exists|i: int| 0 <= i < s.len() && (#[trigger] s[i]).0@ == name {
            let i = choose|i: int| 0 <= i < s.len() && (#[trigger] s[i]).0@ == name;
            if i < s.len() - 1 {
                assert(s.drop_last()[i].0@ == name);
            }
        }
    }
}

/// What a list holds is in its map, where names are distinct.
pub proof fn lemma_entries_at(s: Seq<(String, Value)>, i: int)
    requires
        distinct_names(s),
        0 <= i < s.len(),
    ensures
        entries_map(s).contains_key(s[i].0@),
        entries_map(s)[s[i].0@] == json_tree(s[i].1),
    decreases s.len(),
{
    if i < s.len() - 1 {
        assert(s[i].0@ != s[s.len() - 1].0@);
        lemma_entries_at(s.drop_last(), i);
    }
}

/// The map of a list has as many names as the list, where these are distinct.
proof fn lemma_entries_len(s: Seq<(String, Value)>)
    requires
        distinct_names(s),
    ensures
        entries_map(s).len() == s.len(),
    decreases s.len(),
{
    if s.len() > 0 {
        lemma_entries_len(s.drop_last());
        lemma_entries_contains(s.drop_last(), s.last().0@);
        if entries_map(s.drop_last()).contains_key(s.last().0@) {
            let i = choose|i: int|
                0 <= i < s.drop_last().len() && (#[trigger] s.drop_last()[i]).0@ == s.last().0@;
            assert(s[i].0@ == s[s.len() - 1].0@);
        }
    }
}

/// The map of a list without the entry at `i`.
proof fn lemma_entries_remove(s: Seq<(String, Value)>, i: int)
    requires
        distinct_names(s),
        0 <= i < s.len(),
    ensures
        distinct_names(s.remove(i)),
        entries_map(s.remove(i)) == entries_map(s).remove(s[i].0@),
{
    let t = s.remove(i);
    assert(distinct_names(t)) by {
        assert forall|a: int, b: int| 0 <= a < b < t.len() implies t[a].0@ != t[b].0@ by {
            let a2 = if a < i {
                a
            } else {
                a + 1
            };
            let b2 = if b < i {
                b
            } else {
                b + 1
            };
            assert(s[a2].0@ != s[b2].0@);
        }
    }
    let left = entries_map(s).remove(s[i].0@);
    assert forall|name: Seq<char>| #[trigger]
        entries_map(t).contains_key(name) <==> left.contains_key(name) by {
        lemma_entries_contains(t, name);
        lemma_entries_contains(s, name);
        if entries_map(t).contains_key(name) {
            let k = choose|k: int| 0 <= k < t.len() && (#[trigger] t[k]).0@ == name;
            let k2 = if k < i {
                k
            } else {
                k + 1
            };
            assert(s[k2].0@ == name);
            if k2 < i {
                assert(s[k2].0@ != s[i].0@);
            } else {
                assert(s[i].0@ != s[k2].0@);
            }
        }
        if left.contains_key(name) {
            let k = choose|k: int| 0 <= k < s.len() && (#[trigger] s[k]).0@ == name;
            let k2 = if k < i {
                k
            } else {
                k - 1
            };
            assert(t[k2].0@ == name);
        }
    }
    assert forall|name: Seq<char>| #[trigger] entries_map(t).contains_key(name) implies entries_map(
        t,
    )[name] == left[name] by {
        lemma_entries_contains(t, name);
        let k = choose|k: int| 0 <= k < t.len() && (#[trigger] t[k]).0@ == name;
        let k2 = if k < i {
            k
        } else {
            k + 1
        };
        lemma_entries_at(t, k);
        lemma_entries_at(s, k2);
    }
    assert(entries_map(t) =~= left);
}

impl ServerMap {
    #[verifier::type_invariant]
    spec fn names_are_distinct(self) -> bool {
        distinct_names(self.entries@)
    }

    /// No servers.
    pub fn new() -> (r: ServerMap)
        ensures
            r@ == Map::<Seq<char>, Json>::empty(),
    {
        ServerMap { entries: Vec::new() }
    }

    /// The place of a name in the list.
    fn place(&self, name: &str) -> (r: Option<usize>)
        ensures
            match r {
                Some(i) => i < self.entries@.len() && self.entries@[i as int].0@ == name@,
                None => !self@.contains_key(name@),
            },
    {
        let mut i: usize = 0;
        while i < self.entries.len()
            invariant
                i <= self.entries@.len(),
                forall|j: int| 0 <= j < i ==> (#[trigger] self.entries@[j]).0@ != name@,
            decreases self.entries@.len() - i,
        {
            if self.entries[i].0.as_str().eq(name) {
                return Some(i);
            }
            i += 1;
        }
        proof {
            lemma_entries_contains(self.entries@, name@);
        }
        None
    }

    /// The number of servers.
    pub fn len(&self) -> (r: usize)
        ensures
            r == self@.len(),
    {
        proof {
            use_type_invariant(self);
            lemma_entries_len(self.entries@);
        }
        self.entries.len()
    }

    /// Whether there are no servers.
    pub fn is_empty(&self) -> (r: bool)
        ensures
            r == (self@.len() == 0),
    {
        self.len() == 0
    }

    /// Whether there is a server of this name.
    pub fn contains_key(&self, name: &str) -> (r: bool)
        ensures
            r == self@.contains_key(name@),
    {
        match self.place(name) {
            Some(i) => {
                proof {
                    lemma_entries_contains(self.entries@, name@);
                }
                true
            },
            None => false,
        }
    }

    /// The server of this name.
    pub fn get(&self, name: &str) -> (r: Option<&Value>)
        ensures
            match r {
                Some(v) => self@.contains_key(name@) && self@[name@] == json_tree(*v),
                None => !self@.contains_key(name@),
            },
    {
        match self.place(name) {
            Some(i) => {
                proof {
                    use_type_invariant(self);
                    lemma_entries_at(self.entries@, i as int);
                }
                Some(&self.entries[i].1)
            },
            None => None,
        }
    }

    /// The servers as a list, each name once.
    pub fn into_entries(self) -> (r: Vec<(String, Value)>)
        ensures
            entries_map(r@) == self@,
            distinct_names(r@),
    {
        proof {
            use_type_invariant(&self);
        }
        self.entries
    }

    /// Removes the server of this name, if there is one.
    pub fn remove(&mut self, name: &str)
        ensures
            final(self)@ == old(self)@.remove(name@),
    {
        let found = self.place(name);
        let mut entries: Vec<(String, Value)> = Vec::new();
        proof {
            use_type_invariant(&*self);
        }
        let ghost before = self.entries@;
        std::mem::swap(&mut entries, &mut self.entries);
        if let Some(i) = found {
            proof {
                lemma_entries_remove(before, i as int);
            }
            entries.remove(i);
        } else {
            assert(entries_map(before).remove(name@) =~= entries_map(before));
        }
        self.entries = entries;
    }

    /// Adds a server, in the place of one of the same name.
    pub fn insert(&mut self, name: String, server: Value)
        ensures
            final(self)@ == old(self)@.insert(name@, json_tree(server)),
    {
        let ghost before = self@;
        self.remove(name.as_str());
        proof {
            use_type_invariant(&*self);
        }
        let ghost rest = self.entries@;
        let mut entries: Vec<(String, Value)> = Vec::new();
        std::mem::swap(&mut entries, &mut self.entries);
        entries.push((name, server));
        proof {
            let all = rest.push((name, server));
            assert(all.drop_last() =~= rest);
            assert(distinct_names(all)) by {
                assert forall|i: int, j: int| 0 <= i < j < all.len() implies all[i].0@
                    != all[j].0@ by {
                    if j == rest.len() {
                        lemma_entries_contains(rest, name@);
                        assert(rest[i].0@ == all[i].0@);
                    } else {
                        assert(rest[i].0@ != rest[j].0@);
                    }
                }
            }
            assert(before.remove(name@).insert(name@, json_tree(server)) =~= before.insert(
                name@,
                json_tree(server),
            ));
        }
        self.entries = entries;
    }
}

/// `serde_json::to_value` on a `HashMap` of values by their names: an object with these
/// members; it does not fail.
#[verifier::external_body]
pub(crate) fn servers_value(entries: &Vec<(String, Value)>) -> (r: Result<Value, String>)
    requires
        distinct_names(entries@),
    ensures
        match r {
            Ok(v) => json_tree(v) == Json::Object(entries_map(entries@)),
            Err(_) => false,
        },
{
    let servers: HashMap<String, Value> = entries.iter().cloned().collect();
    serde_json::to_value(servers).map_err(|e| e.to_string())
}

// ---------------------------------------------------------------------------
// The file
// ---------------------------------------------------------------------------

/// The servers in a JSON value, none where it does not hold an object of them.
pub open spec fn servers_of(root: Json) -> Map<Seq<char>, Json> {
    match object_in(member_of(root, "mcpServers"@)) {
        Some(m) => m,
        None => Map::empty(),
    }
}

/// The servers in the file, none where there is no file, or the message that tells why its
/// text is no JSON.
pub open spec fn servers_in(content: Option<Seq<char>>) -> Result<Map<Seq<char>, Json>, Seq<char>> {
    match content {
        Some(text) => match json_document(text) {
            Ok(root) => Ok(servers_of(root)),
            Err(message) => Err(message),
        },
        None => Ok(Map::empty()),
    }
}

/// `e` says of the file of the servers in `dir` why its text is no JSON.
pub open spec fn refuses(e: AppError, dir: PathBuf, message: Seq<char>) -> bool {
    match e {
        AppError::Json { path, message: m } => is_joined(path, dir, "mcp.json"@) && m@ == message,
        _ => false,
    }
}

/// What the parser makes of the file, if anything, is within the nesting that it takes.
pub open spec fn is_nested_file(content: Option<Seq<char>>) -> bool {
    content matches Some(text) ==> json_document(text) matches Ok(root) ==> is_nested(root)
}

/// The members of the object that a value is, none where it is no object.
pub open spec fn object_or_empty(v: Json) -> Map<Seq<char>, Json> {
    match v {
        Json::Object(m) => m,
        _ => Map::empty(),
    }
}

/// The members of the object in a file, none where it does not hold an object.
pub open spec fn root_members(content: Option<Seq<char>>) -> Map<Seq<char>, Json> {
    match content {
        Some(text) => match json_document(text) {
            Ok(v) => object_or_empty(v),
            Err(_) => Map::empty(),
        },
        None => Map::empty(),
    }
}

/// The value to write: what the file holds, with these servers.
pub open spec fn with_servers(content: Option<Seq<char>>, servers: Map<Seq<char>, Json>) -> Json {
    Json::Object(root_members(content).insert("mcpServers"@, Json::Object(servers)))
}

/// `w` writes `root` to the file of the servers in `dir`.
pub open spec fn saves_servers(w: FileWrite, dir: PathBuf, root: Json) -> bool {
    &&& is_joined(w.path, dir, "mcp.json"@)
    &&& w.content@ == json_pretty(root)
    &&& w.mode == FILE_MODE
    &&& json_reads_back(w.content@, root)
}

/// The members of an object as servers by their names.
fn servers_from(object: &Value) -> (r: ServerMap)
    requires
        json_tree(*object) is Object,
    ensures
        r@ == json_tree(*object)->Object_0,
{
    let ghost all = json_tree(*object)->Object_0;
    let members = object_members(object);
    let mut servers = ServerMap::new();
    let mut i: usize = 0;
    while i < members.len()
        invariant
            i <= members@.len(),
            forall|j: int|
                0 <= j < members@.len() ==> member_of(
                    json_tree(*object),
                    (#[trigger] members@[j]).0@,
                ) == Some(json_tree(*members@[j].1)),
            json_tree(*object) == Json::Object(all),
            forall|name: Seq<char>| #[trigger]
                servers@.contains_key(name) <==> exists|j: int|
                    0 <= j < i && (#[trigger] members@[j]).0@ == name,
            forall|name: Seq<char>| #[trigger]
                servers@.contains_key(name) ==> all.contains_key(name) && servers@[name]
                    == all[name],
        decreases members@.len() - i,
    {
        let (name, server) = members[i];
        let ghost before = servers@;
        servers.insert(name.clone(), server.clone());
        proof {
            assert(member_of(json_tree(*object), members@[i as int].0@) == Some(
                json_tree(*members@[i as int].1),
            ));
            assert forall|other: Seq<char>| #[trigger]
                servers@.contains_key(other) <==> exists|j: int|
                    0 <= j < i + 1 && (#[trigger] members@[j]).0@ == other by {
                if servers@.contains_key(other) && other != name@ {
                    assert(before.contains_key(other));
                }
                if other == name@ {
                    assert(members@[i as int].0@ == other);
                }
                if exists|j: int| 0 <= j < i + 1 && (#[trigger] members@[j]).0@ == other {
                    let j = choose|j: int| 0 <= j < i + 1 && (#[trigger] members@[j]).0@ == other;
                    if j < i {
                        assert(before.contains_key(other));
                    }
                }
            }
        }
        i += 1;
    }
    assert(servers@ =~= all);
    servers
}

/// The servers in a JSON value, none where it does not hold an object of them.
pub fn servers_in_value(root: &Value) -> (r: ServerMap)
    ensures
        r@ == servers_of(json_tree(*root)),
{
    match member(root, "mcpServers") {
        Some(object) => if object.is_object() {
            servers_from(object)
        } else {
            ServerMap::new()
        },
        None => ServerMap::new(),
    }
}

/// The servers in the file in `dir`, none where there is no file.
pub fn read_kimi_mcp_servers_map(dir: &PathBuf, content: Option<&str>) -> (r: Result<
    ServerMap,
    AppError,
>)
    ensures
        match r {
            Ok(m) => servers_in(text_of(content)) == Ok::<Map<Seq<char>, Json>, Seq<char>>(m@),
            Err(e) => servers_in(text_of(content)) matches Err(message) && refuses(
                e,
                *dir,
                message,
            ),
        },
{
    let text = match content {
        Some(text) => text,
        None => return Ok(ServerMap::new()),
    };
    match parse_json(text) {
        Ok(root) => Ok(servers_in_value(&root)),
        Err(message) => Err(AppError::Json { path: get_kimi_mcp_path(dir), message }),
    }
}

/// What is to be written where the file holds `existing`, or nothing that could be read: the
/// object that is there, or an empty one, with these servers.
pub fn value_with_servers(existing: Option<Value>, servers: &ServerMap) -> (r: Result<
    Value,
    AppError,
>)
    ensures
        match r {
            Ok(v) => json_tree(v) == Json::Object(
                (match existing {
                    Some(e) => object_or_empty(json_tree(e)),
                    None => Map::empty(),
                }).insert("mcpServers"@, Json::Object(servers@)),
            ),
            Err(_) => false,
        },
{
    let mut root = match existing {
        Some(value) => if value.is_object() {
            value
        } else {
            empty_object()
        },
        None => empty_object(),
    };
    proof {
        use_type_invariant(servers);
    }
    match servers_value(&servers.entries) {
        Ok(value) => {
            object_insert(&mut root, "mcpServers", value);
            Ok(root)
        },
        Err(message) => Err(
            AppError::Message(joined("Failed to serialize MCP servers: ", message.as_str())),
        ),
    }
}

/// The write of `servers` to their file in `dir`, which keeps what else is in it.
pub fn set_kimi_mcp_servers_map(dir: &PathBuf, content: Option<&str>, servers: &ServerMap) -> (r:
    Result<FileWrite, AppError>)
    ensures
        match r {
            Ok(w) => saves_servers(w, *dir, with_servers(text_of(content), servers@))
                && is_nested_file(text_of(content)),
            Err(_) => false,
        },
{
    let existing = match content {
        Some(text) => match parse_json(text) {
            Ok(value) => Some(value),
            Err(_) => None,
        },
        None => None,
    };
    let root = match value_with_servers(existing, servers) {
        Ok(root) => root,
        Err(e) => return Err(e),
    };
    match write_json(&root) {
        Ok(text) => Ok(FileWrite { path: get_kimi_mcp_path(dir), content: text, mode: FILE_MODE }),
        Err(message) => Err(
            AppError::Message(joined("Failed to format MCP JSON: ", message.as_str())),
        ),
    }
}

/// Adds a server to the file in `dir`, or changes it there; nothing is written where the
/// settings are not kept in step.
pub fn sync_single_server_to_kimi(
    in_step: bool,
    dir: &PathBuf,
    content: Option<&str>,
    id: &str,
    server_spec: &Value,
) -> (r: Result<Option<FileWrite>, AppError>)
    ensures
        match r {
            Ok(None) => !in_step,
            Ok(Some(w)) => in_step && is_nested_file(text_of(content)) && (servers_in(
                text_of(content),
            ) matches Ok(servers) && saves_servers(
                w,
                *dir,
                with_servers(
                    text_of(content),
                    servers.insert(id@, json_tree(*server_spec)),
                ),
            )),
            Err(e) => in_step && (servers_in(text_of(content)) matches Err(message) && refuses(
                e,
                *dir,
                message,
            )),
        },
{
    if !in_step {
        return Ok(None);
    }
    match read_kimi_mcp_servers_map(dir, content) {
        Ok(read) => {
            let mut servers = read;
            servers.insert(id.to_owned(), server_spec.clone());
            match set_kimi_mcp_servers_map(dir, content, &servers) {
                Ok(w) => Ok(Some(w)),
                Err(e) => Err(e),
            }
        },
        Err(e) => Err(e),
    }
}

/// Removes a server from the file in `dir`; nothing is written where the settings are not
/// kept in step.
pub fn remove_server_from_kimi(
    in_step: bool,
    dir: &PathBuf,
    content: Option<&str>,
    id: &str,
) -> (r: Result<Option<FileWrite>, AppError>)
    ensures
        match r {
            Ok(None) => !in_step,
            Ok(Some(w)) => in_step && is_nested_file(text_of(content)) && (servers_in(
                text_of(content),
            ) matches Ok(servers) && saves_servers(
                w,
                *dir,
                with_servers(text_of(content), servers.remove(id@)),
            )),
            Err(e) => in_step && (servers_in(text_of(content)) matches Err(message) && refuses(
                e,
                *dir,
                message,
            )),
        },
{
    if !in_step {
        return Ok(None);
    }
    match read_kimi_mcp_servers_map(dir, content) {
        Ok(read) => {
            let mut servers = read;
            servers.remove(id);
            match set_kimi_mcp_servers_map(dir, content, &servers) {
                Ok(w) => Ok(Some(w)),
                Err(e) => Err(e),
            }
        },
        Err(e) => Err(e),
    }
}

} // verus!
