//! VS Code MCP configuration (`mcp.json` beside each selected profile's
//! language-model file): adding, replacing and removing one server under
//! `servers` while keeping every other field, and collecting servers.

use vstd::prelude::*;
use vstd::string::StrSliceExecFns;
use vstd::string::StringExecFns;
use crate::bridge::{parse_json5, json5_parse, path_parent, path_join, joined, plain_name, two_sep_start, final_name_evident};
use crate::error::{AppError, ErrView};
use crate::json::{JsonValue, JsonView, entries_view, lemma_entries_view, entries_lookup, entries_insert_exec, entries_remove_exec, json_clone, opt_view, entries_collect};
use crate::kv::{entries_get, entries_insert, entries_remove, lemma_get_after_insert, lemma_get_after_remove, keys_sorted};
use crate::text::{trim, trim_spec};

verus! {

/// Largest `mcp.json` the library edits (8 MiB).
pub const MAX_MCP_CONFIG_BYTES: u64 = 8388608;

/// `out` is `mcp.json` joined to a leading part of `file`'s text (its
/// directory).
pub open spec fn mcp_beside(file: Seq<char>, out: Seq<char>) -> bool {
    exists|j: int| 0 <= j <= file.len() && joined(#[trigger] file.subrange(0, j), "mcp.json"@, out)
}

/// `mcp.json` beside each language-model file, in order: one per file that
/// has a parent directory, which every file whose final component is an
/// ordinary name has (for other files the platform's path rules decide).
pub fn target_paths(language_model_paths: &Vec<String>) -> (r: Vec<String>)
    ensures
        r@.len() <= language_model_paths@.len(),
        (forall|i: int| 0 <= i < language_model_paths@.len() ==> final_name_evident(#[trigger] language_model_paths@[i]@))
            ==> r@.len() == language_model_paths@.len()
            && forall|k: int| 0 <= k < r@.len() ==> mcp_beside(language_model_paths@[k]@, #[trigger] r@[k]@),
{
    proof {
        reveal_strlit("mcp.json");
        assert(plain_name("mcp.json"@));
    }
    let ghost all = forall|i: int| 0 <= i < language_model_paths@.len() ==> final_name_evident(#[trigger] language_model_paths@[i]@);
    let mut out: Vec<String> = Vec::new();
    let n = language_model_paths.len();
    let mut i: usize = 0;
    while i < n
        invariant
            n == language_model_paths@.len(),
            i <= n,
            out@.len() <= i,
            plain_name("mcp.json"@),
            all == forall|i: int| 0 <= i < language_model_paths@.len() ==> final_name_evident(#[trigger] language_model_paths@[i]@),
            all ==> out@.len() == i && forall|k: int| 0 <= k < out@.len() ==> mcp_beside(language_model_paths@[k]@, #[trigger] out@[k]@),
        decreases n - i,
    {
        let ghost file = language_model_paths@[i as int]@;
        match path_parent(language_model_paths[i].as_str()) {
            Some(dir) => {
                let ghost before = out@;
                let j = path_join(dir.as_str(), "mcp.json");
                proof {
                    if all {
                        assert(final_name_evident(file));
                        assert(!two_sep_start(dir@)) by {
                            if dir@.len() >= 2 {
                                assert(dir@[0] == file[0] && dir@[1] == file[1]);
                            }
                        }
                        assert(file.subrange(0, dir@.len() as int) == dir@);
                        assert(mcp_beside(file, j@));
                    }
                }
                out.push(j);
                proof {
                    if all {
                        assert forall|k: int| 0 <= k < out@.len() implies mcp_beside(language_model_paths@[k]@, #[trigger] out@[k]@) by {
                            if k < before.len() {
                                assert(out@[k] == before[k]);
                            }
                        }
                    }
                }
            },
            None => {
                assert(!all || !final_name_evident(file));
            },
        }
        i = i + 1;
    }
    out
}

/// Refuses an existing MCP file that is a link, not a regular file, or over
/// the size limit.
pub fn ensure_mcp_target(is_symlink: bool, is_file: bool, len: u64, path: &str) -> (r: Result<(), AppError>)
    ensures
        r is Ok <==> (!is_symlink && is_file && len <= MAX_MCP_CONFIG_BYTES),
        r matches Err(e) ==> (is_symlink || !is_file) ==> e@ == ErrView::InvalidInput("VS Code MCP target is not a regular file: "@ + path@),
        r matches Err(e) ==> (!is_symlink && is_file) ==> e@ == ErrView::InvalidInput("VS Code MCP config exceeds 8 MiB: "@ + path@),
{
    if is_symlink || !is_file {
        return Err(AppError::InvalidInput("VS Code MCP target is not a regular file: ".to_string().concat(path)));
    }
    if len > MAX_MCP_CONFIG_BYTES {
        return Err(AppError::InvalidInput("VS Code MCP config exceeds 8 MiB: ".to_string().concat(path)));
    }
    Ok(())
}

/// The top-level object of an MCP file's text: empty for a blank file;
/// otherwise the text must parse (as JSON5) to an object.
pub open spec fn root_of_text(path: Seq<char>, text: Seq<char>) -> Result<Seq<(Seq<char>, JsonView)>, ErrView> {
    if trim_spec(text).len() == 0 {
        Ok(Seq::empty())
    } else {
        match json5_parse(text) {
            Err(e) => Err(ErrView::Config("Failed to parse VS Code MCP config "@ + path + ": "@ + e)),
            Ok(JsonView::Object(entries)) => Ok(entries),
            Ok(_) => Err(ErrView::Config("VS Code MCP config must be a JSON object: "@ + path)),
        }
    }
}

/// Parses an MCP file's text, see [`root_of_text`].
pub fn read_root(path: &str, text: &str) -> (r: Result<Vec<(String, JsonValue)>, AppError>)
    ensures
        match r {
            Ok(v) => root_of_text(path@, text@) == Ok::<Seq<(Seq<char>, JsonView)>, ErrView>(entries_view(v@)),
            Err(e) => root_of_text(path@, text@) == Err::<Seq<(Seq<char>, JsonView)>, ErrView>(e@),
        },
{
    if trim(text).unicode_len() == 0 {
        return Ok(Vec::new());
    }
    match parse_json5(text) {
        Err(e) => Err(AppError::Config("Failed to parse VS Code MCP config ".to_string().concat(path).concat(": ").concat(e.as_str()))),
        Ok(JsonValue::Object(entries)) => Ok(entries),
        Ok(_) => Err(AppError::Config("VS Code MCP config must be a JSON object: ".to_string().concat(path))),
    }
}

/// The file after setting (`Some`) or removing (`None`) one server: the
/// `servers` object (created empty when missing) gets or loses the entry;
/// every other field stays. A `servers` that is no object, or a server that
/// is no object, is refused.
pub open spec fn update_spec(root: Seq<(Seq<char>, JsonView)>, id: Seq<char>, server: Option<JsonView>, path: Seq<char>) -> Result<JsonView, ErrView> {
    let servers = match entries_get(root, "servers"@) {
        Some(v) => v,
        None => JsonView::Object(Seq::empty()),
    };
    match servers {
        JsonView::Object(se) => match server {
            Some(s) => if s is Object {
                Ok(JsonView::Object(entries_insert(root, "servers"@, JsonView::Object(entries_insert(se, id, s)))))
            } else {
                Err(ErrView::InvalidInput("VS Code MCP server configuration must be a JSON object"@))
            },
            None => Ok(JsonView::Object(entries_insert(root, "servers"@, JsonView::Object(entries_remove(se, id))))),
        },
        _ => Err(ErrView::Config("VS Code MCP 'servers' field must be an object: "@ + path)),
    }
}

/// Sets or removes one server, see [`update_spec`].
pub fn update_server(root: Vec<(String, JsonValue)>, id: &str, server: Option<&JsonValue>, path: &str) -> (r: Result<JsonValue, AppError>)
    ensures
        match r {
            Ok(v) => update_spec(entries_view(root@), id@, opt_view(server), path@) == Ok::<JsonView, ErrView>(v@),
            Err(e) => update_spec(entries_view(root@), id@, opt_view(server), path@) == Err::<JsonView, ErrView>(e@),
        },
{
    let mut root = root;
    let ghost sv = match entries_get(entries_view(root@), "servers"@) {
        Some(v) => v,
        None => JsonView::Object(Seq::empty()),
    };
    let servers: Vec<(String, JsonValue)> = match entries_lookup(&root, "servers") {
        None => {
            let e: Vec<(String, JsonValue)> = Vec::new();
            assert(entries_view(e@) =~= Seq::<(Seq<char>, JsonView)>::empty());
            e
        },
        Some(v) => match json_clone(v) {
            JsonValue::Object(se) => se,
            _ => {
                return Err(AppError::Config("VS Code MCP 'servers' field must be an object: ".to_string().concat(path)));
            },
        },
    };
    assert(JsonView::Object(entries_view(servers@)) == sv);
    let mut servers = servers;
    match server {
        Some(s) => {
            if !s.is_object() {
                return Err(AppError::InvalidInput("VS Code MCP server configuration must be a JSON object".to_string()));
            }
            entries_insert_exec(&mut servers, id.to_string(), json_clone(s));
        },
        None => {
            entries_remove_exec(&mut servers, id);
        },
    }
    entries_insert_exec(&mut root, "servers".to_string(), JsonValue::Object(servers));
    Ok(JsonValue::Object(root))
}

/// Adds or replaces the server in one MCP file.
pub fn sync_single_server_to_copilot(root: Vec<(String, JsonValue)>, id: &str, server: &JsonValue, path: &str) -> (r: Result<JsonValue, AppError>)
    ensures
        match r {
            Ok(v) => update_spec(entries_view(root@), id@, Some(server@), path@) == Ok::<JsonView, ErrView>(v@),
            Err(e) => update_spec(entries_view(root@), id@, Some(server@), path@) == Err::<JsonView, ErrView>(e@),
        },
{
    update_server(root, id, Some(server), path)
}

/// Removes the server from one (existing) MCP file.
pub fn remove_server_from_copilot(root: Vec<(String, JsonValue)>, id: &str, path: &str) -> (r: Result<JsonValue, AppError>)
    ensures
        match r {
            Ok(v) => update_spec(entries_view(root@), id@, None, path@) == Ok::<JsonView, ErrView>(v@),
            Err(e) => update_spec(entries_view(root@), id@, None, path@) == Err::<JsonView, ErrView>(e@),
        },
{
    update_server(root, id, None, path)
}

/// The servers object of a file, or nothing.
pub open spec fn servers_of(root: Seq<(Seq<char>, JsonView)>) -> Seq<(Seq<char>, JsonView)> {
    match entries_get(root, "servers"@) {
        Some(JsonView::Object(s)) => s,
        _ => Seq::empty(),
    }
}

/// Adding entries whose ids are not present yet.
pub open spec fn first_wins(acc: Seq<(Seq<char>, JsonView)>, e: Seq<(Seq<char>, JsonView)>) -> Seq<(Seq<char>, JsonView)>
    decreases e.len(),
{
    if e.len() == 0 {
        acc
    } else {
        let a = first_wins(acc, e.drop_last());
        if entries_get(a, e.last().0) is Some {
            a
        } else {
            entries_insert(a, e.last().0, e.last().1)
        }
    }
}

/// The servers of all files, in id order; a server id keeps the
/// definition of the first file (and first entry) that has it.
pub open spec fn imported(roots: Seq<Seq<(Seq<char>, JsonView)>>) -> Seq<(Seq<char>, JsonView)>
    decreases roots.len(),
{
    if roots.len() == 0 {
        Seq::empty()
    } else {
        first_wins(imported(roots.drop_last()), servers_of(roots.last()))
    }
}

pub open spec fn roots_view(roots: Seq<Vec<(String, JsonValue)>>) -> Seq<Seq<(Seq<char>, JsonView)>> {
    roots.map_values(|r: Vec<(String, JsonValue)>| entries_view(r@))
}

fn add_first_wins(acc: &mut Vec<(String, JsonValue)>, servers: &Vec<(String, JsonValue)>)
    ensures
        entries_view(final(acc)@) == first_wins(entries_view(old(acc)@), entries_view(servers@)),
{
    let ghost start = entries_view(acc@);
    proof {
        lemma_entries_view(servers@);
    }
    let n = servers.len();
    let mut i: usize = 0;
    assert(entries_view(servers@).take(0) =~= Seq::<(Seq<char>, JsonView)>::empty());
    while i < n
        invariant
            n == servers@.len(),
            i <= n,
            entries_view(servers@).len() == n,
            forall|j: int| 0 <= j < n ==> #[trigger] entries_view(servers@)[j] == (servers@[j].0@, servers@[j].1@),
            entries_view(acc@) == first_wins(start, entries_view(servers@).take(i as int)),
        decreases n - i,
    {
        assert(entries_view(servers@).take(i + 1).drop_last() =~= entries_view(servers@).take(i as int));
        assert(entries_view(servers@).take(i + 1).last() == (servers@[i as int].0@, servers@[i as int].1@));
        if entries_lookup(acc, servers[i].0.as_str()).is_none() {
            entries_insert_exec(acc, servers[i].0.clone(), json_clone(&servers[i].1));
        }
        i = i + 1;
    }
    assert(entries_view(servers@).take(n as int) =~= entries_view(servers@));
}

/// The servers of every MCP file, see [`imported`].
pub fn import_from_copilot(roots: &Vec<Vec<(String, JsonValue)>>) -> (r: Vec<(String, JsonValue)>)
    ensures
        entries_view(r@) == imported(roots_view(roots@)),
{
    let mut acc: Vec<(String, JsonValue)> = Vec::new();
    let n = roots.len();
    let mut i: usize = 0;
    assert(entries_view(acc@) =~= Seq::<(Seq<char>, JsonView)>::empty());
    assert(roots_view(roots@).take(0) =~= Seq::<Seq<(Seq<char>, JsonView)>>::empty());
    while i < n
        invariant
            n == roots@.len(),
            i <= n,
            entries_view(acc@) == imported(roots_view(roots@).take(i as int)),
        decreases n - i,
    {
        assert(roots_view(roots@).take(i + 1).drop_last() =~= roots_view(roots@).take(i as int));
        assert(roots_view(roots@).take(i + 1).last() == entries_view(roots@[i as int]@));
        let found: Option<JsonValue> = match entries_lookup(&roots[i], "servers") {
            Some(v) => Some(json_clone(v)),
            None => None,
        };
        let servers: Vec<(String, JsonValue)> = match found {
            Some(JsonValue::Object(s)) => s,
            _ => {
                let e: Vec<(String, JsonValue)> = Vec::new();
                assert(entries_view(e@) =~= Seq::<(Seq<char>, JsonView)>::empty());
                e
            },
        };
        assert(entries_view(servers@) == servers_of(entries_view(roots@[i as int]@)));
        add_first_wins(&mut acc, &servers);
        i = i + 1;
    }
    assert(roots_view(roots@).take(n as int) =~= roots_view(roots@));
    acc
}

/// Collecting keeps the first definition of a server: an id already
/// collected keeps its definition whatever later entries hold.
pub proof fn lemma_first_wins_keeps(acc: Seq<(Seq<char>, JsonView)>, e: Seq<(Seq<char>, JsonView)>, k: Seq<char>)
    requires
        entries_get(acc, k) is Some,
    ensures
        entries_get(first_wins(acc, e), k) == entries_get(acc, k),
    decreases e.len(),
{
    if e.len() > 0 {
        lemma_first_wins_keeps(acc, e.drop_last(), k);
        let a = first_wins(acc, e.drop_last());
        if entries_get(a, e.last().0) is None {
            lemma_get_after_insert(a, e.last().0, e.last().1, k);
        }
    }
}

/// Setting a server and reading it back gives the server, and every other
/// top-level field keeps its value.
pub proof fn lemma_update_sets_server(root: Seq<(Seq<char>, JsonView)>, id: Seq<char>, server: JsonView, path: Seq<char>, other: Seq<char>)
    requires
        server is Object,
        update_spec(root, id, Some(server), path) is Ok,
        other != "servers"@,
    ensures
        ({
            let v = update_spec(root, id, Some(server), path)->Ok_0;
            &&& v.get("servers"@) matches Some(JsonView::Object(se)) && entries_get(se, id) == Some(server)
            &&& v.get(other) == entries_get(root, other)
        }),
{
    let servers = match entries_get(root, "servers"@) {
        Some(v) => v,
        None => JsonView::Object(Seq::empty()),
    };
    let se = servers->Object_0;
    lemma_get_after_insert(se, id, server, id);
    lemma_get_after_insert(root, "servers"@, JsonView::Object(entries_insert(se, id, server)), "servers"@);
    lemma_get_after_insert(root, "servers"@, JsonView::Object(entries_insert(se, id, server)), other);
}

/// Removing a server: it reads back as absent, every other server and every
/// other top-level field keep their values (object keys in a parsed file
/// are ordered and unique).
pub proof fn lemma_remove_drops_server(root: Seq<(Seq<char>, JsonView)>, id: Seq<char>, path: Seq<char>, other_id: Seq<char>, other: Seq<char>)
    requires
        update_spec(root, id, None, path) is Ok,
        other != "servers"@,
        entries_get(root, "servers"@) matches Some(JsonView::Object(se)) ==> keys_sorted(se),
    ensures
        ({
            let v = update_spec(root, id, None, path)->Ok_0;
            let before = servers_of(root);
            &&& v.get("servers"@) matches Some(JsonView::Object(se)) && entries_get(se, id) is None
                && (other_id != id ==> entries_get(se, other_id) == entries_get(before, other_id))
            &&& v.get(other) == entries_get(root, other)
        }),
{
    let servers = match entries_get(root, "servers"@) {
        Some(v) => v,
        None => JsonView::Object(Seq::empty()),
    };
    let se = servers->Object_0;
    assert(keys_sorted(se));
    lemma_get_after_remove(se, id, id);
    lemma_get_after_remove(se, id, other_id);
    let ns = JsonView::Object(entries_remove(se, id));
    lemma_get_after_insert(root, "servers"@, ns, "servers"@);
    lemma_get_after_insert(root, "servers"@, ns, other);
}

} // verus!
