//! The decisions behind each command: what changes, what is reported, and
//! which files a cleanup would touch. The caller performs the file reads,
//! writes and removals these decisions call for.

use crate::cli::CleanSelection;
use crate::kv::{
    kv_contains, kv_find, kv_get, kv_has, kv_insert, kv_insert_spec, kv_remove, kv_remove_spec,
    kvv,
};
use crate::model::{McpCatalogue, McpServer, ServerV};
use crate::paths::{path_join, MmsPaths, PathsV};
use crate::scopes::parent_of;
use vstd::prelude::*;

verus! {

/// What happened to one requested name during `add`.
#[derive(Debug, Clone, Copy, PartialEq, Eq, Structural)]
pub enum AddOutcome {
    /// The name is not in the per-user catalogue: reported, not an error.
    NotFound,
    /// The name is already in the local catalogue: reported, not an error.
    AlreadyPresent,
    /// The entry was copied into the local catalogue.
    Added,
}

/// The local server list after the first `i` requested names.
pub open spec fn add_state(
    servers: Seq<(Seq<char>, ServerV)>,
    global: Seq<(Seq<char>, ServerV)>,
    names: Seq<Seq<char>>,
    i: int,
) -> Seq<(Seq<char>, ServerV)>
    decreases i,
{
    if i <= 0 {
        servers
    } else {
        let prev = add_state(servers, global, names, i - 1);
        let n = names[i - 1];
        if !kv_has(global, n) {
            prev
        } else if kv_has(prev, n) {
            prev
        } else {
            kv_insert_spec(prev, n, kv_get(global, n)->Some_0)
        }
    }
}

/// What `add` reports for the name handled at step `i`.
pub open spec fn add_outcome_at(
    servers: Seq<(Seq<char>, ServerV)>,
    global: Seq<(Seq<char>, ServerV)>,
    names: Seq<Seq<char>>,
    i: int,
) -> AddOutcome {
    let prev = add_state(servers, global, names, i);
    if !kv_has(global, names[i]) {
        AddOutcome::NotFound
    } else if kv_has(prev, names[i]) {
        AddOutcome::AlreadyPresent
    } else {
        AddOutcome::Added
    }
}

/// Copy the requested entries from the per-user catalogue into the local
/// one: a name absent from the per-user catalogue or already present
/// locally is only reported; the rest are copied by value.
pub fn add_servers(local: &mut McpCatalogue, global: &McpCatalogue, names: &Vec<String>) -> (r:
    Vec<AddOutcome>)
    ensures
        final(local)@.servers == add_state(
            old(local)@.servers,
            global@.servers,
            crate::model::strs_view(names@),
            names@.len() as int,
        ),
        final(local)@.extras == old(local)@.extras,
        r@.len() == names@.len(),
        forall|i: int|
            0 <= i < names@.len() ==> r@[i] == add_outcome_at(
                old(local)@.servers,
                global@.servers,
                crate::model::strs_view(names@),
                i,
            ),
{
    let ghost s0 = old(local)@.servers;
    let ghost gs = global@.servers;
    let ghost nv = crate::model::strs_view(names@);
    let mut outcomes: Vec<AddOutcome> = Vec::new();
    let n = names.len();
    let mut i: usize = 0;
    while i < n
        invariant
            n == names@.len(),
            i <= n,
            gs == global@.servers,
            nv == crate::model::strs_view(names@),
            kvv(local.mcp_servers@) == add_state(s0, gs, nv, i as int),
            kvv(local.extras@) == old(local)@.extras,
            outcomes@.len() == i,
            forall|m: int| 0 <= m < i ==> #[trigger] outcomes@[m] == add_outcome_at(s0, gs, nv, m),
        decreases n - i,
    {
        let name = &names[i];
        proof {
            assert(nv[i as int] == names@[i as int]@);
        }
        let outcome = if !kv_contains(&global.mcp_servers, name.as_str()) {
            AddOutcome::NotFound
        } else if kv_contains(&local.mcp_servers, name.as_str()) {
            AddOutcome::AlreadyPresent
        } else {
            match kv_find(&global.mcp_servers, name.as_str()) {
                Some(entry) => {
                    let copy = entry.clone_entry();
                    kv_insert(&mut local.mcp_servers, name.clone(), copy);
                    AddOutcome::Added
                },
                None => AddOutcome::NotFound,
            }
        };
        outcomes.push(outcome);
        i = i + 1;
    }
    outcomes
}

/// Did any step of an `add` change the catalogue? Only then is the local
/// file rewritten; an `add` of entries already present touches nothing.
pub fn any_added(outcomes: &Vec<AddOutcome>) -> (r: bool)
    ensures
        r == exists|i: int| 0 <= i < outcomes@.len() && #[trigger] outcomes@[i] is Added,
{
    let n = outcomes.len();
    let mut i: usize = 0;
    while i < n
        invariant
            n == outcomes@.len(),
            i <= n,
            forall|m: int| 0 <= m < i ==> !(#[trigger] outcomes@[m] is Added),
        decreases n - i,
    {
        if matches!(outcomes[i], AddOutcome::Added) {
            return true;
        }
        i = i + 1;
    }
    false
}

/// Remove one entry from the local catalogue; removal of a name that is
/// not there is reported, not an error.
pub fn remove_server(local: &mut McpCatalogue, name: &str) -> (removed: bool)
    ensures
        final(local)@.servers == kv_remove_spec(old(local)@.servers, name@),
        final(local)@.extras == old(local)@.extras,
        removed == kv_has(old(local)@.servers, name@),
{
    kv_remove(&mut local.mcp_servers, name)
}

/// The entry bound to a name, if any.
pub fn find_server<'a>(c: &'a McpCatalogue, name: &str) -> (r: Option<&'a McpServer>)
    ensures
        match r {
            Some(s) => kv_get(c@.servers, name@) == Some(s@),
            None => !kv_has(c@.servers, name@),
        },
{
    kv_find(&c.mcp_servers, name)
}

/// The workspace the external settings live under: the directory of the
/// discovered local catalogue, or the starting directory when none was
/// discovered.
pub open spec fn workspace_of(discovered: Option<Seq<char>>, start_dir: Seq<char>) -> Seq<char> {
    match discovered {
        Some(p) => match parent_of(p) {
            Some(q) => q,
            None => start_dir,
        },
        None => start_dir,
    }
}

/// The labelled paths a `clean` run with this selection would remove.
pub open spec fn clean_ops_spec(
    sel: CleanSelection,
    discovered: Option<Seq<char>>,
    start_dir: Seq<char>,
    paths: PathsV,
) -> Seq<(Seq<char>, Seq<char>)> {
    (if sel.local {
        match discovered {
            Some(p) => seq![("local .mcp.json"@, p)],
            None => Seq::<(Seq<char>, Seq<char>)>::empty(),
        }
    } else {
        Seq::<(Seq<char>, Seq<char>)>::empty()
    }) + (if sel.gemini {
        seq![
            (
                "Gemini settings"@,
                path_join(
                    path_join(workspace_of(discovered, start_dir), ".gemini"@),
                    "settings.json"@,
                ),
            ),
        ]
    } else {
        Seq::<(Seq<char>, Seq<char>)>::empty()
    }) + (if sel.codex {
        seq![("Codex config"@, path_join(path_join(paths.home, ".codex"@), "config.toml"@))]
    } else {
        Seq::<(Seq<char>, Seq<char>)>::empty()
    }) + (if sel.master {
        seq![("CLI master catalogue"@, path_join(paths.config_dir, "master.json"@))]
    } else {
        Seq::<(Seq<char>, Seq<char>)>::empty()
    }) + (if sel.global {
        seq![("global ~/.mcp.json"@, path_join(paths.home, ".mcp.json"@))]
    } else {
        Seq::<(Seq<char>, Seq<char>)>::empty()
    })
}

/// Compute the labelled paths a `clean` run would remove, in a fixed
/// order; an empty result means nothing was selected.
pub fn clean_operations(
    sel: CleanSelection,
    discovered: Option<&String>,
    start_dir: &str,
    paths: &MmsPaths,
) -> (r: Vec<(String, String)>)
    ensures
        kvv(r@) == clean_ops_spec(
            sel,
            match discovered {
                Some(p) => Some(p@),
                None => None,
            },
            start_dir@,
            paths@,
        ),
{
    let ghost dv: Option<Seq<char>> = match discovered {
        Some(p) => Some(p@),
        None => None,
    };
    let mut out: Vec<(String, String)> = Vec::new();
    proof {
        assert(kvv(out@) =~= Seq::<(Seq<char>, Seq<char>)>::empty());
    }
    let ghost g1 = clean_ops_spec(sel, dv, start_dir@, paths@);
    if sel.local {
        match discovered {
            Some(p) => {
                out.push(("local .mcp.json".to_owned(), (*p).clone()));
            },
            None => {},
        }
    }
    let ghost w1 = kvv(out@);
    let workspace: String = match discovered {
        Some(p) => match crate::scopes::LocalCatalogue::parent_of_path(p.as_str()) {
            Some(q) => q,
            None => start_dir.to_owned(),
        },
        None => start_dir.to_owned(),
    };
    proof {
        assert(workspace@ == workspace_of(dv, start_dir@));
    }
    if sel.gemini {
        let d = crate::paths::path_join_exec(workspace.as_str(), ".gemini");
        let f = crate::paths::path_join_exec(d.as_str(), "settings.json");
        out.push(("Gemini settings".to_owned(), f));
    }
    let ghost w2 = kvv(out@);
    if sel.codex {
        out.push(("Codex config".to_owned(), paths.codex_config_path()));
    }
    let ghost w3 = kvv(out@);
    if sel.master {
        out.push(("CLI master catalogue".to_owned(), paths.master_catalogue_path()));
    }
    let ghost w4 = kvv(out@);
    if sel.global {
        out.push(("global ~/.mcp.json".to_owned(), paths.global_catalogue_path()));
    }
    proof {
        assert(kvv(out@) =~= g1);
    }
    out
}

} // verus!
