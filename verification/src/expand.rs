//! Placeholder expansion: resolving `${VAR}` tokens in environment values
//! against an injected key-value environment.
//!
//! Expansion is applied once, when the per-user catalogue is derived from
//! the master template; later copies are verbatim, so an already-resolved
//! or literal value is never altered again.

use crate::kv::{kv_get, kv_find, kvv};
use crate::model::{CatV, McpCatalogue, McpServer, ServerV};
use vstd::prelude::*;

verus! {

/// The variable name a placeholder value refers to: the value must start
/// with `${`, end with `}`, and hold a non-empty name between them.
pub open spec fn placeholder_key(v: Seq<char>) -> Option<Seq<char>> {
    if v.len() > 3 && v[0] == '$' && v[1] == '{' && v.last() == '}' {
        Some(v.subrange(2, v.len() - 1))
    } else {
        None
    }
}

/// One environment value after expansion: a placeholder whose variable is
/// set becomes the variable's value; everything else stays as it is.
pub open spec fn expand_value_spec(v: Seq<char>, env: Seq<(Seq<char>, Seq<char>)>) -> Seq<char> {
    match placeholder_key(v) {
        Some(k) => match kv_get(env, k) {
            Some(val) => val,
            None => v,
        },
        None => v,
    }
}

/// An entry with every environment value expanded.
pub open spec fn expand_entry_spec(e: ServerV, env: Seq<(Seq<char>, Seq<char>)>) -> ServerV {
    ServerV {
        env: e.env.map(|i: int, p: (Seq<char>, Seq<char>)| (p.0, expand_value_spec(p.1, env))),
        ..e
    }
}

/// A catalogue with every entry expanded.
pub open spec fn expand_cat_spec(c: CatV, env: Seq<(Seq<char>, Seq<char>)>) -> CatV {
    CatV {
        servers: c.servers.map(|i: int, p: (Seq<char>, ServerV)| (p.0, expand_entry_spec(p.1, env))),
        ..c
    }
}

/// A value that is not a placeholder is never changed by expansion,
/// whatever the environment holds. In particular an already-substituted
/// literal survives any later copy unchanged.
pub proof fn lemma_literal_value_unchanged(v: Seq<char>, env: Seq<(Seq<char>, Seq<char>)>)
    requires
        placeholder_key(v) is None,
    ensures
        expand_value_spec(v, env) == v,
{
}

/// One environment value after expansion.
pub fn expand_value(v: &String, env: &Vec<(String, String)>) -> (r: String)
    ensures
        r@ == expand_value_spec(v@, kvv(env@)),
{
    let n = v.as_str().unicode_len();
    if n > 3 && v.as_str().get_char(0) == '$' && v.as_str().get_char(1) == '{'
        && v.as_str().get_char(n - 1) == '}' {
        let key = v.as_str().substring_char(2, n - 1).to_owned();
        proof {
            assert(key@ == v@.subrange(2, v@.len() - 1));
        }
        match kv_find(env, key.as_str()) {
            Some(val) => val.clone(),
            None => v.clone(),
        }
    } else {
        v.clone()
    }
}

/// An entry with every environment value expanded.
pub fn expand_entry(e: &McpServer, env: &Vec<(String, String)>) -> (r: McpServer)
    ensures
        r@ == expand_entry_spec(e@, kvv(env@)),
{
    let mut out = e.clone_entry();
    let mut new_env: Vec<(String, String)> = Vec::new();
    let n = e.env.len();
    let mut k: usize = 0;
    while k < n
        invariant
            n == e.env@.len(),
            k <= n,
            new_env@.len() == k,
            forall|m: int| 0 <= m < k ==> (#[trigger] new_env@[m]).0@ == e.env@[m].0@
                && new_env@[m].1@ == expand_value_spec(e.env@[m].1@, kvv(env@)),
        decreases n - k,
    {
        let val = expand_value(&e.env[k].1, env);
        new_env.push((e.env[k].0.clone(), val));
        k = k + 1;
    }
    out.env = new_env;
    proof {
        assert(kvv(out.env@) =~= e@.env.map(
            |i: int, p: (Seq<char>, Seq<char>)| (p.0, expand_value_spec(p.1, kvv(env@))),
        ));
    }
    out
}

/// Derive a catalogue from the master template: copy every entry with
/// placeholder expansion applied to its environment values.
pub fn expand_catalogue(c: &McpCatalogue, env: &Vec<(String, String)>) -> (r: McpCatalogue)
    ensures
        r@ == expand_cat_spec(c@, kvv(env@)),
{
    let mut servers: Vec<(String, McpServer)> = Vec::new();
    let n = c.mcp_servers.len();
    let mut k: usize = 0;
    while k < n
        invariant
            n == c.mcp_servers@.len(),
            k <= n,
            servers@.len() == k,
            forall|m: int| 0 <= m < k ==> (#[trigger] servers@[m]).0@ == c.mcp_servers@[m].0@
                && servers@[m].1@ == expand_entry_spec(c.mcp_servers@[m].1@, kvv(env@)),
        decreases n - k,
    {
        let entry = expand_entry(&c.mcp_servers[k].1, env);
        servers.push((c.mcp_servers[k].0.clone(), entry));
        k = k + 1;
    }
    let mut extras: Vec<(String, crate::json::Json)> = Vec::new();
    let nx = c.extras.len();
    let mut k2: usize = 0;
    while k2 < nx
        invariant
            nx == c.extras@.len(),
            k2 <= nx,
            extras@.len() == k2,
            forall|m: int| 0 <= m < k2 ==> (#[trigger] extras@[m]).0@ == c.extras@[m].0@
                && extras@[m].1@ == c.extras@[m].1@,
        decreases nx - k2,
    {
        extras.push((c.extras[k2].0.clone(), crate::json::clone_json(&c.extras[k2].1)));
        k2 = k2 + 1;
    }
    let r = McpCatalogue { mcp_servers: servers, extras };
    proof {
        assert(kvv(r.mcp_servers@) =~= c@.servers.map(
            |i: int, p: (Seq<char>, ServerV)| (p.0, expand_entry_spec(p.1, kvv(env@))),
        ));
        assert(kvv(r.extras@) =~= c@.extras);
    }
    r
}

/// Expansion changes environment values only: names, order and every
/// other field of every entry stay as they were.
pub proof fn lemma_expand_keeps_names(c: CatV, env: Seq<(Seq<char>, Seq<char>)>)
    ensures
        expand_cat_spec(c, env).servers.len() == c.servers.len(),
        forall|i: int|
            0 <= i < c.servers.len() ==> (#[trigger] expand_cat_spec(c, env).servers[i]).0
                == c.servers[i].0,
        expand_cat_spec(c, env).extras == c.extras,
{
    assert forall|i: int| 0 <= i < c.servers.len() implies (#[trigger] expand_cat_spec(
        c,
        env,
    ).servers[i]).0 == c.servers[i].0 by {
        assert(expand_cat_spec(c, env).servers[i] == (
            c.servers[i].0,
            expand_entry_spec(c.servers[i].1, env),
        ));
    }
}

} // verus!
