//! The JSON settings adapter: project the local catalogue into the
//! `mcpServers` key of a settings document, leaving every sibling key
//! untouched. Running it twice with the same catalogue writes the same
//! bytes twice ([`lemma_gemini_idempotent`]).

use crate::error::AppError;
use crate::json::{
    parse_json, ser, ser_json, spec_parse, wf_json, Json, JsonV,
};
use crate::model::{
    cat_wf, entry_to_json, entry_to_json_exec, key_mcp, key_mcp_str, lemma_entry_to_json_wf, CatV,
    McpCatalogue, ServerV,
};
use vstd::prelude::*;

verus! {

/// The catalogue-owned value: the server mapping as a JSON object.
pub open spec fn servers_obj(c: CatV) -> JsonV {
    JsonV::Obj(c.servers.map(|i: int, p: (Seq<char>, ServerV)| (p.0, entry_to_json(p.1))))
}

/// All members named `k` removed.
pub open spec fn remove_key(pairs: Seq<(Seq<char>, JsonV)>, k: Seq<char>) -> Seq<
    (Seq<char>, JsonV),
>
    decreases pairs.len(),
{
    if pairs.len() == 0 {
        pairs
    } else if pairs[0].0 == k {
        remove_key(pairs.drop_first(), k)
    } else {
        seq![pairs[0]] + remove_key(pairs.drop_first(), k)
    }
}

/// The member `k` set to `v`: replaced in place if present (later
/// duplicates dropped), appended at the end if absent.
pub open spec fn set_key(pairs: Seq<(Seq<char>, JsonV)>, k: Seq<char>, v: JsonV) -> Seq<
    (Seq<char>, JsonV),
>
    decreases pairs.len(),
{
    if pairs.len() == 0 {
        seq![(k, v)]
    } else if pairs[0].0 == k {
        seq![(k, v)] + remove_key(pairs.drop_first(), k)
    } else {
        seq![pairs[0]] + set_key(pairs.drop_first(), k, v)
    }
}

/// The settings document a sync starts from: an empty object when the
/// file is absent, else whatever the file parses to.
pub open spec fn settings_doc(existing: Option<Seq<char>>) -> Option<JsonV> {
    match existing {
        None => Some(JsonV::Obj(Seq::empty())),
        Some(t) => spec_parse(t),
    }
}

/// The settings text a sync writes, if it succeeds: the document with
/// exactly the owned key replaced, serialized with a trailing newline.
/// It fails when the file does not parse or is not a JSON object.
pub open spec fn gemini_out(existing: Option<Seq<char>>, c: CatV) -> Option<Seq<char>> {
    match settings_doc(existing) {
        None => None,
        Some(doc) => match doc {
            JsonV::Obj(ps) => Some(
                ser(JsonV::Obj(set_key(ps, key_mcp(), servers_obj(c)))) + seq!['\n'],
            ),
            _ => None,
        },
    }
}

/// A catalogue with no entries yields an empty, still valid, owned value.
pub proof fn lemma_servers_obj_empty(c: CatV)
    requires
        c.servers.len() == 0,
    ensures
        servers_obj(c) == JsonV::Obj(Seq::<(Seq<char>, JsonV)>::empty()),
{
    assert(c.servers.map(|i: int, p: (Seq<char>, ServerV)| (p.0, entry_to_json(p.1))) =~= Seq::<
        (Seq<char>, JsonV),
    >::empty());
}

/// With no entries, the merged settings document still binds the owned
/// key — to an empty object, not to nothing and not to an error.
pub proof fn lemma_gemini_empty_block(ps: Seq<(Seq<char>, JsonV)>, c: CatV)
    requires
        c.servers.len() == 0,
    ensures
        crate::kv::kv_get(set_key(ps, key_mcp(), servers_obj(c)), key_mcp()) == Some(
            JsonV::Obj(Seq::<(Seq<char>, JsonV)>::empty()),
        ),
{
    lemma_servers_obj_empty(c);
    lemma_set_key_semantics(ps, key_mcp(), servers_obj(c));
}

// ---------------------------------------------------------------------------
// Idempotence
// ---------------------------------------------------------------------------

/// The owned value is well-formed for a well-formed catalogue.
pub proof fn lemma_servers_obj_wf(c: CatV)
    requires
        cat_wf(c),
    ensures
        wf_json(servers_obj(c)),
{
    let sm = c.servers.map(|i: int, p: (Seq<char>, ServerV)| (p.0, entry_to_json(p.1)));
    assert forall|m: int| 0 <= m < sm.len() implies wf_json(#[trigger] sm[m].1) by {
        assert(sm[m] == (c.servers[m].0, entry_to_json(c.servers[m].1)));
        lemma_entry_to_json_wf(c.servers[m].1);
    }
}

/// Removal keeps the members well-formed.
proof fn lemma_remove_key_wf(pairs: Seq<(Seq<char>, JsonV)>, k: Seq<char>)
    requires
        forall|m: int| 0 <= m < pairs.len() ==> wf_json((#[trigger] pairs[m]).1),
    ensures
        forall|m: int|
            0 <= m < remove_key(pairs, k).len() ==> wf_json((#[trigger] remove_key(pairs, k)[m]).1),
    decreases pairs.len(),
{
    if pairs.len() > 0 {
        let d = pairs.drop_first();
        assert forall|m: int| 0 <= m < d.len() implies wf_json((#[trigger] d[m]).1) by {
            assert(d[m] == pairs[m + 1]);
        }
        lemma_remove_key_wf(d, k);
        if pairs[0].0 != k {
            let r = remove_key(pairs, k);
            assert forall|m: int| 0 <= m < r.len() implies wf_json((#[trigger] r[m]).1) by {
                if m > 0 {
                    assert(r[m] == remove_key(d, k)[m - 1]);
                }
            }
        }
    }
}

/// Setting a well-formed value keeps the members well-formed.
proof fn lemma_set_key_wf(pairs: Seq<(Seq<char>, JsonV)>, k: Seq<char>, v: JsonV)
    requires
        forall|m: int| 0 <= m < pairs.len() ==> wf_json((#[trigger] pairs[m]).1),
        wf_json(v),
    ensures
        forall|m: int|
            0 <= m < set_key(pairs, k, v).len() ==> wf_json((#[trigger] set_key(pairs, k, v)[m]).1),
    decreases pairs.len(),
{
    let r = set_key(pairs, k, v);
    if pairs.len() == 0 {
    } else {
        let d = pairs.drop_first();
        assert forall|m: int| 0 <= m < d.len() implies wf_json((#[trigger] d[m]).1) by {
            assert(d[m] == pairs[m + 1]);
        }
        if pairs[0].0 == k {
            lemma_remove_key_wf(d, k);
            assert forall|m: int| 0 <= m < r.len() implies wf_json((#[trigger] r[m]).1) by {
                if m > 0 {
                    assert(r[m] == remove_key(d, k)[m - 1]);
                }
            }
        } else {
            lemma_set_key_wf(d, k, v);
            assert forall|m: int| 0 <= m < r.len() implies wf_json((#[trigger] r[m]).1) by {
                if m > 0 {
                    assert(r[m] == set_key(d, k, v)[m - 1]);
                }
            }
        }
    }
}

/// After removal the key is gone.
proof fn lemma_remove_key_absent(pairs: Seq<(Seq<char>, JsonV)>, k: Seq<char>)
    ensures
        forall|m: int|
            0 <= m < remove_key(pairs, k).len() ==> (#[trigger] remove_key(pairs, k)[m]).0 != k,
    decreases pairs.len(),
{
    if pairs.len() > 0 {
        lemma_remove_key_absent(pairs.drop_first(), k);
        if pairs[0].0 != k {
            let r = remove_key(pairs, k);
            assert forall|m: int| 0 <= m < r.len() implies (#[trigger] r[m]).0 != k by {
                if m > 0 {
                    assert(r[m] == remove_key(pairs.drop_first(), k)[m - 1]);
                }
            }
        }
    }
}

/// Removing a key that is not there changes nothing.
proof fn lemma_remove_key_noop(pairs: Seq<(Seq<char>, JsonV)>, k: Seq<char>)
    requires
        forall|m: int| 0 <= m < pairs.len() ==> (#[trigger] pairs[m]).0 != k,
    ensures
        remove_key(pairs, k) == pairs,
    decreases pairs.len(),
{
    if pairs.len() == 0 {
    } else {
        let d = pairs.drop_first();
        assert forall|m: int| 0 <= m < d.len() implies (#[trigger] d[m]).0 != k by {
            assert(d[m] == pairs[m + 1]);
        }
        lemma_remove_key_noop(d, k);
        assert(remove_key(pairs, k) =~= pairs);
    }
}

/// Looking a key up after a removal of another key finds what it found
/// before.
proof fn lemma_remove_key_get(pairs: Seq<(Seq<char>, JsonV)>, k: Seq<char>, k2: Seq<char>)
    requires
        k2 != k,
    ensures
        crate::kv::kv_get(remove_key(pairs, k), k2) == crate::kv::kv_get(pairs, k2),
    decreases pairs.len(),
{
    if pairs.len() > 0 {
        let d = pairs.drop_first();
        lemma_remove_key_get(d, k, k2);
        if pairs[0].0 != k {
            let r = remove_key(pairs, k);
            assert(r[0] == pairs[0]);
            assert(r.drop_first() =~= remove_key(d, k));
        }
    }
}

/// What the merged document binds: the owned key holds the new value, and
/// every other key holds exactly what the settings document bound it to.
/// With the owned key set to the catalogue's server mapping this is the
/// whole merge: siblings untouched, the owned member replaced.
pub proof fn lemma_set_key_semantics(pairs: Seq<(Seq<char>, JsonV)>, k: Seq<char>, v: JsonV)
    ensures
        crate::kv::kv_get(set_key(pairs, k, v), k) == Some(v),
        forall|k2: Seq<char>|
            k2 != k ==> #[trigger] crate::kv::kv_get(set_key(pairs, k, v), k2)
                == crate::kv::kv_get(pairs, k2),
    decreases pairs.len(),
{
    let r = set_key(pairs, k, v);
    if pairs.len() == 0 {
        assert(r[0] == (k, v));
        assert(r.drop_first() =~= Seq::<(Seq<char>, JsonV)>::empty());
        assert forall|k2: Seq<char>| k2 != k implies #[trigger] crate::kv::kv_get(r, k2)
            == crate::kv::kv_get(pairs, k2) by {
            assert(crate::kv::kv_get(r.drop_first(), k2) == None::<JsonV>);
        }
    } else if pairs[0].0 == k {
        let d = pairs.drop_first();
        assert(r[0] == (k, v));
        assert(r.drop_first() =~= remove_key(d, k));
        assert forall|k2: Seq<char>| k2 != k implies #[trigger] crate::kv::kv_get(r, k2)
            == crate::kv::kv_get(pairs, k2) by {
            lemma_remove_key_get(d, k, k2);
        }
    } else {
        let d = pairs.drop_first();
        lemma_set_key_semantics(d, k, v);
        assert(r[0] == pairs[0]);
        assert(r.drop_first() =~= set_key(d, k, v));
        assert forall|k2: Seq<char>| k2 != k implies #[trigger] crate::kv::kv_get(r, k2)
            == crate::kv::kv_get(pairs, k2) by {
            assert(crate::kv::kv_get(set_key(d, k, v), k2) == crate::kv::kv_get(d, k2));
        }
    }
}

/// Setting the same key and value a second time changes nothing.
proof fn lemma_set_key_twice(pairs: Seq<(Seq<char>, JsonV)>, k: Seq<char>, v: JsonV)
    ensures
        set_key(set_key(pairs, k, v), k, v) == set_key(pairs, k, v),
    decreases pairs.len(),
{
    let r = set_key(pairs, k, v);
    if pairs.len() == 0 {
        assert(r[0] == (k, v));
        assert(r.drop_first() =~= Seq::<(Seq<char>, JsonV)>::empty());
        assert(set_key(r, k, v) =~= r);
    } else if pairs[0].0 == k {
        let rest = remove_key(pairs.drop_first(), k);
        assert(r[0] == (k, v));
        assert(r.drop_first() =~= rest);
        lemma_remove_key_absent(pairs.drop_first(), k);
        lemma_remove_key_noop(rest, k);
        assert(set_key(r, k, v) =~= r);
    } else {
        lemma_set_key_twice(pairs.drop_first(), k, v);
        let inner = set_key(pairs.drop_first(), k, v);
        assert(r[0] == pairs[0]);
        assert(r.drop_first() =~= inner);
        assert(set_key(r, k, v) =~= seq![pairs[0]] + set_key(inner, k, v));
        assert(set_key(r, k, v) =~= r);
    }
}

/// Idempotent sync: writing the settings produced by one sync and syncing
/// again with the same catalogue writes exactly the same bytes, and the
/// non-catalogue members stay as the first sync left them.
pub proof fn lemma_gemini_idempotent(ps: Seq<(Seq<char>, JsonV)>, c: CatV)
    requires
        cat_wf(c),
        forall|m: int| 0 <= m < ps.len() ==> wf_json((#[trigger] ps[m]).1),
    ensures
        gemini_out(gemini_out_of_obj(ps, c), c) == Some(gemini_out_of_obj(ps, c)->Some_0),
        gemini_out_of_obj(ps, c) is Some,
{
    let k = key_mcp();
    let s = servers_obj(c);
    lemma_servers_obj_wf(c);
    lemma_set_key_wf(ps, k, s);
    let merged = JsonV::Obj(set_key(ps, k, s));
    assert(wf_json(merged));
    crate::json::lemma_json_round_trip(merged, seq!['\n']);
    lemma_set_key_twice(ps, k, s);
}

/// The text one sync writes, starting from a parsed settings object.
pub open spec fn gemini_out_of_obj(ps: Seq<(Seq<char>, JsonV)>, c: CatV) -> Option<Seq<char>> {
    Some(ser(JsonV::Obj(set_key(ps, key_mcp(), servers_obj(c)))) + seq!['\n'])
}

// ---------------------------------------------------------------------------
// Executable adapter
// ---------------------------------------------------------------------------

/// All members named `key` removed.
fn remove_key_exec(pairs: Vec<(String, Json)>, key: &str) -> (r: Vec<(String, Json)>)
    ensures
        crate::json::ps_of(r@) == remove_key(crate::json::ps_of(pairs@), key@),
    decreases pairs@.len(),
{
    let ghost all = crate::json::ps_of(pairs@);
    let mut pairs = pairs;
    if pairs.len() == 0 {
        proof {
            assert(crate::json::ps_of(pairs@) =~= all);
        }
        pairs
    } else {
        let head = pairs.remove(0);
        let ghost headv = (head.0@, head.1@);
        proof {
            assert(all[0] == headv);
            assert(crate::json::ps_of(pairs@) =~= all.drop_first());
        }
        let rest = remove_key_exec(pairs, key);
        if crate::kv::str_eq_exec(head.0.as_str(), key) {
            rest
        } else {
            let ghost restv = crate::json::ps_of(rest@);
            let mut out: Vec<(String, Json)> = Vec::new();
            out.push(head);
            let mut rest = rest;
            out.append(&mut rest);
            proof {
                assert(crate::json::ps_of(out@) =~= seq![headv] + restv);
            }
            out
        }
    }
}

/// The member `key` set to `val`.
fn set_key_exec(pairs: Vec<(String, Json)>, key: String, val: Json) -> (r: Vec<(String, Json)>)
    ensures
        crate::json::ps_of(r@) == set_key(crate::json::ps_of(pairs@), key@, val@),
    decreases pairs@.len(),
{
    let ghost all = crate::json::ps_of(pairs@);
    let ghost kv0 = (key@, val@);
    let mut pairs = pairs;
    if pairs.len() == 0 {
        let mut out: Vec<(String, Json)> = Vec::new();
        out.push((key, val));
        proof {
            assert(crate::json::ps_of(out@) =~= seq![kv0]);
        }
        out
    } else {
        let head = pairs.remove(0);
        let ghost headv = (head.0@, head.1@);
        proof {
            assert(all[0] == headv);
            assert(crate::json::ps_of(pairs@) =~= all.drop_first());
        }
        if crate::kv::str_eq_exec(head.0.as_str(), key.as_str()) {
            let rest = remove_key_exec(pairs, key.as_str());
            let ghost restv = crate::json::ps_of(rest@);
            let mut out: Vec<(String, Json)> = Vec::new();
            out.push((key, val));
            let mut rest = rest;
            out.append(&mut rest);
            proof {
                assert(crate::json::ps_of(out@) =~= seq![kv0] + restv);
            }
            out
        } else {
            let rest = set_key_exec(pairs, key, val);
            let ghost restv = crate::json::ps_of(rest@);
            let mut out: Vec<(String, Json)> = Vec::new();
            out.push(head);
            let mut rest = rest;
            out.append(&mut rest);
            proof {
                assert(crate::json::ps_of(out@) =~= seq![headv] + restv);
            }
            out
        }
    }
}

/// The catalogue-owned value as a document.
fn servers_obj_exec(c: &McpCatalogue) -> (r: Json)
    ensures
        r@ == servers_obj(c@),
{
    let mut servers: Vec<(String, Json)> = Vec::new();
    let n = c.mcp_servers.len();
    let mut k: usize = 0;
    while k < n
        invariant
            n == c.mcp_servers@.len(),
            k <= n,
            servers@.len() == k,
            forall|m: int| 0 <= m < k ==> (#[trigger] servers@[m]).0@ == c.mcp_servers@[m].0@
                && servers@[m].1@ == entry_to_json(c.mcp_servers@[m].1@),
        decreases n - k,
    {
        let j = entry_to_json_exec(&c.mcp_servers[k].1);
        servers.push((c.mcp_servers[k].0.clone(), j));
        k = k + 1;
    }
    proof {
        assert(crate::json::ps_of(servers@) =~= c@.servers.map(
            |i: int, p: (Seq<char>, ServerV)| (p.0, entry_to_json(p.1)),
        ));
    }
    Json::Obj(servers)
}

/// Synchronises the settings document from the local catalogue.
pub struct GeminiSync;

impl GeminiSync {
    /// The settings text to write: the existing document (an empty object
    /// when the file is absent) with exactly the `mcpServers` member
    /// replaced by the catalogue's server mapping. A file that does not
    /// parse is a format error; one that parses but is not an object is a
    /// configuration error, never silently discarded.
    pub fn sync(existing: Option<&String>, catalogue: &McpCatalogue) -> (r: Result<
        String,
        AppError,
    >)
        ensures
            match r {
                Ok(s) => gemini_out(
                    match existing {
                        Some(t) => Some(t@),
                        None => None,
                    },
                    catalogue@,
                ) == Some(s@),
                Err(e) => gemini_out(
                    match existing {
                        Some(t) => Some(t@),
                        None => None,
                    },
                    catalogue@,
                ) is None && (match settings_doc(
                    match existing {
                        Some(t) => Some(t@),
                        None => None,
                    },
                ) {
                    None => e is Json,
                    Some(_) => e is Config,
                }),
            },
    {
        let doc: Json = match existing {
            None => Json::Obj(Vec::new()),
            Some(t) => match parse_json(t.as_str()) {
                Ok(j) => j,
                Err(e) => {
                    return Err(e);
                },
            },
        };
        proof {
            match existing {
                None => {
                    match &doc {
                        Json::Obj(ps) => {
                            assert(crate::json::ps_of(ps@) =~= Seq::<(Seq<char>, JsonV)>::empty());
                        },
                        _ => {},
                    }
                },
                Some(_) => {},
            }
        }
        match doc {
            Json::Obj(pairs) => {
                let sj = servers_obj_exec(catalogue);
                let merged = set_key_exec(pairs, key_mcp_str(), sj);
                let out_doc = Json::Obj(merged);
                let mut text = ser_json(&out_doc);
                text.push('\n');
                proof {
                    assert(text@ =~= ser(out_doc@) + seq!['\n']);
                }
                Ok(text)
            },
            _ => Err(
                AppError::Config("settings file is not a JSON object".to_owned()),
            ),
        }
    }
}

} // verus!
