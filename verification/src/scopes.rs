//! The three catalogue scopes: the embedded master template, the per-user
//! store derived from it, and the per-project store found by walking up
//! from the working directory.
//!
//! All file reading and writing stays with the caller; the functions here
//! decide what is written and interpret what was read.

use crate::error::AppError;
use crate::expand::{expand_cat_spec, expand_catalogue};
use crate::kv::{kv_sorted, kvv, str_lt};
use crate::model::{
    cat_text, cat_wf, entry_wf, lemma_catalogue_round_trip, parse_catalogue, serialize_catalogue,
    spec_parse_catalogue, CatV, McpCatalogue, McpServer, ServerV,
};
use crate::paths::{path_join, path_join_exec};
use vstd::prelude::*;

verus! {

// ---------------------------------------------------------------------------
// Master scope
// ---------------------------------------------------------------------------

/// The first seeded entry of the shipped template.
pub open spec fn context7_v() -> ServerV {
    ServerV {
        server_type: None,
        command: Some("npx"@),
        args: seq!["-y"@, "@upstash/context7-mcp"@],
        env: seq![("CONTEXT7_API_KEY"@, "${CONTEXT7_API_KEY}"@)],
        description: Some("Context7 documentation lookup"@),
        timeout: None,
        extra: Seq::empty(),
    }
}

/// The second seeded entry of the shipped template.
pub open spec fn serena_v() -> ServerV {
    ServerV {
        server_type: None,
        command: Some("uvx"@),
        args: seq!["serena-mcp-server"@],
        env: Seq::empty(),
        description: Some("Serena coding agent toolkit"@),
        timeout: None,
        extra: Seq::empty(),
    }
}

/// The shipped template: the catalogue every installation starts from.
pub open spec fn master_cat_v() -> CatV {
    CatV {
        servers: seq![("context7"@, context7_v()), ("serena"@, serena_v())],
        extras: Seq::empty(),
    }
}

/// The shipped template is a well-formed catalogue.
pub proof fn lemma_master_wf()
    ensures
        cat_wf(master_cat_v()),
{
    let c = master_cat_v();
    assert(entry_wf(context7_v())) by {
        assert(kv_sorted(context7_v().env));
        assert(kv_sorted(context7_v().extra));
    }
    assert(entry_wf(serena_v()));
    assert(str_lt("context7"@, "serena"@)) by {
        reveal_strlit("context7");
        reveal_strlit("serena");
    }
    assert(kv_sorted(c.servers));
    assert(kv_sorted(c.extras));
}

/// The serialized template parses back to the template: a corrupt master
/// copy can always be healed by rewriting it from the template.
pub proof fn lemma_template_parses()
    ensures
        spec_parse_catalogue(cat_text(master_cat_v())) == Some(master_cat_v()),
{
    lemma_master_wf();
    lemma_catalogue_round_trip(master_cat_v());
}

/// The immutable shipped catalogue.
pub struct MasterCatalogue;

impl MasterCatalogue {
    /// The embedded template as a catalogue value.
    pub fn embedded() -> (r: McpCatalogue)
        ensures
            r@ == master_cat_v(),
    {
        let mut c7_args: Vec<String> = Vec::new();
        c7_args.push("-y".to_owned());
        c7_args.push("@upstash/context7-mcp".to_owned());
        let mut c7_env: Vec<(String, String)> = Vec::new();
        c7_env.push(("CONTEXT7_API_KEY".to_owned(), "${CONTEXT7_API_KEY}".to_owned()));
        let c7 = McpServer {
            server_type: None,
            command: Some("npx".to_owned()),
            args: c7_args,
            env: c7_env,
            description: Some("Context7 documentation lookup".to_owned()),
            timeout: None,
            extra: Vec::new(),
        };
        let mut se_args: Vec<String> = Vec::new();
        se_args.push("serena-mcp-server".to_owned());
        let se = McpServer {
            server_type: None,
            command: Some("uvx".to_owned()),
            args: se_args,
            env: Vec::new(),
            description: Some("Serena coding agent toolkit".to_owned()),
            timeout: None,
            extra: Vec::new(),
        };
        proof {
            assert(crate::model::strs_view(c7.args@) =~= context7_v().args);
            assert(kvv(c7.env@) =~= context7_v().env);
            assert(kvv(c7.extra@) =~= Seq::<(Seq<char>, crate::json::JsonV)>::empty());
            assert(c7@ == context7_v());
            assert(crate::model::strs_view(se.args@) =~= serena_v().args);
            assert(kvv(se.env@) =~= Seq::<(Seq<char>, Seq<char>)>::empty());
            assert(kvv(se.extra@) =~= Seq::<(Seq<char>, crate::json::JsonV)>::empty());
            assert(se@ == serena_v());
        }
        let mut servers: Vec<(String, McpServer)> = Vec::new();
        servers.push(("context7".to_owned(), c7));
        servers.push(("serena".to_owned(), se));
        let r = McpCatalogue { mcp_servers: servers, extras: Vec::new() };
        proof {
            assert(kvv(r.mcp_servers@) =~= master_cat_v().servers);
            assert(kvv(r.extras@) =~= Seq::<(Seq<char>, crate::json::JsonV)>::empty());
        }
        r
    }

    /// The template's file text, as written to the master location.
    pub fn template_text() -> (r: String)
        ensures
            r@ == cat_text(master_cat_v()),
    {
        let c = MasterCatalogue::embedded();
        serialize_catalogue(&c)
    }

    /// Interpret the master file's contents. On failure the caller rewrites
    /// the file from [`MasterCatalogue::template_text`] and retries once;
    /// [`lemma_template_parses`] shows that retry cannot fail.
    pub fn load(contents: &str) -> (r: Result<McpCatalogue, AppError>)
        ensures
            match r {
                Ok(c) => spec_parse_catalogue(contents@) == Some(c@) && cat_wf(c@),
                Err(e) => spec_parse_catalogue(contents@) is None && e is Json,
            },
    {
        parse_catalogue(contents)
    }
}

// ---------------------------------------------------------------------------
// Global scope
// ---------------------------------------------------------------------------

/// The per-user catalogue store.
pub struct GlobalCatalogue;

impl GlobalCatalogue {
    /// Derive the per-user catalogue from the master: every entry copied
    /// with placeholder expansion applied to its environment values.
    pub fn derive(master: &McpCatalogue, env: &Vec<(String, String)>) -> (r: McpCatalogue)
        ensures
            r@ == expand_cat_spec(master@, kvv(env@)),
    {
        expand_catalogue(master, env)
    }

    /// Interpret a read of the per-user file: an absent file is a
    /// missing-file error naming its path — callers that want
    /// auto-creation must ensure the file first, not load it.
    pub fn load(contents: Option<&String>, path: &str) -> (r: Result<McpCatalogue, AppError>)
        ensures
            match contents {
                None => r matches Err(e) && (e matches AppError::MissingFile(p) && p@ == path@),
                Some(t) => match r {
                    Ok(c) => spec_parse_catalogue(t@) == Some(c@) && cat_wf(c@),
                    Err(e) => spec_parse_catalogue(t@) is None && e is Json,
                },
            },
    {
        match contents {
            None => Err(AppError::missing_file(path.to_owned())),
            Some(t) => parse_catalogue(t.as_str()),
        }
    }
}

// ---------------------------------------------------------------------------
// Local scope
// ---------------------------------------------------------------------------

/// The fixed name of a per-project catalogue file.
pub open spec fn local_file_name() -> Seq<char> {
    ".mcp.json"@
}

/// Index of the last path separator, or -1.
pub open spec fn last_slash(p: Seq<char>) -> int
    decreases p.len(),
{
    if p.len() == 0 {
        -1
    } else if p.last() == '/' {
        p.len() - 1
    } else {
        last_slash(p.drop_last())
    }
}

/// The parent directory of a path, if it has one.
pub open spec fn parent_of(p: Seq<char>) -> Option<Seq<char>> {
    if p.len() == 0 {
        None
    } else if p == seq!['/'] {
        None
    } else {
        let i = last_slash(p);
        if i == -1 {
            Some(Seq::empty())
        } else if i == 0 {
            Some(seq!['/'])
        } else {
            Some(p.take(i))
        }
    }
}

/// A path's parent, when it has one, is strictly shorter.
pub proof fn lemma_parent_shorter(p: Seq<char>)
    ensures
        parent_of(p) is Some ==> parent_of(p)->Some_0.len() < p.len(),
{
    lemma_last_slash_range(p);
    if parent_of(p) is Some {
        let i = last_slash(p);
        if i == 0 && p.len() == 1 {
            assert(p[0] == '/');
            assert(p =~= seq!['/']);
        }
    }
}

/// The last separator index lies inside the path, or is -1, and names a
/// separator when it is an index.
pub proof fn lemma_last_slash_range(p: Seq<char>)
    ensures
        -1 <= last_slash(p) < p.len(),
        last_slash(p) >= 0 ==> p[last_slash(p)] == '/',
    decreases p.len(),
{
    if p.len() > 0 && p.last() != '/' {
        lemma_last_slash_range(p.drop_last());
        if last_slash(p) >= 0 {
            assert(p.drop_last()[last_slash(p)] == p[last_slash(p)]);
        }
    }
}

/// The candidate catalogue locations: the starting directory and each
/// ancestor in turn, each joined with the fixed file name.
pub open spec fn candidate_paths_spec(p: Seq<char>) -> Seq<Seq<char>>
    decreases p.len(),
    via candidate_paths_dec
{
    seq![path_join(p, local_file_name())] + (match parent_of(p) {
        Some(q) => candidate_paths_spec(q),
        None => Seq::empty(),
    })
}

/// Relies on std::path::Path::exists: whether the path names an existing
/// filesystem entity; the answer depends on the state of the disk, so
/// nothing is assumed of it.
#[via_fn]
proof fn candidate_paths_dec(p: Seq<char>) {
    lemma_parent_shorter(p);
}

#[verifier::external_body]
fn path_exists(p: &str) -> bool {
    std::path::Path::new(p).exists()
}

/// The per-project catalogue store.
pub struct LocalCatalogue;

impl LocalCatalogue {
    /// Index of the last path separator, or none.
    fn last_slash_exec(p: &str) -> (r: Option<usize>)
        ensures
            match r {
                Some(i) => last_slash(p@) == i as int && i < p@.len(),
                None => last_slash(p@) == -1,
            },
    {
        let n = p.unicode_len();
        let mut j: usize = n;
        proof {
            assert(p@.take(n as int) =~= p@);
        }
        while j > 0
            invariant
                n == p@.len(),
                j <= n,
                last_slash(p@) == last_slash(p@.take(j as int)),
            decreases j,
        {
            let ghost pre = p@.take(j as int);
            proof {
                assert(pre.last() == p@[j - 1]);
                assert(pre.drop_last() =~= p@.take(j - 1));
            }
            if p.get_char(j - 1) == '/' {
                return Some(j - 1);
            }
            j = j - 1;
        }
        proof {
            assert(p@.take(0) =~= Seq::<char>::empty());
        }
        None
    }

    /// The parent directory of a path, if it has one.
    pub fn parent_of_path(p: &str) -> (r: Option<String>)
        ensures
            match r {
                Some(q) => parent_of(p@) == Some(q@),
                None => parent_of(p@) is None,
            },
    {
        let n = p.unicode_len();
        if n == 0 {
            return None;
        }
        if n == 1 && p.get_char(0) == '/' {
            proof {
                assert(p@ =~= seq!['/']);
            }
            return None;
        }
        proof {
            if p@ == seq!['/'] {
                assert(p@.len() == 1);
            }
        }
        match Self::last_slash_exec(p) {
            None => Some(String::new()),
            Some(i) => {
                if i == 0 {
                    let r = "/".to_owned();
                    proof {
                        reveal_strlit("/");
                        assert(r@ =~= seq!['/']);
                    }
                    Some(r)
                } else {
                    Some(p.substring_char(0, i).to_owned())
                }
            },
        }
    }

    /// The candidate catalogue locations for a starting directory, nearest
    /// first.
    pub fn candidate_paths(start_dir: &str) -> (r: Vec<String>)
        ensures
            crate::model::strs_view(r@) == candidate_paths_spec(start_dir@),
        decreases start_dir@.len(),
    {
        let mut out: Vec<String> = Vec::new();
        out.push(path_join_exec(start_dir, ".mcp.json"));
        match Self::parent_of_path(start_dir) {
            Some(q) => {
                proof {
                    lemma_parent_shorter(start_dir@);
                }
                let mut rest = Self::candidate_paths(q.as_str());
                out.append(&mut rest);
            },
            None => {},
        }
        proof {
            assert(crate::model::strs_view(out@) =~= candidate_paths_spec(start_dir@));
        }
        out
    }

    /// The first candidate whose index is marked present, if any: the
    /// nearest hit wins, whatever stands further up.
    pub fn pick_first_present(candidates: &Vec<String>, present: &Vec<bool>) -> (r: Option<usize>)
        requires
            candidates@.len() == present@.len(),
        ensures
            match r {
                Some(i) => i < candidates@.len() && present@[i as int] && (forall|m: int|
                    0 <= m < i ==> !present@[m]),
                None => forall|m: int| 0 <= m < present@.len() ==> !present@[m],
            },
    {
        let n = candidates.len();
        let mut k: usize = 0;
        while k < n
            invariant
                n == present@.len(),
                n == candidates@.len(),
                k <= n,
                forall|m: int| 0 <= m < k ==> !present@[m],
            decreases n - k,
        {
            if present[k] {
                return Some(k);
            }
            k = k + 1;
        }
        None
    }

    /// Search the starting directory and each ancestor for a catalogue
    /// file. Every candidate location is probed, and the choice among the
    /// probe results goes through [`LocalCatalogue::pick_first_present`],
    /// whose contract pins that the nearest hit wins. Which candidates
    /// exist depends on the disk, so of the result itself only its shape
    /// is stated.
    pub fn discover(start_dir: &str) -> (r: Option<String>)
        ensures
            match r {
                Some(p) => exists|i: int|
                    0 <= i < candidate_paths_spec(start_dir@).len() && p@
                        == candidate_paths_spec(start_dir@)[i],
                None => true,
            },
    {
        let cands = Self::candidate_paths(start_dir);
        let n = cands.len();
        let mut present: Vec<bool> = Vec::new();
        let mut k: usize = 0;
        while k < n
            invariant
                n == cands@.len(),
                k <= n,
                present@.len() == k,
            decreases n - k,
        {
            present.push(path_exists(cands[k].as_str()));
            k = k + 1;
        }
        match Self::pick_first_present(&cands, &present) {
            Some(i) => {
                let p = cands[i].clone();
                proof {
                    assert(crate::model::strs_view(cands@)[i as int] == candidate_paths_spec(
                        start_dir@,
                    )[i as int]);
                }
                Some(p)
            },
            None => None,
        }
    }

    /// Interpret the outcome of discovery and reading: when no catalogue
    /// was discoverable anywhere in the ancestor chain the error is a
    /// configuration error — the project is not initialised here — never
    /// a missing-file error.
    pub fn load(contents: Option<&String>) -> (r: Result<McpCatalogue, AppError>)
        ensures
            match contents {
                None => r matches Err(e) && e is Config,
                Some(t) => match r {
                    Ok(c) => spec_parse_catalogue(t@) == Some(c@) && cat_wf(c@),
                    Err(e) => spec_parse_catalogue(t@) is None && e is Json,
                },
            },
    {
        match contents {
            None => Err(
                AppError::Config("No .mcp.json found in current directory or any parent".to_owned()),
            ),
            Some(t) => parse_catalogue(t.as_str()),
        }
    }

    /// Decide an `init` with an empty catalogue: refused outright when the
    /// file already exists in the target directory, else the path and the
    /// exact content to write.
    pub fn init_empty(target_dir: &str, already_exists: bool) -> (r: Result<
        (String, String),
        AppError,
    >)
        ensures
            already_exists ==> r is Err && r->Err_0 is Config,
            !already_exists ==> r is Ok && r->Ok_0.0@ == path_join(target_dir@, local_file_name())
                && r->Ok_0.1@ == cat_text(CatV { servers: Seq::empty(), extras: Seq::empty() }),
    {
        if already_exists {
            Err(AppError::Config(".mcp.json already exists here".to_owned()))
        } else {
            let path = path_join_exec(target_dir, ".mcp.json");
            let c = McpCatalogue::empty();
            let content = serialize_catalogue(&c);
            Ok((path, content))
        }
    }

    /// Decide an `init --from-global`: the same existence check, then a
    /// byte-identical copy of the per-user catalogue's serialized form.
    pub fn init_from_global(target_dir: &str, already_exists: bool, global: &McpCatalogue) -> (r:
        Result<(String, String), AppError>)
        ensures
            already_exists ==> r is Err && r->Err_0 is Config,
            !already_exists ==> r is Ok && r->Ok_0.0@ == path_join(target_dir@, local_file_name())
                && r->Ok_0.1@ == cat_text(global@),
    {
        if already_exists {
            Err(AppError::Config(".mcp.json already exists here".to_owned()))
        } else {
            let path = path_join_exec(target_dir, ".mcp.json");
            let content = serialize_catalogue(global);
            Ok((path, content))
        }
    }
}

} // verus!
