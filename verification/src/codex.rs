//! The TOML configuration adapter: rebuild the top-level `mcp_servers`
//! table of an existing document from the local catalogue, preserving
//! every other top-level item. The document itself is handled by the
//! `toml_edit` crate behind trusted declarations; which fields are
//! written, with which values, is decided and verified here.

use crate::error::AppError;
use crate::kv::kvv;
use crate::model::{
    key_args, key_command, key_env, key_timeout, key_type, CatV, McpCatalogue, McpServer, ServerV,
};
use vstd::prelude::*;

verus! {

#[verifier::external_type_specification]
#[verifier::external_body]
pub struct ExDocumentMut(toml_edit::DocumentMut);

#[verifier::external_type_specification]
#[verifier::external_body]
pub struct ExTable(toml_edit::Table);

#[verifier::external_type_specification]
#[verifier::external_body]
pub struct ExArray(toml_edit::Array);

#[verifier::external_type_specification]
#[verifier::external_body]
pub struct ExItem(toml_edit::Item);

/// A value this adapter may write into the document, as the contracts
/// speak of it.
pub enum TField {
    S(Seq<char>),
    I(int),
    A(Seq<Seq<char>>),
    Sub(Map<Seq<char>, TField>),
}

/// The top-level items of a document, by key.
pub uninterp spec fn doc_items(d: toml_edit::DocumentMut) -> Map<Seq<char>, toml_edit::Item>;

/// The fields of a table, by key, as far as this adapter writes them.
pub uninterp spec fn table_fields(t: toml_edit::Table) -> Map<Seq<char>, TField>;

/// The strings a value array holds.
pub uninterp spec fn array_strings(a: toml_edit::Array) -> Seq<Seq<char>>;

/// The item wrapping a table.
pub uninterp spec fn item_of_table(t: toml_edit::Table) -> toml_edit::Item;

/// The text a document renders to.
pub uninterp spec fn doc_render(d: toml_edit::DocumentMut) -> Seq<char>;

/// Does a text parse as a TOML document? The answer depends on the text
/// alone.
pub uninterp spec fn toml_parse_ok(s: Seq<char>) -> bool;

/// The top-level items of the document a text parses to.
pub uninterp spec fn toml_items_of(s: Seq<char>) -> Map<Seq<char>, toml_edit::Item>;

/// Is the table displayed even when it has no key-value pairs?
pub uninterp spec fn table_explicit(t: toml_edit::Table) -> bool;

/// A table model with nothing in it.
pub open spec fn no_fields() -> Map<Seq<char>, TField> {
    Map::empty()
}

/// An array model with nothing in it.
pub open spec fn no_strings() -> Seq<Seq<char>> {
    Seq::empty()
}

/// Relies on str::parse for toml_edit::DocumentMut: parse a TOML text,
/// or report the parser's message; which texts parse, and to which items,
/// is a function of the text alone.
#[verifier::external_body]
fn toml_parse(text: &str) -> (r: Result<toml_edit::DocumentMut, String>)
    ensures
        r is Ok <==> toml_parse_ok(text@),
        r matches Ok(d) ==> doc_items(d) == toml_items_of(text@),
{
    match text.parse::<toml_edit::DocumentMut>() {
        Ok(d) => Ok(d),
        Err(e) => Err(e.to_string()),
    }
}

/// Relies on toml_edit::Table::remove on the document's root table: the
/// top-level item of that key is gone, the rest stay.
#[verifier::external_body]
fn doc_remove(d: &mut toml_edit::DocumentMut, key: &str)
    ensures
        doc_items(*final(d)) == doc_items(*old(d)).remove(key@),
{
    d.as_table_mut().remove(key);
}

/// Relies on toml_edit::Table::insert on the document's root table: the
/// key is bound to the given table, the rest stay.
#[verifier::external_body]
fn doc_insert_table(d: &mut toml_edit::DocumentMut, key: &str, t: toml_edit::Table)
    ensures
        doc_items(*final(d)) == doc_items(*old(d)).insert(key@, item_of_table(t)),
{
    d.as_table_mut().insert(key, toml_edit::Item::Table(t));
}

/// Relies on Display for toml_edit::DocumentMut: the document's text.
#[verifier::external_body]
fn doc_to_text(d: &toml_edit::DocumentMut) -> (r: String)
    ensures
        r@ == doc_render(*d),
{
    d.to_string()
}

/// Relies on toml_edit::Table::new: a table with no fields, displayed
/// even while empty (a fresh table is not implicit).
#[verifier::external_body]
fn new_table() -> (t: toml_edit::Table)
    ensures
        table_fields(t) == no_fields(),
        table_explicit(t),
{
    toml_edit::Table::new()
}

/// Relies on toml_edit::Table::set_implicit: display form only; the
/// fields are unchanged.
#[verifier::external_body]
fn table_set_explicit(t: &mut toml_edit::Table)
    ensures
        table_fields(*final(t)) == table_fields(*old(t)),
        table_explicit(*final(t)),
{
    t.set_implicit(false);
}

/// Relies on toml_edit::Table::insert with a string value.
#[verifier::external_body]
fn table_set_str(t: &mut toml_edit::Table, key: &str, v: &str)
    ensures
        table_fields(*final(t)) == table_fields(*old(t)).insert(key@, TField::S(v@)),
        table_explicit(*final(t)) == table_explicit(*old(t)),
{
    t.insert(key, toml_edit::value(v));
}

/// Relies on toml_edit::Table::insert with an integer value.
#[verifier::external_body]
fn table_set_i64(t: &mut toml_edit::Table, key: &str, v: i64)
    ensures
        table_fields(*final(t)) == table_fields(*old(t)).insert(key@, TField::I(v as int)),
        table_explicit(*final(t)) == table_explicit(*old(t)),
{
    t.insert(key, toml_edit::value(v));
}

/// Relies on toml_edit::Table::insert with an array value.
#[verifier::external_body]
fn table_set_array(t: &mut toml_edit::Table, key: &str, a: toml_edit::Array)
    ensures
        table_fields(*final(t)) == table_fields(*old(t)).insert(key@, TField::A(array_strings(a))),
        table_explicit(*final(t)) == table_explicit(*old(t)),
{
    t.insert(key, toml_edit::Item::Value(toml_edit::Value::Array(a)));
}

/// Relies on toml_edit::Table::insert with a sub-table.
#[verifier::external_body]
fn table_set_table(t: &mut toml_edit::Table, key: &str, sub: toml_edit::Table)
    ensures
        table_fields(*final(t)) == table_fields(*old(t)).insert(
            key@,
            TField::Sub(table_fields(sub)),
        ),
        table_explicit(*final(t)) == table_explicit(*old(t)),
{
    t.insert(key, toml_edit::Item::Table(sub));
}

/// Relies on toml_edit::Array::new: an array with no values.
#[verifier::external_body]
fn new_array() -> (a: toml_edit::Array)
    ensures
        array_strings(a) == no_strings(),
{
    toml_edit::Array::new()
}

/// Relies on toml_edit::Array::push with a string.
#[verifier::external_body]
fn array_push_str(a: &mut toml_edit::Array, v: &str)
    ensures
        array_strings(*final(a)) == array_strings(*old(a)).push(v@),
{
    a.push(v);
}

// ---------------------------------------------------------------------------
// What is written
// ---------------------------------------------------------------------------

/// The top-level key this adapter owns.
pub open spec fn key_mcp_servers() -> Seq<char> {
    "mcp_servers"@
}

/// The environment sub-table: one string field per variable.
pub open spec fn env_plan(env: Seq<(Seq<char>, Seq<char>)>) -> Map<Seq<char>, TField>
    decreases env.len(),
{
    if env.len() == 0 {
        Map::empty()
    } else {
        env_plan(env.drop_last()).insert(env.last().0, TField::S(env.last().1))
    }
}

/// One entry's sub-table: exactly the fields that are present on the
/// entry; absent fields are omitted, never written as empty values. The
/// description is for people and is not projected here.
pub open spec fn entry_plan(e: ServerV) -> Map<Seq<char>, TField> {
    let m0 = Map::<Seq<char>, TField>::empty();
    let m1 = match e.server_type {
        Some(s) => m0.insert(key_type(), TField::S(s)),
        None => m0,
    };
    let m2 = match e.command {
        Some(c) => m1.insert(key_command(), TField::S(c)),
        None => m1,
    };
    let m3 = if e.args.len() > 0 {
        m2.insert(key_args(), TField::A(e.args))
    } else {
        m2
    };
    let m4 = if e.env.len() > 0 {
        m3.insert(key_env(), TField::Sub(env_plan(e.env)))
    } else {
        m3
    };
    match e.timeout {
        Some(t) => m4.insert(key_timeout(), TField::I(t as i64 as int)),
        None => m4,
    }
}

/// The whole owned table: one sub-table per server.
pub open spec fn servers_plan(servers: Seq<(Seq<char>, ServerV)>) -> Map<Seq<char>, TField>
    decreases servers.len(),
{
    if servers.len() == 0 {
        Map::empty()
    } else {
        servers_plan(servers.drop_last()).insert(
            servers.last().0,
            TField::Sub(entry_plan(servers.last().1)),
        )
    }
}

/// A catalogue with no entries yields an empty, still present, owned
/// table.
pub proof fn lemma_codex_empty_block(servers: Seq<(Seq<char>, ServerV)>)
    requires
        servers.len() == 0,
    ensures
        servers_plan(servers) == Map::<Seq<char>, TField>::empty(),
{
}

// ---------------------------------------------------------------------------
// Building the tables
// ---------------------------------------------------------------------------

fn build_env_table(env: &Vec<(String, String)>) -> (t: toml_edit::Table)
    ensures
        table_fields(t) == env_plan(kvv(env@)),
        table_explicit(t),
{
    let mut t = new_table();
    table_set_explicit(&mut t);
    let n = env.len();
    let mut k: usize = 0;
    proof {
        assert(kvv(env@).take(0) =~= Seq::<(Seq<char>, Seq<char>)>::empty());
    }
    while k < n
        invariant
            n == env@.len(),
            k <= n,
            table_fields(t) == env_plan(kvv(env@).take(k as int)),
            table_explicit(t),
        decreases n - k,
    {
        table_set_str(&mut t, env[k].0.as_str(), env[k].1.as_str());
        k = k + 1;
        proof {
            let pre = kvv(env@).take(k as int);
            assert(pre.drop_last() =~= kvv(env@).take(k - 1));
            assert(pre.last() == (env@[k - 1].0@, env@[k - 1].1@));
        }
    }
    proof {
        assert(kvv(env@).take(n as int) =~= kvv(env@));
    }
    t
}

fn build_entry_table(e: &McpServer) -> (t: toml_edit::Table)
    ensures
        table_fields(t) == entry_plan(e@),
        table_explicit(t),
{
    let mut t = new_table();
    table_set_explicit(&mut t);
    proof {
        reveal_strlit("type");
        reveal_strlit("command");
        reveal_strlit("args");
        reveal_strlit("env");
        reveal_strlit("timeout");
        assert("type"@ =~= key_type());
        assert("command"@ =~= key_command());
        assert("args"@ =~= key_args());
        assert("env"@ =~= key_env());
        assert("timeout"@ =~= key_timeout());
    }
    match &e.server_type {
        Some(s) => {
            table_set_str(&mut t, "type", s.as_str());
        },
        None => {},
    }
    match &e.command {
        Some(c) => {
            table_set_str(&mut t, "command", c.as_str());
        },
        None => {},
    }
    if e.args.len() > 0 {
        let mut a = new_array();
        let n = e.args.len();
        let mut k: usize = 0;
        while k < n
            invariant
                n == e.args@.len(),
                k <= n,
                array_strings(a) == crate::model::strs_view(e.args@).take(k as int),
            decreases n - k,
        {
            array_push_str(&mut a, e.args[k].as_str());
            k = k + 1;
            proof {
                assert(crate::model::strs_view(e.args@).take(k as int) =~= crate::model::strs_view(
                    e.args@,
                ).take(k - 1).push(e.args@[k - 1]@));
            }
        }
        proof {
            assert(crate::model::strs_view(e.args@).take(n as int) =~= crate::model::strs_view(
                e.args@,
            ));
        }
        table_set_array(&mut t, "args", a);
    }
    if e.env.len() > 0 {
        let env_t = build_env_table(&e.env);
        table_set_table(&mut t, "env", env_t);
    }
    match &e.timeout {
        Some(v) => {
            let iv = #[verifier::truncate] (*v as i64);
            table_set_i64(&mut t, "timeout", iv);
        },
        None => {},
    }
    t
}

/// Build the whole owned table for a catalogue.
pub fn build_servers_table(c: &McpCatalogue) -> (t: toml_edit::Table)
    ensures
        table_fields(t) == servers_plan(c@.servers),
        table_explicit(t),
{
    let mut t = new_table();
    table_set_explicit(&mut t);
    let n = c.mcp_servers.len();
    let mut k: usize = 0;
    proof {
        assert(c@.servers.take(0) =~= Seq::<(Seq<char>, ServerV)>::empty());
    }
    while k < n
        invariant
            n == c.mcp_servers@.len(),
            k <= n,
            table_fields(t) == servers_plan(c@.servers.take(k as int)),
            table_explicit(t),
        decreases n - k,
    {
        let sub = build_entry_table(&c.mcp_servers[k].1);
        table_set_table(&mut t, c.mcp_servers[k].0.as_str(), sub);
        k = k + 1;
        proof {
            let pre = c@.servers.take(k as int);
            assert(pre.drop_last() =~= c@.servers.take(k - 1));
            assert(pre.last() == (c.mcp_servers@[k - 1].0@, c.mcp_servers@[k - 1].1@));
        }
    }
    proof {
        assert(c@.servers.take(n as int) =~= c@.servers);
    }
    t
}

/// Synchronises the `mcp_servers` block of the TOML configuration.
pub struct CodexSync;

impl CodexSync {
    /// Replace the owned table of the document wholesale: the old one is
    /// removed, the given table is bound under the owned key, and every
    /// other top-level item stays.
    pub fn apply(doc: &mut toml_edit::DocumentMut, t: toml_edit::Table)
        ensures
            doc_items(*final(doc)) == doc_items(*old(doc)).remove(key_mcp_servers()).insert(
                key_mcp_servers(),
                item_of_table(t),
            ),
    {
        doc_remove(doc, "mcp_servers");
        doc_insert_table(doc, "mcp_servers", t);
    }

    /// Project the catalogue into the configuration text, operating only
    /// if the target exists: its absence means the tool is not installed
    /// here and is a skipped outcome, never an error. A file that does not
    /// parse as TOML is a format error; otherwise the result renders a
    /// document whose owned table holds exactly the planned fields, shown
    /// even when empty, with every other top-level item of the parsed
    /// document kept.
    pub fn sync(existing: Option<&String>, catalogue: &McpCatalogue) -> (r: Result<
        Option<String>,
        AppError,
    >)
        ensures
            r is Err <==> (existing matches Some(t) && !toml_parse_ok(t@)),
            r matches Err(e) ==> e is Toml,
            r matches Ok(out) ==> (out is None <==> existing is None),
            r matches Ok(Some(s)) ==> exists|
                d: toml_edit::DocumentMut,
                t: toml_edit::Table,
            |
                #![trigger doc_render(d), item_of_table(t)]
                s@ == doc_render(d) && doc_items(d) == toml_items_of(
                    existing->Some_0@,
                ).remove(key_mcp_servers()).insert(key_mcp_servers(), item_of_table(t))
                    && table_fields(t) == servers_plan(catalogue@.servers) && table_explicit(t),
    {
        match existing {
            None => Ok(None),
            Some(text) => {
                match toml_parse(text.as_str()) {
                    Ok(doc) => {
                        let mut doc = doc;
                        let t = build_servers_table(catalogue);
                        let ghost tw = t;
                        Self::apply(&mut doc, t);
                        let out = doc_to_text(&doc);
                        proof {
                            assert(out@ == doc_render(doc) && doc_items(doc) == toml_items_of(
                                text@,
                            ).remove(key_mcp_servers()).insert(
                                key_mcp_servers(),
                                item_of_table(tw),
                            ) && table_fields(tw) == servers_plan(catalogue@.servers)
                                && table_explicit(tw));
                        }
                        Ok(Some(out))
                    },
                    Err(msg) => Err(AppError::Toml(msg)),
                }
            },
        }
    }
}

} // verus!
