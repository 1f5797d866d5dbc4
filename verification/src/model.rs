//! The catalogue model: server entries, catalogues, and their JSON form.
//!
//! A catalogue is an ordered-by-key mapping from server name to entry, plus
//! a bag of unknown top-level fields kept verbatim; an entry likewise keeps
//! its unknown fields. Parsing a serialized catalogue yields an equal
//! catalogue, unknown fields included ([`lemma_catalogue_round_trip`]).

use crate::error::AppError;
use crate::json::{
    clone_json, is_digit, parse_json, ser, ser_json, spec_parse, wf_json, Json, JsonV,
};
use crate::kv::{kv_insert, kv_insert_spec, kv_sorted, kvv, str_eq_exec, str_lt};
use vstd::prelude::*;

verus! {

broadcast use vstd::std_specs::vec::group_vec_axioms;

// ---------------------------------------------------------------------------
// Field names
// ---------------------------------------------------------------------------

pub open spec fn key_type() -> Seq<char> {
    seq!['t', 'y', 'p', 'e']
}

pub open spec fn key_command() -> Seq<char> {
    seq!['c', 'o', 'm', 'm', 'a', 'n', 'd']
}

pub open spec fn key_args() -> Seq<char> {
    seq!['a', 'r', 'g', 's']
}

pub open spec fn key_env() -> Seq<char> {
    seq!['e', 'n', 'v']
}

pub open spec fn key_description() -> Seq<char> {
    seq!['d', 'e', 's', 'c', 'r', 'i', 'p', 't', 'i', 'o', 'n']
}

pub open spec fn key_timeout() -> Seq<char> {
    seq!['t', 'i', 'm', 'e', 'o', 'u', 't']
}

/// The one top-level field the catalogue owns: `mcpServers`.
pub open spec fn key_mcp() -> Seq<char> {
    seq!['m', 'c', 'p', 'S', 'e', 'r', 'v', 'e', 'r', 's']
}

/// A field name an entry interprets rather than keeps as an unknown field.
pub open spec fn known_entry_key(k: Seq<char>) -> bool {
    k == key_type() || k == key_command() || k == key_args() || k == key_env() || k
        == key_description() || k == key_timeout()
}

pub fn key_type_str() -> (r: String)
    ensures
        r@ == key_type(),
{
    let s = "type".to_owned();
    proof {
        reveal_strlit("type");
        assert(s@ =~= key_type());
    }
    s
}

pub fn key_command_str() -> (r: String)
    ensures
        r@ == key_command(),
{
    let s = "command".to_owned();
    proof {
        reveal_strlit("command");
        assert(s@ =~= key_command());
    }
    s
}

pub fn key_args_str() -> (r: String)
    ensures
        r@ == key_args(),
{
    let s = "args".to_owned();
    proof {
        reveal_strlit("args");
        assert(s@ =~= key_args());
    }
    s
}

pub fn key_env_str() -> (r: String)
    ensures
        r@ == key_env(),
{
    let s = "env".to_owned();
    proof {
        reveal_strlit("env");
        assert(s@ =~= key_env());
    }
    s
}

pub fn key_description_str() -> (r: String)
    ensures
        r@ == key_description(),
{
    let s = "description".to_owned();
    proof {
        reveal_strlit("description");
        assert(s@ =~= key_description());
    }
    s
}

pub fn key_timeout_str() -> (r: String)
    ensures
        r@ == key_timeout(),
{
    let s = "timeout".to_owned();
    proof {
        reveal_strlit("timeout");
        assert(s@ =~= key_timeout());
    }
    s
}

pub fn key_mcp_str() -> (r: String)
    ensures
        r@ == key_mcp(),
{
    let s = "mcpServers".to_owned();
    proof {
        reveal_strlit("mcpServers");
        assert(s@ =~= key_mcp());
    }
    s
}

// ---------------------------------------------------------------------------
// Decimal tokens for timeouts
// ---------------------------------------------------------------------------

/// The digit character for `d`.
pub open spec fn dig(d: nat) -> char {
    if d == 0 {
        '0'
    } else if d == 1 {
        '1'
    } else if d == 2 {
        '2'
    } else if d == 3 {
        '3'
    } else if d == 4 {
        '4'
    } else if d == 5 {
        '5'
    } else if d == 6 {
        '6'
    } else if d == 7 {
        '7'
    } else if d == 8 {
        '8'
    } else {
        '9'
    }
}

/// The value of a digit character.
pub open spec fn dval(c: char) -> nat {
    ((c as u32) - ('0' as u32)) as nat
}

/// Decimal text of `n`, most significant digit first, no leading zeros.
pub open spec fn dec_str(n: nat) -> Seq<char>
    decreases n,
{
    if n < 10 {
        seq![dig(n)]
    } else {
        dec_str(n / 10).push(dig(n % 10))
    }
}

/// Do all characters denote digits?
pub open spec fn all_digits(s: Seq<char>) -> bool {
    forall|i: int| 0 <= i < s.len() ==> is_digit(#[trigger] s[i])
}

/// The number a digit string denotes.
pub open spec fn dec_val(s: Seq<char>) -> nat
    decreases s.len(),
{
    if s.len() == 0 {
        0
    } else {
        dec_val(s.drop_last()) * 10 + dval(s.last())
    }
}

/// `dec_str` emits at least one character, all digits, and denotes `n`.
pub proof fn lemma_dec_str(n: nat)
    ensures
        dec_str(n).len() > 0,
        all_digits(dec_str(n)),
        dec_val(dec_str(n)) == n,
    decreases n,
{
    if n < 10 {
        assert(is_digit(dig(n)));
        let s = dec_str(n);
        assert(s.drop_last() =~= Seq::<char>::empty());
        assert(dec_val(Seq::<char>::empty()) == 0);
        assert(s.last() == dig(n));
        assert(dval(dig(n)) == n);
    } else {
        lemma_dec_str(n / 10);
        let p = dec_str(n / 10);
        let s = p.push(dig(n % 10));
        assert(s.drop_last() =~= p);
        assert(s.last() == dig(n % 10));
        assert(dval(dig(n % 10)) == n % 10);
        assert forall|i: int| 0 <= i < s.len() implies is_digit(#[trigger] s[i]) by {
            if i < p.len() {
                assert(s[i] == p[i]);
            } else {
                assert(s[i] == dig(n % 10));
            }
        }
        assert(dec_val(s) == (n / 10) * 10 + n % 10);
    }
}

/// A longer digit string never denotes a smaller number.
proof fn lemma_dec_val_prefix(s: Seq<char>, m: int)
    requires
        0 <= m <= s.len(),
    ensures
        dec_val(s.take(m)) <= dec_val(s),
    decreases s.len() - m,
{
    if m < s.len() {
        lemma_dec_val_prefix(s, m + 1);
        let a = s.take(m);
        let b = s.take(m + 1);
        assert(b.drop_last() =~= a);
        assert(dec_val(b) == dec_val(a) * 10 + dval(b.last()));
        assert(dec_val(a) * 10 >= dec_val(a)) by (nonlinear_arith)
            requires
                dec_val(a) >= 0,
        ;
    } else {
        assert(s.take(m) =~= s);
    }
}

fn dig_exec(d: u64) -> (c: char)
    requires
        d < 10,
    ensures
        c == dig(d as nat),
{
    if d == 0 {
        '0'
    } else if d == 1 {
        '1'
    } else if d == 2 {
        '2'
    } else if d == 3 {
        '3'
    } else if d == 4 {
        '4'
    } else if d == 5 {
        '5'
    } else if d == 6 {
        '6'
    } else if d == 7 {
        '7'
    } else if d == 8 {
        '8'
    } else {
        '9'
    }
}

/// Decimal text of `n`.
pub fn u64_to_dec(n: u64) -> (r: String)
    ensures
        r@ == dec_str(n as nat),
    decreases n,
{
    if n < 10 {
        let mut s = String::new();
        s.push(dig_exec(n));
        proof {
            assert(s@ =~= dec_str(n as nat));
        }
        s
    } else {
        let mut s = u64_to_dec(n / 10);
        s.push(dig_exec(n % 10));
        s
    }
}

/// Read a digit string as a number, if it is one and it fits in `u64`.
pub fn parse_u64(t: &str) -> (r: Option<u64>)
    ensures
        match r {
            Some(v) => t@.len() > 0 && all_digits(t@) && dec_val(t@) == v as nat,
            None => !(t@.len() > 0 && all_digits(t@) && dec_val(t@) <= u64::MAX as nat),
        },
{
    let n = t.unicode_len();
    if n == 0 {
        return None;
    }
    let mut v: u64 = 0;
    let mut k: usize = 0;
    while k < n
        invariant
            n == t@.len(),
            k <= n,
            all_digits(t@.take(k as int)),
            dec_val(t@.take(k as int)) == v as nat,
        decreases n - k,
    {
        let c = t.get_char(k);
        let cu = c as u32;
        if cu < 48 || cu > 57 {
            proof {
                assert(!is_digit(t@[k as int]));
            }
            return None;
        }
        let d = (cu - 48) as u64;
        proof {
            assert(is_digit(t@[k as int]));
            assert(dval(t@[k as int]) == d as nat);
            assert(t@.take(k + 1).drop_last() =~= t@.take(k as int));
        }
        if v > (u64::MAX - d) / 10 {
            proof {
                let pre = t@.take(k + 1);
                assert(dec_val(pre) == dec_val(t@.take(k as int)) * 10 + d);
                assert(dec_val(pre) > u64::MAX as nat) by (nonlinear_arith)
                    requires
                        dec_val(pre) == dec_val(t@.take(k as int)) * 10 + d,
                        dec_val(t@.take(k as int)) == v as nat,
                        v > (u64::MAX - d) / 10,
                        d < 10,
                ;
                lemma_dec_val_prefix(t@, k + 1);
            }
            return None;
        }
        v = v * 10 + d;
        k = k + 1;
        proof {
            assert forall|i: int| 0 <= i < k implies is_digit(#[trigger] t@.take(k as int)[i]) by {
                if i < k - 1 {
                    assert(t@.take(k - 1)[i] == t@.take(k as int)[i]);
                }
            }
        }
    }
    proof {
        assert(t@.take(n as int) =~= t@);
    }
    Some(v)
}

// ---------------------------------------------------------------------------
// The data model
// ---------------------------------------------------------------------------

/// One named launch definition.
#[derive(Debug)]
pub struct McpServer {
    pub server_type: Option<String>,
    pub command: Option<String>,
    pub args: Vec<String>,
    /// Environment variables, ordered by name.
    pub env: Vec<(String, String)>,
    pub description: Option<String>,
    /// Timeout in seconds.
    pub timeout: Option<u64>,
    /// Unknown fields, kept verbatim, ordered by key.
    pub extra: Vec<(String, Json)>,
}

/// The abstract value of an entry.
pub struct ServerV {
    pub server_type: Option<Seq<char>>,
    pub command: Option<Seq<char>>,
    pub args: Seq<Seq<char>>,
    pub env: Seq<(Seq<char>, Seq<char>)>,
    pub description: Option<Seq<char>>,
    pub timeout: Option<u64>,
    pub extra: Seq<(Seq<char>, JsonV)>,
}

/// A catalogue of named launch definitions.
#[derive(Debug)]
pub struct McpCatalogue {
    /// Server entries, ordered by name.
    pub mcp_servers: Vec<(String, McpServer)>,
    /// Unknown top-level fields, kept verbatim, ordered by key.
    pub extras: Vec<(String, Json)>,
}

/// The abstract value of a catalogue.
pub struct CatV {
    pub servers: Seq<(Seq<char>, ServerV)>,
    pub extras: Seq<(Seq<char>, JsonV)>,
}

pub open spec fn opt_view(o: Option<String>) -> Option<Seq<char>> {
    match o {
        Some(s) => Some(s@),
        None => None,
    }
}

pub open spec fn strs_view(v: Seq<String>) -> Seq<Seq<char>> {
    Seq::new(v.len(), |i: int| v[i]@)
}

impl View for McpServer {
    type V = ServerV;

    open spec fn view(&self) -> ServerV {
        ServerV {
            server_type: opt_view(self.server_type),
            command: opt_view(self.command),
            args: strs_view(self.args@),
            env: kvv(self.env@),
            description: opt_view(self.description),
            timeout: self.timeout,
            extra: kvv(self.extra@),
        }
    }
}

impl View for McpCatalogue {
    type V = CatV;

    open spec fn view(&self) -> CatV {
        CatV { servers: kvv(self.mcp_servers@), extras: kvv(self.extras@) }
    }
}

/// An entry with nothing set.
pub open spec fn server_v_empty() -> ServerV {
    ServerV {
        server_type: None,
        command: None,
        args: Seq::empty(),
        env: Seq::empty(),
        description: None,
        timeout: None,
        extra: Seq::empty(),
    }
}

/// Well-formed entry: environment and unknown fields ordered by key, and
/// unknown field names free of the interpreted names.
pub open spec fn entry_wf(e: ServerV) -> bool {
    &&& kv_sorted(e.env)
    &&& kv_sorted(e.extra)
    &&& forall|m: int|
        0 <= m < e.extra.len() ==> !known_entry_key((#[trigger] e.extra[m]).0) && wf_json(
            e.extra[m].1,
        )
}

/// Well-formed catalogue: servers and unknown fields ordered by key, every
/// entry well-formed, and no unknown field named like the owned one.
pub open spec fn cat_wf(c: CatV) -> bool {
    &&& kv_sorted(c.servers)
    &&& kv_sorted(c.extras)
    &&& forall|m: int| 0 <= m < c.servers.len() ==> entry_wf((#[trigger] c.servers[m]).1)
    &&& forall|m: int|
        0 <= m < c.extras.len() ==> (#[trigger] c.extras[m]).0 != key_mcp() && wf_json(
            c.extras[m].1,
        )
}

// ---------------------------------------------------------------------------
// To JSON
// ---------------------------------------------------------------------------

pub open spec fn opt_field(k: Seq<char>, v: Option<Seq<char>>) -> Seq<(Seq<char>, JsonV)> {
    match v {
        Some(s) => seq![(k, JsonV::Str(s))],
        None => Seq::empty(),
    }
}

/// The JSON members an entry's interpreted fields contribute, in a fixed
/// order.
pub open spec fn entry_known_pairs(e: ServerV) -> Seq<(Seq<char>, JsonV)> {
    opt_field(key_type(), e.server_type) + opt_field(key_command(), e.command) + (if e.args.len()
        == 0 {
        Seq::<(Seq<char>, JsonV)>::empty()
    } else {
        seq![(key_args(), JsonV::Arr(e.args.map(|i: int, a: Seq<char>| JsonV::Str(a))))]
    }) + (if e.env.len() == 0 {
        Seq::<(Seq<char>, JsonV)>::empty()
    } else {
        seq![
            (
                key_env(),
                JsonV::Obj(
                    e.env.map(|i: int, p: (Seq<char>, Seq<char>)| (p.0, JsonV::Str(p.1))),
                ),
            ),
        ]
    }) + opt_field(key_description(), e.description) + (match e.timeout {
        Some(t) => seq![(key_timeout(), JsonV::Num(dec_str(t as nat)))],
        None => Seq::<(Seq<char>, JsonV)>::empty(),
    })
}

/// The JSON members of an entry: interpreted fields that are present, then
/// the unknown fields.
pub open spec fn entry_pairs(e: ServerV) -> Seq<(Seq<char>, JsonV)> {
    entry_known_pairs(e) + e.extra
}

pub open spec fn entry_to_json(e: ServerV) -> JsonV {
    JsonV::Obj(entry_pairs(e))
}

/// The JSON document of a catalogue: the owned `mcpServers` object first,
/// then the unknown top-level fields.
pub open spec fn cat_to_json(c: CatV) -> JsonV {
    JsonV::Obj(
        seq![
            (
                key_mcp(),
                JsonV::Obj(
                    c.servers.map(|i: int, p: (Seq<char>, ServerV)| (p.0, entry_to_json(p.1))),
                ),
            ),
        ] + c.extras,
    )
}

// ---------------------------------------------------------------------------
// From JSON
// ---------------------------------------------------------------------------

/// Strings of an array of string documents, if that is what it is.
pub open spec fn strs_from(items: Seq<JsonV>) -> Option<Seq<Seq<char>>>
    decreases items.len(),
{
    if items.len() == 0 {
        Some(Seq::empty())
    } else {
        match items[0] {
            JsonV::Str(s) => match strs_from(items.drop_first()) {
                Some(rest) => Some(seq![s] + rest),
                None => None,
            },
            _ => None,
        }
    }
}

/// Environment mapping of an object of string values, if that is what it
/// is; bindings collect in key order, last write wins.
pub open spec fn env_from(
    acc: Seq<(Seq<char>, Seq<char>)>,
    pairs: Seq<(Seq<char>, JsonV)>,
) -> Option<Seq<(Seq<char>, Seq<char>)>>
    decreases pairs.len(),
{
    if pairs.len() == 0 {
        Some(acc)
    } else {
        match pairs[0].1 {
            JsonV::Str(s) => env_from(kv_insert_spec(acc, pairs[0].0, s), pairs.drop_first()),
            _ => None,
        }
    }
}

/// Interpret one member of an entry object.
pub open spec fn entry_step(acc: ServerV, k: Seq<char>, v: JsonV) -> Option<ServerV> {
    if k == key_type() {
        match v {
            JsonV::Str(s) => Some(ServerV { server_type: Some(s), ..acc }),
            _ => None,
        }
    } else if k == key_command() {
        match v {
            JsonV::Str(s) => Some(ServerV { command: Some(s), ..acc }),
            _ => None,
        }
    } else if k == key_args() {
        match v {
            JsonV::Arr(items) => match strs_from(items) {
                Some(ss) => Some(ServerV { args: ss, ..acc }),
                None => None,
            },
            _ => None,
        }
    } else if k == key_env() {
        match v {
            JsonV::Obj(pairs) => match env_from(Seq::empty(), pairs) {
                Some(env) => Some(ServerV { env: env, ..acc }),
                None => None,
            },
            _ => None,
        }
    } else if k == key_description() {
        match v {
            JsonV::Str(s) => Some(ServerV { description: Some(s), ..acc }),
            _ => None,
        }
    } else if k == key_timeout() {
        match v {
            JsonV::Num(t) => if t.len() > 0 && all_digits(t) && dec_val(t) <= u64::MAX as nat {
                Some(ServerV { timeout: Some(dec_val(t) as u64), ..acc })
            } else {
                None
            },
            _ => None,
        }
    } else {
        Some(ServerV { extra: kv_insert_spec(acc.extra, k, v), ..acc })
    }
}

/// Interpret the members of an entry object, in order.
pub open spec fn entry_fold(acc: ServerV, pairs: Seq<(Seq<char>, JsonV)>) -> Option<ServerV>
    decreases pairs.len(),
{
    if pairs.len() == 0 {
        Some(acc)
    } else {
        match entry_step(acc, pairs[0].0, pairs[0].1) {
            Some(a2) => entry_fold(a2, pairs.drop_first()),
            None => None,
        }
    }
}

/// An entry from its JSON document: it must be an object of valid members.
pub open spec fn entry_from_json(v: JsonV) -> Option<ServerV> {
    match v {
        JsonV::Obj(pairs) => entry_fold(server_v_empty(), pairs),
        _ => None,
    }
}

/// Server entries of the owned object: names collect in key order, last
/// write wins.
pub open spec fn servers_from(
    acc: Seq<(Seq<char>, ServerV)>,
    pairs: Seq<(Seq<char>, JsonV)>,
) -> Option<Seq<(Seq<char>, ServerV)>>
    decreases pairs.len(),
{
    if pairs.len() == 0 {
        Some(acc)
    } else {
        match entry_from_json(pairs[0].1) {
            Some(e) => servers_from(kv_insert_spec(acc, pairs[0].0, e), pairs.drop_first()),
            None => None,
        }
    }
}

/// Interpret one top-level member of a catalogue document.
pub open spec fn cat_step(acc: CatV, k: Seq<char>, v: JsonV) -> Option<CatV> {
    if k == key_mcp() {
        match v {
            JsonV::Obj(pairs) => match servers_from(Seq::empty(), pairs) {
                Some(ss) => Some(CatV { servers: ss, ..acc }),
                None => None,
            },
            _ => None,
        }
    } else {
        Some(CatV { extras: kv_insert_spec(acc.extras, k, v), ..acc })
    }
}

pub open spec fn cat_fold(acc: CatV, pairs: Seq<(Seq<char>, JsonV)>) -> Option<CatV>
    decreases pairs.len(),
{
    if pairs.len() == 0 {
        Some(acc)
    } else {
        match cat_step(acc, pairs[0].0, pairs[0].1) {
            Some(a2) => cat_fold(a2, pairs.drop_first()),
            None => None,
        }
    }
}

/// A catalogue from its JSON document: it must be an object; members other
/// than the owned one are kept verbatim.
pub open spec fn cat_from_json(v: JsonV) -> Option<CatV> {
    match v {
        JsonV::Obj(pairs) => cat_fold(CatV { servers: Seq::empty(), extras: Seq::empty() }, pairs),
        _ => None,
    }
}

/// What parsing a catalogue text yields, if anything.
pub open spec fn spec_parse_catalogue(text: Seq<char>) -> Option<CatV> {
    match spec_parse(text) {
        Some(v) => cat_from_json(v),
        None => None,
    }
}

/// The serialized text of a catalogue, with a trailing newline.
pub open spec fn cat_text(c: CatV) -> Seq<char> {
    ser(cat_to_json(c)) + seq!['\n']
}

// ---------------------------------------------------------------------------
// Round trip: interpreting an emitted catalogue document yields it back
// ---------------------------------------------------------------------------

/// Folding split member lists composes.
proof fn lemma_entry_fold_concat(acc: ServerV, a: Seq<(Seq<char>, JsonV)>, b: Seq<(Seq<char>, JsonV)>)
    ensures
        entry_fold(acc, a + b) == match entry_fold(acc, a) {
            Some(x) => entry_fold(x, b),
            None => None,
        },
    decreases a.len(),
{
    if a.len() == 0 {
        assert(a + b =~= b);
    } else {
        assert((a + b)[0] == a[0]);
        assert((a + b).drop_first() =~= a.drop_first() + b);
        match entry_step(acc, a[0].0, a[0].1) {
            Some(a2) => {
                lemma_entry_fold_concat(a2, a.drop_first(), b);
            },
            None => {},
        }
    }
}

/// Folding unknown members appends them to the unknown-field list.
proof fn lemma_entry_fold_extras(acc: ServerV, xs: Seq<(Seq<char>, JsonV)>)
    requires
        forall|m: int| 0 <= m < xs.len() ==> !known_entry_key((#[trigger] xs[m]).0),
        kv_sorted(acc.extra + xs),
    ensures
        entry_fold(acc, xs) == Some(ServerV { extra: acc.extra + xs, ..acc }),
    decreases xs.len(),
{
    if xs.len() == 0 {
        assert(acc.extra + xs =~= acc.extra);
        assert(entry_fold(acc, xs) == Some(acc));
        assert(ServerV { extra: acc.extra + xs, ..acc } == acc);
    } else {
        let w = acc.extra + xs;
        assert forall|m: int| 0 <= m < acc.extra.len() implies str_lt(
            (#[trigger] acc.extra[m]).0,
            xs[0].0,
        ) by {
            assert(w[m] == acc.extra[m] && w[acc.extra.len() as int] == xs[0]);
        }
        crate::kv::lemma_kv_insert_append(acc.extra, xs[0].0, xs[0].1);
        let acc2 = ServerV { extra: acc.extra.push((xs[0].0, xs[0].1)), ..acc };
        assert(entry_step(acc, xs[0].0, xs[0].1) == Some(acc2));
        assert(acc2.extra + xs.drop_first() =~= acc.extra + xs);
        lemma_entry_fold_extras(acc2, xs.drop_first());
    }
}

/// An array of emitted strings reads back as those strings.
proof fn lemma_strs_from_map(args: Seq<Seq<char>>)
    ensures
        strs_from(args.map(|i: int, a: Seq<char>| JsonV::Str(a))) == Some(args),
    decreases args.len(),
{
    let m = args.map(|i: int, a: Seq<char>| JsonV::Str(a));
    if args.len() == 0 {
        assert(m =~= Seq::<JsonV>::empty());
        assert(Seq::<Seq<char>>::empty() =~= args);
    } else {
        lemma_strs_from_map(args.drop_first());
        assert(m.drop_first() =~= args.drop_first().map(|i: int, a: Seq<char>| JsonV::Str(a)));
        assert(m[0] == JsonV::Str(args[0]));
        assert(seq![args[0]] + args.drop_first() =~= args);
    }
}

/// An emitted environment object reads back as the environment appended to
/// the accumulator.
proof fn lemma_env_from_map(acc: Seq<(Seq<char>, Seq<char>)>, env: Seq<(Seq<char>, Seq<char>)>)
    requires
        kv_sorted(acc + env),
    ensures
        env_from(acc, env.map(|i: int, p: (Seq<char>, Seq<char>)| (p.0, JsonV::Str(p.1))))
            == Some(acc + env),
    decreases env.len(),
{
    let m = env.map(|i: int, p: (Seq<char>, Seq<char>)| (p.0, JsonV::Str(p.1)));
    if env.len() == 0 {
        assert(m =~= Seq::<(Seq<char>, JsonV)>::empty());
        assert(acc + env =~= acc);
    } else {
        let w = acc + env;
        assert forall|n: int| 0 <= n < acc.len() implies str_lt((#[trigger] acc[n]).0, env[0].0) by {
            assert(w[n] == acc[n] && w[acc.len() as int] == env[0]);
        }
        crate::kv::lemma_kv_insert_append(acc, env[0].0, env[0].1);
        assert(m[0] == (env[0].0, JsonV::Str(env[0].1)));
        assert(m.drop_first() =~= env.drop_first().map(
            |i: int, p: (Seq<char>, Seq<char>)| (p.0, JsonV::Str(p.1)),
        ));
        let acc2 = acc.push((env[0].0, env[0].1));
        assert(acc2 + env.drop_first() =~= acc + env);
        lemma_env_from_map(acc2, env.drop_first());
    }
}

/// Folding a single valid member applies just that member.
proof fn lemma_entry_fold_one(acc: ServerV, k: Seq<char>, v: JsonV)
    ensures
        entry_fold(acc, seq![(k, v)]) == entry_step(acc, k, v),
{
    let s = seq![(k, v)];
    assert(s[0] == (k, v));
    assert(s.drop_first() =~= Seq::<(Seq<char>, JsonV)>::empty());
    match entry_step(acc, k, v) {
        Some(a2) => {
            assert(entry_fold(a2, s.drop_first()) == Some(a2));
        },
        None => {},
    }
}

/// Reading the interpreted members back restores the interpreted fields.
#[verifier::rlimit(100)]
proof fn lemma_entry_known_fold(e: ServerV)
    requires
        entry_wf(e),
    ensures
        entry_fold(server_v_empty(), entry_known_pairs(e)) == Some(
            ServerV { extra: Seq::empty(), ..e },
        ),
{
    let g1 = opt_field(key_type(), e.server_type);
    let g2 = opt_field(key_command(), e.command);
    let g3: Seq<(Seq<char>, JsonV)> = if e.args.len() == 0 {
        Seq::empty()
    } else {
        seq![(key_args(), JsonV::Arr(e.args.map(|i: int, a: Seq<char>| JsonV::Str(a))))]
    };
    let g4: Seq<(Seq<char>, JsonV)> = if e.env.len() == 0 {
        Seq::empty()
    } else {
        seq![
            (
                key_env(),
                JsonV::Obj(e.env.map(|i: int, p: (Seq<char>, Seq<char>)| (p.0, JsonV::Str(p.1)))),
            ),
        ]
    };
    let g5 = opt_field(key_description(), e.description);
    let g6: Seq<(Seq<char>, JsonV)> = match e.timeout {
        Some(t) => seq![(key_timeout(), JsonV::Num(dec_str(t as nat)))],
        None => Seq::empty(),
    };
    let a0 = server_v_empty();
    let a1 = ServerV { server_type: e.server_type, ..a0 };
    let a2 = ServerV { command: e.command, ..a1 };
    let a3 = ServerV { args: e.args, ..a2 };
    let a4 = ServerV { env: e.env, ..a3 };
    let a5 = ServerV { description: e.description, ..a4 };
    let a6 = ServerV { timeout: e.timeout, ..a5 };

    match e.server_type {
        Some(s) => {
            lemma_entry_fold_one(a0, key_type(), JsonV::Str(s));
        },
        None => {
            assert(a1 == a0);
        },
    }
    assert(entry_fold(a0, g1) == Some(a1));
    match e.command {
        Some(s) => {
            lemma_entry_fold_one(a1, key_command(), JsonV::Str(s));
        },
        None => {
            assert(a2 == a1);
        },
    }
    assert(entry_fold(a1, g2) == Some(a2));
    if e.args.len() == 0 {
        assert(a3.args =~= a2.args);
        assert(a3 == a2);
    } else {
        lemma_strs_from_map(e.args);
        lemma_entry_fold_one(
            a2,
            key_args(),
            JsonV::Arr(e.args.map(|i: int, a: Seq<char>| JsonV::Str(a))),
        );
    }
    assert(entry_fold(a2, g3) == Some(a3));
    if e.env.len() == 0 {
        assert(a4.env =~= a3.env);
        assert(a4 == a3);
    } else {
        assert(Seq::<(Seq<char>, Seq<char>)>::empty() + e.env =~= e.env);
        lemma_env_from_map(Seq::empty(), e.env);
        lemma_entry_fold_one(
            a3,
            key_env(),
            JsonV::Obj(e.env.map(|i: int, p: (Seq<char>, Seq<char>)| (p.0, JsonV::Str(p.1)))),
        );
    }
    assert(entry_fold(a3, g4) == Some(a4));
    match e.description {
        Some(s) => {
            lemma_entry_fold_one(a4, key_description(), JsonV::Str(s));
        },
        None => {
            assert(a5 == a4);
        },
    }
    assert(entry_fold(a4, g5) == Some(a5));
    match e.timeout {
        Some(t) => {
            lemma_dec_str(t as nat);
            lemma_entry_fold_one(a5, key_timeout(), JsonV::Num(dec_str(t as nat)));
        },
        None => {
            assert(a6 == a5);
        },
    }
    assert(entry_fold(a5, g6) == Some(a6));
    lemma_entry_fold_concat(a0, g1, g2 + (g3 + (g4 + (g5 + g6))));
    lemma_entry_fold_concat(a1, g2, g3 + (g4 + (g5 + g6)));
    lemma_entry_fold_concat(a2, g3, g4 + (g5 + g6));
    lemma_entry_fold_concat(a3, g4, g5 + g6);
    lemma_entry_fold_concat(a4, g5, g6);
    assert(entry_known_pairs(e) =~= g1 + (g2 + (g3 + (g4 + (g5 + g6)))));
    assert(a6 == ServerV { extra: Seq::empty(), ..e });
}

/// Reading an emitted entry document yields the entry.
proof fn lemma_entry_round_trip(e: ServerV)
    requires
        entry_wf(e),
    ensures
        entry_from_json(entry_to_json(e)) == Some(e),
{
    lemma_entry_known_fold(e);
    let a6 = ServerV { extra: Seq::empty(), ..e };
    assert(a6.extra + e.extra =~= e.extra);
    lemma_entry_fold_extras(a6, e.extra);
    assert(ServerV { extra: a6.extra + e.extra, ..a6 } == e);
    lemma_entry_fold_concat(server_v_empty(), entry_known_pairs(e), e.extra);
}

/// Reading the emitted server list yields the servers appended to the
/// accumulator.
proof fn lemma_servers_from_map(acc: Seq<(Seq<char>, ServerV)>, ss: Seq<(Seq<char>, ServerV)>)
    requires
        kv_sorted(acc + ss),
        forall|m: int| 0 <= m < ss.len() ==> entry_wf((#[trigger] ss[m]).1),
    ensures
        servers_from(acc, ss.map(|i: int, p: (Seq<char>, ServerV)| (p.0, entry_to_json(p.1))))
            == Some(acc + ss),
    decreases ss.len(),
{
    let m = ss.map(|i: int, p: (Seq<char>, ServerV)| (p.0, entry_to_json(p.1)));
    if ss.len() == 0 {
        assert(m =~= Seq::<(Seq<char>, JsonV)>::empty());
        assert(acc + ss =~= acc);
    } else {
        let w = acc + ss;
        assert forall|n: int| 0 <= n < acc.len() implies str_lt((#[trigger] acc[n]).0, ss[0].0) by {
            assert(w[n] == acc[n] && w[acc.len() as int] == ss[0]);
        }
        crate::kv::lemma_kv_insert_append(acc, ss[0].0, ss[0].1);
        assert(m[0] == (ss[0].0, entry_to_json(ss[0].1)));
        lemma_entry_round_trip(ss[0].1);
        assert(m.drop_first() =~= ss.drop_first().map(
            |i: int, p: (Seq<char>, ServerV)| (p.0, entry_to_json(p.1)),
        ));
        let acc2 = acc.push((ss[0].0, ss[0].1));
        assert(acc2 + ss.drop_first() =~= acc + ss);
        assert forall|n: int| 0 <= n < ss.drop_first().len() implies entry_wf(
            (#[trigger] ss.drop_first()[n]).1,
        ) by {
            assert(ss.drop_first()[n] == ss[n + 1]);
        }
        lemma_servers_from_map(acc2, ss.drop_first());
    }
}

/// Folding split top-level member lists composes.
proof fn lemma_cat_fold_concat(acc: CatV, a: Seq<(Seq<char>, JsonV)>, b: Seq<(Seq<char>, JsonV)>)
    ensures
        cat_fold(acc, a + b) == match cat_fold(acc, a) {
            Some(x) => cat_fold(x, b),
            None => None,
        },
    decreases a.len(),
{
    if a.len() == 0 {
        assert(a + b =~= b);
    } else {
        assert((a + b)[0] == a[0]);
        assert((a + b).drop_first() =~= a.drop_first() + b);
        match cat_step(acc, a[0].0, a[0].1) {
            Some(a2) => {
                lemma_cat_fold_concat(a2, a.drop_first(), b);
            },
            None => {},
        }
    }
}

/// Folding unknown top-level members appends them to the unknown-field list.
proof fn lemma_cat_fold_extras(acc: CatV, xs: Seq<(Seq<char>, JsonV)>)
    requires
        forall|m: int| 0 <= m < xs.len() ==> (#[trigger] xs[m]).0 != key_mcp(),
        kv_sorted(acc.extras + xs),
    ensures
        cat_fold(acc, xs) == Some(CatV { extras: acc.extras + xs, ..acc }),
    decreases xs.len(),
{
    if xs.len() == 0 {
        assert(acc.extras + xs =~= acc.extras);
        assert(CatV { extras: acc.extras + xs, ..acc } == acc);
    } else {
        let w = acc.extras + xs;
        assert forall|m: int| 0 <= m < acc.extras.len() implies str_lt(
            (#[trigger] acc.extras[m]).0,
            xs[0].0,
        ) by {
            assert(w[m] == acc.extras[m] && w[acc.extras.len() as int] == xs[0]);
        }
        crate::kv::lemma_kv_insert_append(acc.extras, xs[0].0, xs[0].1);
        let acc2 = CatV { extras: acc.extras.push((xs[0].0, xs[0].1)), ..acc };
        assert(cat_step(acc, xs[0].0, xs[0].1) == Some(acc2));
        assert(acc2.extras + xs.drop_first() =~= acc.extras + xs);
        lemma_cat_fold_extras(acc2, xs.drop_first());
    }
}

/// Reading an emitted catalogue document yields the catalogue.
#[verifier::rlimit(100)]
pub proof fn lemma_cat_round_trip_json(c: CatV)
    requires
        cat_wf(c),
    ensures
        cat_from_json(cat_to_json(c)) == Some(c),
{
    let c0 = CatV { servers: Seq::empty(), extras: Seq::empty() };
    let g1 = seq![
        (
            key_mcp(),
            JsonV::Obj(c.servers.map(|i: int, p: (Seq<char>, ServerV)| (p.0, entry_to_json(p.1)))),
        ),
    ];
    assert(Seq::<(Seq<char>, ServerV)>::empty() + c.servers =~= c.servers);
    lemma_servers_from_map(Seq::empty(), c.servers);
    let c1 = CatV { servers: c.servers, ..c0 };
    assert(g1[0] == (key_mcp(), JsonV::Obj(c.servers.map(
        |i: int, p: (Seq<char>, ServerV)| (p.0, entry_to_json(p.1)),
    ))));
    assert(cat_step(c0, g1[0].0, g1[0].1) == Some(c1));
    assert(g1.drop_first() =~= Seq::<(Seq<char>, JsonV)>::empty());
    assert(cat_fold(c1, g1.drop_first()) == Some(c1));
    assert(cat_fold(c0, g1) == Some(c1));
    assert(c1.extras + c.extras =~= c.extras);
    lemma_cat_fold_extras(c1, c.extras);
    assert(CatV { extras: c1.extras + c.extras, ..c1 } == c);
    lemma_cat_fold_concat(c0, g1, c.extras);
    assert(g1 + c.extras == cat_to_json(c)->Obj_0);
}

/// The emitted catalogue document is well-formed.
pub proof fn lemma_cat_to_json_wf(c: CatV)
    requires
        cat_wf(c),
    ensures
        wf_json(cat_to_json(c)),
{
    let sm = c.servers.map(|i: int, p: (Seq<char>, ServerV)| (p.0, entry_to_json(p.1)));
    assert forall|m: int| 0 <= m < sm.len() implies wf_json(#[trigger] sm[m].1) by {
        assert(sm[m] == (c.servers[m].0, entry_to_json(c.servers[m].1)));
        lemma_entry_to_json_wf(c.servers[m].1);
    }
    assert(wf_json(JsonV::Obj(sm)));
    let pairs = seq![(key_mcp(), JsonV::Obj(sm))] + c.extras;
    assert forall|m: int| 0 <= m < pairs.len() implies wf_json(#[trigger] pairs[m].1) by {
        if m > 0 {
            assert(pairs[m] == c.extras[m - 1]);
        }
    }
}

/// The emitted entry document is well-formed.
pub proof fn lemma_entry_to_json_wf(e: ServerV)
    requires
        entry_wf(e),
    ensures
        wf_json(entry_to_json(e)),
{
    let g1 = opt_field(key_type(), e.server_type);
    let g2 = opt_field(key_command(), e.command);
    let g3: Seq<(Seq<char>, JsonV)> = if e.args.len() == 0 {
        Seq::empty()
    } else {
        seq![(key_args(), JsonV::Arr(e.args.map(|i: int, a: Seq<char>| JsonV::Str(a))))]
    };
    let g4: Seq<(Seq<char>, JsonV)> = if e.env.len() == 0 {
        Seq::empty()
    } else {
        seq![
            (
                key_env(),
                JsonV::Obj(e.env.map(|i: int, p: (Seq<char>, Seq<char>)| (p.0, JsonV::Str(p.1)))),
            ),
        ]
    };
    let g5 = opt_field(key_description(), e.description);
    let g6: Seq<(Seq<char>, JsonV)> = match e.timeout {
        Some(t) => seq![(key_timeout(), JsonV::Num(dec_str(t as nat)))],
        None => Seq::empty(),
    };
    let pairs = entry_pairs(e);
    let l1 = g1.len() as int;
    let l2 = l1 + g2.len();
    let l3 = l2 + g3.len();
    let l4 = l3 + g4.len();
    let l5 = l4 + g5.len();
    let l6 = l5 + g6.len();
    assert forall|m: int| 0 <= m < pairs.len() implies wf_json(#[trigger] pairs[m].1) by {
        if m < l1 {
            assert(pairs[m] == g1[m]);
        } else if m < l2 {
            assert(pairs[m] == g2[m - l1]);
        } else if m < l3 {
            assert(pairs[m] == g3[m - l2]);
            let am = e.args.map(|i: int, a: Seq<char>| JsonV::Str(a));
            assert forall|n: int| 0 <= n < am.len() implies wf_json(#[trigger] am[n]) by {
                assert(am[n] == JsonV::Str(e.args[n]));
            }
        } else if m < l4 {
            assert(pairs[m] == g4[m - l3]);
            let em = e.env.map(|i: int, p: (Seq<char>, Seq<char>)| (p.0, JsonV::Str(p.1)));
            assert forall|n: int| 0 <= n < em.len() implies wf_json(#[trigger] em[n].1) by {
                assert(em[n] == (e.env[n].0, JsonV::Str(e.env[n].1)));
            }
        } else if m < l5 {
            assert(pairs[m] == g5[m - l4]);
        } else if m < l6 {
            assert(pairs[m] == g6[m - l5]);
            match e.timeout {
                Some(t) => {
                    lemma_dec_str(t as nat);
                    let tok = dec_str(t as nat);
                    assert(is_digit(tok[0]));
                },
                None => {},
            }
        } else {
            assert(pairs[m] == e.extra[m - l6]);
        }
    }
}

/// Round trip: the serialized text of a well-formed catalogue parses back
/// to an equal catalogue, unknown fields at both levels included.
pub proof fn lemma_catalogue_round_trip(c: CatV)
    requires
        cat_wf(c),
    ensures
        spec_parse_catalogue(cat_text(c)) == Some(c),
{
    lemma_cat_to_json_wf(c);
    let tail = seq!['\n'];
    assert(forall|k: int| 0 <= k < tail.len() ==> crate::json::is_ws(#[trigger] tail[k]));
    crate::json::lemma_json_round_trip(cat_to_json(c), tail);
    lemma_cat_round_trip_json(c);
}

// ---------------------------------------------------------------------------
// Parsing preserves well-formedness
// ---------------------------------------------------------------------------

/// Every pair of an inserted list is the new pair or one of the old pairs.
proof fn lemma_kv_insert_pairs<X>(s: Seq<(Seq<char>, X)>, k: Seq<char>, v: X)
    ensures
        forall|m: int|
            0 <= m < kv_insert_spec(s, k, v).len() ==> (#[trigger] kv_insert_spec(s, k, v)[m]) == (
            k,
            v,
            ) || (exists|n: int| 0 <= n < s.len() && s[n] == kv_insert_spec(s, k, v)[m]),
    decreases s.len(),
{
    let r = kv_insert_spec(s, k, v);
    if s.len() == 0 {
    } else if str_lt(s[0].0, k) {
        lemma_kv_insert_pairs(s.drop_first(), k, v);
        assert forall|m: int| 0 <= m < r.len() implies (#[trigger] r[m]) == (k, v) || (exists|n: int|
            0 <= n < s.len() && s[n] == r[m]) by {
            if m == 0 {
                assert(s[0] == r[0]);
            } else {
                let rr = kv_insert_spec(s.drop_first(), k, v);
                assert(r[m] == rr[m - 1]);
                if rr[m - 1] != (k, v) {
                    let n = choose|n: int|
                        0 <= n < s.drop_first().len() && s.drop_first()[n] == rr[m - 1];
                    assert(s[n + 1] == r[m]);
                }
            }
        }
    } else if s[0].0 == k {
        assert forall|m: int| 0 <= m < r.len() implies (#[trigger] r[m]) == (k, v) || (exists|n: int|
            0 <= n < s.len() && s[n] == r[m]) by {
            if m > 0 {
                assert(r[m] == s.drop_first()[m - 1]);
                assert(s[m] == r[m]);
            }
        }
    } else {
        assert forall|m: int| 0 <= m < r.len() implies (#[trigger] r[m]) == (k, v) || (exists|n: int|
            0 <= n < s.len() && s[n] == r[m]) by {
            if m > 0 {
                assert(r[m] == s[m - 1]);
            }
        }
    }
}

/// A parsed environment object is ordered by key.
proof fn lemma_env_from_wf(acc: Seq<(Seq<char>, Seq<char>)>, pairs: Seq<(Seq<char>, JsonV)>)
    requires
        kv_sorted(acc),
        env_from(acc, pairs) is Some,
    ensures
        kv_sorted(env_from(acc, pairs)->Some_0),
    decreases pairs.len(),
{
    if pairs.len() > 0 {
        match pairs[0].1 {
            JsonV::Str(s) => {
                crate::kv::lemma_kv_insert_sorted(acc, pairs[0].0, s);
                lemma_env_from_wf(kv_insert_spec(acc, pairs[0].0, s), pairs.drop_first());
            },
            _ => {},
        }
    }
}

/// A parsed entry is well-formed.
proof fn lemma_entry_fold_wf(acc: ServerV, pairs: Seq<(Seq<char>, JsonV)>)
    requires
        entry_wf(acc),
        forall|m: int| 0 <= m < pairs.len() ==> wf_json((#[trigger] pairs[m]).1),
        entry_fold(acc, pairs) is Some,
    ensures
        entry_wf(entry_fold(acc, pairs)->Some_0),
    decreases pairs.len(),
{
    if pairs.len() > 0 {
        let k = pairs[0].0;
        let v = pairs[0].1;
        let a2 = entry_step(acc, k, v)->Some_0;
        assert(entry_wf(a2)) by {
            if k == key_env() {
                match v {
                    JsonV::Obj(ps) => {
                        lemma_env_from_wf(Seq::empty(), ps);
                    },
                    _ => {},
                }
            } else if !known_entry_key(k) {
                crate::kv::lemma_kv_insert_sorted(acc.extra, k, v);
                lemma_kv_insert_pairs(acc.extra, k, v);
                let ex = kv_insert_spec(acc.extra, k, v);
                assert forall|m: int| 0 <= m < ex.len() implies !known_entry_key(
                    (#[trigger] ex[m]).0,
                ) && wf_json(ex[m].1) by {
                    if ex[m] != (k, v) {
                        let n = choose|n: int| 0 <= n < acc.extra.len() && acc.extra[n] == ex[m];
                        assert(!known_entry_key(acc.extra[n].0) && wf_json(acc.extra[n].1));
                    }
                }
            }
        }
        assert forall|m: int| 0 <= m < pairs.drop_first().len() implies wf_json(
            (#[trigger] pairs.drop_first()[m]).1,
        ) by {
            assert(pairs.drop_first()[m] == pairs[m + 1]);
        }
        lemma_entry_fold_wf(a2, pairs.drop_first());
    }
}

/// A parsed server list is ordered by name with well-formed entries.
proof fn lemma_servers_from_wf(acc: Seq<(Seq<char>, ServerV)>, pairs: Seq<(Seq<char>, JsonV)>)
    requires
        kv_sorted(acc),
        forall|m: int| 0 <= m < acc.len() ==> entry_wf((#[trigger] acc[m]).1),
        forall|m: int| 0 <= m < pairs.len() ==> wf_json((#[trigger] pairs[m]).1),
        servers_from(acc, pairs) is Some,
    ensures
        kv_sorted(servers_from(acc, pairs)->Some_0),
        forall|m: int|
            0 <= m < servers_from(acc, pairs)->Some_0.len() ==> entry_wf(
                (#[trigger] servers_from(acc, pairs)->Some_0[m]).1,
            ),
    decreases pairs.len(),
{
    if pairs.len() > 0 {
        let e = entry_from_json(pairs[0].1)->Some_0;
        assert(entry_wf(server_v_empty()));
        match pairs[0].1 {
            JsonV::Obj(ps) => {
                assert forall|m: int| 0 <= m < ps.len() implies wf_json((#[trigger] ps[m]).1) by {
                    assert(wf_json(pairs[0].1));
                }
                lemma_entry_fold_wf(server_v_empty(), ps);
            },
            _ => {},
        }
        crate::kv::lemma_kv_insert_sorted(acc, pairs[0].0, e);
        lemma_kv_insert_pairs(acc, pairs[0].0, e);
        let a2 = kv_insert_spec(acc, pairs[0].0, e);
        assert forall|m: int| 0 <= m < a2.len() implies entry_wf((#[trigger] a2[m]).1) by {
            if a2[m] != (pairs[0].0, e) {
                let n = choose|n: int| 0 <= n < acc.len() && acc[n] == a2[m];
                assert(entry_wf(acc[n].1));
            }
        }
        assert forall|m: int| 0 <= m < pairs.drop_first().len() implies wf_json(
            (#[trigger] pairs.drop_first()[m]).1,
        ) by {
            assert(pairs.drop_first()[m] == pairs[m + 1]);
        }
        lemma_servers_from_wf(a2, pairs.drop_first());
    }
}

/// A parsed catalogue is well-formed.
pub proof fn lemma_cat_fold_wf(acc: CatV, pairs: Seq<(Seq<char>, JsonV)>)
    requires
        cat_wf(acc),
        forall|m: int| 0 <= m < pairs.len() ==> wf_json((#[trigger] pairs[m]).1),
        cat_fold(acc, pairs) is Some,
    ensures
        cat_wf(cat_fold(acc, pairs)->Some_0),
    decreases pairs.len(),
{
    if pairs.len() > 0 {
        let k = pairs[0].0;
        let v = pairs[0].1;
        let a2 = cat_step(acc, k, v)->Some_0;
        assert(cat_wf(a2)) by {
            if k == key_mcp() {
                match v {
                    JsonV::Obj(ps) => {
                        assert forall|m: int| 0 <= m < ps.len() implies wf_json(
                            (#[trigger] ps[m]).1,
                        ) by {
                            assert(wf_json(v));
                        }
                        lemma_servers_from_wf(Seq::empty(), ps);
                    },
                    _ => {},
                }
            } else {
                crate::kv::lemma_kv_insert_sorted(acc.extras, k, v);
                lemma_kv_insert_pairs(acc.extras, k, v);
                let ex = kv_insert_spec(acc.extras, k, v);
                assert forall|m: int| 0 <= m < ex.len() implies (#[trigger] ex[m]).0 != key_mcp()
                    && wf_json(ex[m].1) by {
                    if ex[m] != (k, v) {
                        let n = choose|n: int| 0 <= n < acc.extras.len() && acc.extras[n] == ex[m];
                        assert(acc.extras[n].0 != key_mcp() && wf_json(acc.extras[n].1));
                    }
                }
            }
        }
        assert forall|m: int| 0 <= m < pairs.drop_first().len() implies wf_json(
            (#[trigger] pairs.drop_first()[m]).1,
        ) by {
            assert(pairs.drop_first()[m] == pairs[m + 1]);
        }
        lemma_cat_fold_wf(a2, pairs.drop_first());
    }
}

/// Whatever a catalogue document parse yields is well-formed.
pub proof fn lemma_cat_from_json_wf(v: JsonV)
    requires
        wf_json(v),
        cat_from_json(v) is Some,
    ensures
        cat_wf(cat_from_json(v)->Some_0),
{
    match v {
        JsonV::Obj(pairs) => {
            assert forall|m: int| 0 <= m < pairs.len() implies wf_json((#[trigger] pairs[m]).1) by {
                assert(wf_json(v));
            }
            lemma_cat_fold_wf(CatV { servers: Seq::empty(), extras: Seq::empty() }, pairs);
        },
        _ => {},
    }
}

// ---------------------------------------------------------------------------
// Executable conversions
// ---------------------------------------------------------------------------

/// Strings of an array of string documents.
fn strs_from_exec(items: &Vec<Json>, k: usize) -> (r: Option<Vec<String>>)
    requires
        k <= items@.len(),
    ensures
        match r {
            Some(v) => strs_from(crate::json::vs_of(items@).skip(k as int)) == Some(strs_view(v@)),
            None => strs_from(crate::json::vs_of(items@).skip(k as int)) is None,
        },
    decreases items@.len() - k,
{
    let ghost tail = crate::json::vs_of(items@).skip(k as int);
    if k >= items.len() {
        let out: Vec<String> = Vec::new();
        proof {
            assert(tail =~= Seq::<JsonV>::empty());
            assert(strs_view(out@) =~= Seq::<Seq<char>>::empty());
        }
        Some(out)
    } else {
        proof {
            assert(tail[0] == crate::json::vs_of(items@)[k as int]);
            assert(tail.drop_first() =~= crate::json::vs_of(items@).skip(k + 1));
        }
        match &items[k] {
            Json::Str(s) => {
                match strs_from_exec(items, k + 1) {
                    Some(rest) => {
                        let ghost restv = strs_view(rest@);
                        let mut out: Vec<String> = Vec::new();
                        out.push(s.clone());
                        let mut rest = rest;
                        out.append(&mut rest);
                        proof {
                            assert(strs_view(out@) =~= seq![s@] + restv);
                        }
                        Some(out)
                    },
                    None => None,
                }
            },
            _ => None,
        }
    }
}

/// Environment mapping of an object of string values.
fn env_from_exec(pairs: &Vec<(String, Json)>) -> (r: Option<Vec<(String, String)>>)
    ensures
        match r {
            Some(v) => env_from(Seq::empty(), crate::json::ps_of(pairs@)) == Some(kvv(v@)),
            None => env_from(Seq::empty(), crate::json::ps_of(pairs@)) is None,
        },
{
    let ghost all = crate::json::ps_of(pairs@);
    let mut out: Vec<(String, String)> = Vec::new();
    let n = pairs.len();
    let mut k: usize = 0;
    proof {
        assert(all.skip(0) =~= all);
        assert(kvv(out@) =~= Seq::<(Seq<char>, Seq<char>)>::empty());
    }
    while k < n
        invariant
            n == pairs@.len(),
            k <= n,
            all == crate::json::ps_of(pairs@),
            env_from(Seq::empty(), all) == env_from(kvv(out@), all.skip(k as int)),
        decreases n - k,
    {
        let ghost tail = all.skip(k as int);
        proof {
            assert(tail[0] == all[k as int]);
            assert(all[k as int] == (pairs@[k as int].0@, pairs@[k as int].1@));
            assert(tail.drop_first() =~= all.skip(k + 1));
        }
        match &pairs[k].1 {
            Json::Str(s) => {
                kv_insert(&mut out, pairs[k].0.clone(), s.clone());
            },
            _ => {
                return None;
            },
        }
        k = k + 1;
    }
    proof {
        assert(all.skip(n as int) =~= Seq::<(Seq<char>, JsonV)>::empty());
    }
    Some(out)
}

/// An entry with nothing set.
fn empty_server() -> (r: McpServer)
    ensures
        r@ == server_v_empty(),
{
    let r = McpServer {
        server_type: None,
        command: None,
        args: Vec::new(),
        env: Vec::new(),
        description: None,
        timeout: None,
        extra: Vec::new(),
    };
    proof {
        assert(strs_view(r.args@) =~= Seq::<Seq<char>>::empty());
        assert(kvv(r.env@) =~= Seq::<(Seq<char>, Seq<char>)>::empty());
        assert(kvv(r.extra@) =~= Seq::<(Seq<char>, JsonV)>::empty());
    }
    r
}

/// Read an entry from the members of its JSON object.
fn entry_from_pairs(pairs: &Vec<(String, Json)>) -> (r: Result<McpServer, AppError>)
    ensures
        match r {
            Ok(s) => entry_fold(server_v_empty(), crate::json::ps_of(pairs@)) == Some(s@),
            Err(e) => entry_fold(server_v_empty(), crate::json::ps_of(pairs@)) is None && e
                is Json,
        },
{

        let ghost all = crate::json::ps_of(pairs@);
        let k_type = key_type_str();
        let k_command = key_command_str();
        let k_args = key_args_str();
        let k_env = key_env_str();
        let k_description = key_description_str();
        let k_timeout = key_timeout_str();
        let mut out = empty_server();
        let n = pairs.len();
        let mut k: usize = 0;
        proof {
            assert(all.skip(0) =~= all);
            assert(out@ == server_v_empty());
        }
        while k < n
            invariant
                n == pairs@.len(),
                k <= n,
                all == crate::json::ps_of(pairs@),
                k_type@ == key_type(),
                k_command@ == key_command(),
                k_args@ == key_args(),
                k_env@ == key_env(),
                k_description@ == key_description(),
                k_timeout@ == key_timeout(),
                entry_fold(server_v_empty(), all) == entry_fold(out@, all.skip(k as int)),
            decreases n - k,
        {
            let ghost tail = all.skip(k as int);
            let ghost acc0 = out@;
            proof {
                assert(tail[0] == all[k as int]);
                assert(all[k as int] == (pairs@[k as int].0@, pairs@[k as int].1@));
                assert(tail.drop_first() =~= all.skip(k + 1));
            }
            let key = &pairs[k].0;
            let val = &pairs[k].1;
            if str_eq_exec(key.as_str(), k_type.as_str()) {
                match val {
                    Json::Str(s) => {
                        out.server_type = Some(s.clone());
                    },
                    _ => {
                        proof {
                            assert(entry_step(acc0, tail[0].0, tail[0].1) is None);
                            assert(entry_fold(acc0, tail) is None);
                            assert(entry_fold(server_v_empty(), all) is None);
                        }
                        return Err(AppError::Json("server type is not a string".to_owned()));
                    },
                }
            } else if str_eq_exec(key.as_str(), k_command.as_str()) {
                match val {
                    Json::Str(s) => {
                        out.command = Some(s.clone());
                    },
                    _ => {
                        proof {
                            assert(entry_step(acc0, tail[0].0, tail[0].1) is None);
                            assert(entry_fold(acc0, tail) is None);
                            assert(entry_fold(server_v_empty(), all) is None);
                        }
                        return Err(AppError::Json("command is not a string".to_owned()));
                    },
                }
            } else if str_eq_exec(key.as_str(), k_args.as_str()) {
                match val {
                    Json::Arr(items) => {
                        match strs_from_exec(items, 0) {
                            Some(ss) => {
                                proof {
                                    assert(crate::json::vs_of(items@).skip(0) =~= crate::json::vs_of(
                                        items@,
                                    ));
                                }
                                out.args = ss;
                            },
                            None => {
                                proof {
                                    assert(crate::json::vs_of(items@).skip(0) =~= crate::json::vs_of(
                                        items@,
                                    ));
                                }
                                proof {
                                    assert(entry_step(acc0, tail[0].0, tail[0].1) is None);
                                    assert(entry_fold(acc0, tail) is None);
                                    assert(entry_fold(server_v_empty(), all) is None);
                                }
                                return Err(AppError::Json(
                                    "args is not an array of strings".to_owned(),
                                ));
                            },
                        }
                    },
                    _ => {
                        proof {
                            assert(entry_step(acc0, tail[0].0, tail[0].1) is None);
                            assert(entry_fold(acc0, tail) is None);
                            assert(entry_fold(server_v_empty(), all) is None);
                        }
                        return Err(AppError::Json("args is not an array".to_owned()));
                    },
                }
            } else if str_eq_exec(key.as_str(), k_env.as_str()) {
                match val {
                    Json::Obj(ps) => {
                        match env_from_exec(ps) {
                            Some(env) => {
                                out.env = env;
                            },
                            None => {
                                proof {
                                    assert(entry_step(acc0, tail[0].0, tail[0].1) is None);
                                    assert(entry_fold(acc0, tail) is None);
                                    assert(entry_fold(server_v_empty(), all) is None);
                                }
                                return Err(AppError::Json(
                                    "env is not an object of strings".to_owned(),
                                ));
                            },
                        }
                    },
                    _ => {
                        proof {
                            assert(entry_step(acc0, tail[0].0, tail[0].1) is None);
                            assert(entry_fold(acc0, tail) is None);
                            assert(entry_fold(server_v_empty(), all) is None);
                        }
                        return Err(AppError::Json("env is not an object".to_owned()));
                    },
                }
            } else if str_eq_exec(key.as_str(), k_description.as_str()) {
                match val {
                    Json::Str(s) => {
                        out.description = Some(s.clone());
                    },
                    _ => {
                        proof {
                            assert(entry_step(acc0, tail[0].0, tail[0].1) is None);
                            assert(entry_fold(acc0, tail) is None);
                            assert(entry_fold(server_v_empty(), all) is None);
                        }
                        return Err(AppError::Json("description is not a string".to_owned()));
                    },
                }
            } else if str_eq_exec(key.as_str(), k_timeout.as_str()) {
                match val {
                    Json::Num(tok) => {
                        match parse_u64(tok.as_str()) {
                            Some(v) => {
                                out.timeout = Some(v);
                            },
                            None => {
                                proof {
                                    assert(entry_step(acc0, tail[0].0, tail[0].1) is None);
                                    assert(entry_fold(acc0, tail) is None);
                                    assert(entry_fold(server_v_empty(), all) is None);
                                }
                                return Err(AppError::Json(
                                    "timeout is not a non-negative integer".to_owned(),
                                ));
                            },
                        }
                    },
                    _ => {
                        proof {
                            assert(entry_step(acc0, tail[0].0, tail[0].1) is None);
                            assert(entry_fold(acc0, tail) is None);
                            assert(entry_fold(server_v_empty(), all) is None);
                        }
                        return Err(AppError::Json("timeout is not a number".to_owned()));
                    },
                }
            } else {
                kv_insert(&mut out.extra, key.clone(), clone_json(val));
            }
            k = k + 1;
            proof {
                assert(entry_step(acc0, all[k - 1].0, all[k - 1].1) == Some(out@));
            }
        }
        proof {
            assert(all.skip(n as int) =~= Seq::<(Seq<char>, JsonV)>::empty());
        }
        Ok(out)
}

impl McpServer {
    /// Read an entry from its JSON document; fails on any member of the
    /// wrong shape.
    pub fn from_json(j: &Json) -> (r: Result<McpServer, AppError>)
        ensures
            match r {
                Ok(s) => entry_from_json(j@) == Some(s@),
                Err(e) => entry_from_json(j@) is None && e is Json,
            },
    {
        match j {
            Json::Obj(pairs) => entry_from_pairs(pairs),
            _ => Err(AppError::Json("server entry is not an object".to_owned())),
        }
    }
}

/// Read the server list from the members of the owned object.
fn servers_from_exec(pairs: &Vec<(String, Json)>) -> (r: Result<
    Vec<(String, McpServer)>,
    AppError,
>)
    ensures
        match r {
            Ok(v) => servers_from(Seq::empty(), crate::json::ps_of(pairs@)) == Some(kvv(v@)),
            Err(e) => servers_from(Seq::empty(), crate::json::ps_of(pairs@)) is None && e
                is Json,
        },
{
    let ghost all = crate::json::ps_of(pairs@);
    let mut out: Vec<(String, McpServer)> = Vec::new();
    let n = pairs.len();
    let mut k: usize = 0;
    proof {
        assert(all.skip(0) =~= all);
        assert(kvv(out@) =~= Seq::<(Seq<char>, ServerV)>::empty());
    }
    while k < n
        invariant
            n == pairs@.len(),
            k <= n,
            all == crate::json::ps_of(pairs@),
            servers_from(Seq::empty(), all) == servers_from(kvv(out@), all.skip(k as int)),
        decreases n - k,
    {
        let ghost tail = all.skip(k as int);
        proof {
            assert(tail[0] == all[k as int]);
            assert(all[k as int] == (pairs@[k as int].0@, pairs@[k as int].1@));
            assert(tail.drop_first() =~= all.skip(k + 1));
        }
        match McpServer::from_json(&pairs[k].1) {
            Ok(entry) => {
                kv_insert(&mut out, pairs[k].0.clone(), entry);
            },
            Err(e) => {
                return Err(e);
            },
        }
        k = k + 1;
    }
    proof {
        assert(all.skip(n as int) =~= Seq::<(Seq<char>, JsonV)>::empty());
    }
    Ok(out)
}

/// Read a catalogue from the members of its JSON object.
fn cat_from_pairs(pairs: &Vec<(String, Json)>) -> (r: Result<McpCatalogue, AppError>)
    ensures
        match r {
            Ok(c) => cat_fold(
                CatV { servers: Seq::empty(), extras: Seq::empty() },
                crate::json::ps_of(pairs@),
            ) == Some(c@),
            Err(e) => cat_fold(
                CatV { servers: Seq::empty(), extras: Seq::empty() },
                crate::json::ps_of(pairs@),
            ) is None && e is Json,
        },
{
    let ghost all = crate::json::ps_of(pairs@);
    let ghost c0 = CatV { servers: Seq::empty(), extras: Seq::empty() };
    let k_mcp = key_mcp_str();
    let mut out = McpCatalogue { mcp_servers: Vec::new(), extras: Vec::new() };
    let n = pairs.len();
    let mut k: usize = 0;
    proof {
        assert(all.skip(0) =~= all);
        assert(kvv(out.mcp_servers@) =~= Seq::<(Seq<char>, ServerV)>::empty());
        assert(kvv(out.extras@) =~= Seq::<(Seq<char>, JsonV)>::empty());
        assert(out@ == c0);
    }
    while k < n
        invariant
            n == pairs@.len(),
            k <= n,
            all == crate::json::ps_of(pairs@),
            c0 == (CatV { servers: Seq::empty(), extras: Seq::empty() }),
            k_mcp@ == key_mcp(),
            cat_fold(c0, all) == cat_fold(out@, all.skip(k as int)),
        decreases n - k,
    {
        let ghost tail = all.skip(k as int);
        let ghost acc0 = out@;
        proof {
            assert(tail[0] == all[k as int]);
            assert(all[k as int] == (pairs@[k as int].0@, pairs@[k as int].1@));
            assert(tail.drop_first() =~= all.skip(k + 1));
        }
        let key = &pairs[k].0;
        let val = &pairs[k].1;
        if str_eq_exec(key.as_str(), k_mcp.as_str()) {
            match val {
                Json::Obj(sp) => {
                    match servers_from_exec(sp) {
                        Ok(ss) => {
                            out.mcp_servers = ss;
                        },
                        Err(e) => {
                            proof {
                                assert(cat_step(acc0, tail[0].0, tail[0].1) is None);
                                assert(cat_fold(acc0, tail) is None);
                                assert(cat_fold(c0, all) is None);
                                assert(cat_fold(
                                    CatV { servers: Seq::empty(), extras: Seq::empty() },
                                    crate::json::ps_of(pairs@),
                                ) is None);
                                assert(e is Json);
                            }
                            return Err(e);
                        },
                    }
                },
                _ => {
                    proof {
                        assert(cat_step(acc0, tail[0].0, tail[0].1) is None);
                        assert(cat_fold(acc0, tail) is None);
                        assert(cat_fold(c0, all) is None);
                        assert(cat_fold(
                            CatV { servers: Seq::empty(), extras: Seq::empty() },
                            crate::json::ps_of(pairs@),
                        ) is None);
                    }
                    return Err(AppError::Json("mcpServers is not an object".to_owned()));
                },
            }
        } else {
            kv_insert(&mut out.extras, key.clone(), clone_json(val));
        }
        k = k + 1;
        proof {
            assert(cat_step(acc0, all[k - 1].0, all[k - 1].1) == Some(out@));
        }
    }
    proof {
        assert(all.skip(n as int) =~= Seq::<(Seq<char>, JsonV)>::empty());
    }
    Ok(out)
}

impl McpCatalogue {
    /// A catalogue with no servers and no extra fields.
    pub fn empty() -> (r: McpCatalogue)
        ensures
            r@ == (CatV { servers: Seq::empty(), extras: Seq::empty() }),
    {
        let r = McpCatalogue { mcp_servers: Vec::new(), extras: Vec::new() };
        proof {
            assert(kvv(r.mcp_servers@) =~= Seq::<(Seq<char>, ServerV)>::empty());
            assert(kvv(r.extras@) =~= Seq::<(Seq<char>, JsonV)>::empty());
        }
        r
    }

    /// Read a catalogue from its JSON document.
    pub fn from_json(j: &Json) -> (r: Result<McpCatalogue, AppError>)
        ensures
            match r {
                Ok(c) => cat_from_json(j@) == Some(c@),
                Err(e) => cat_from_json(j@) is None && e is Json,
            },
    {
        match j {
            Json::Obj(pairs) => cat_from_pairs(pairs),
            _ => Err(AppError::Json("catalogue is not an object".to_owned())),
        }
    }
}

/// The JSON document of an entry.
pub fn entry_to_json_exec(e: &McpServer) -> (r: Json)
    ensures
        r@ == entry_to_json(e@),
{
    let mut out: Vec<(String, Json)> = Vec::new();
    let ghost g1 = opt_field(key_type(), e@.server_type);
    let ghost g2 = opt_field(key_command(), e@.command);
    proof {
        assert(crate::json::ps_of(out@) =~= Seq::<(Seq<char>, JsonV)>::empty());
    }
    match &e.server_type {
        Some(s) => {
            out.push((key_type_str(), Json::Str(s.clone())));
        },
        None => {},
    }
    proof {
        assert(crate::json::ps_of(out@) =~= g1);
    }
    match &e.command {
        Some(s) => {
            out.push((key_command_str(), Json::Str(s.clone())));
        },
        None => {},
    }
    proof {
        assert(crate::json::ps_of(out@) =~= g1 + g2);
    }
    let ghost g3: Seq<(Seq<char>, JsonV)> = if e@.args.len() == 0 {
        Seq::empty()
    } else {
        seq![(key_args(), JsonV::Arr(e@.args.map(|i: int, a: Seq<char>| JsonV::Str(a))))]
    };
    if e.args.len() > 0 {
        let mut items: Vec<Json> = Vec::new();
        let na = e.args.len();
        let mut k: usize = 0;
        while k < na
            invariant
                na == e.args@.len(),
                k <= na,
                items@.len() == k,
                forall|m: int| 0 <= m < k ==> (#[trigger] items@[m])@ == JsonV::Str(e.args@[m]@),
            decreases na - k,
        {
            items.push(Json::Str(e.args[k].clone()));
            k = k + 1;
        }
        proof {
            assert(crate::json::vs_of(items@) =~= e@.args.map(
                |i: int, a: Seq<char>| JsonV::Str(a),
            ));
        }
        out.push((key_args_str(), Json::Arr(items)));
    }
    proof {
        assert(crate::json::ps_of(out@) =~= g1 + g2 + g3);
    }
    let ghost g4: Seq<(Seq<char>, JsonV)> = if e@.env.len() == 0 {
        Seq::empty()
    } else {
        seq![
            (
                key_env(),
                JsonV::Obj(
                    e@.env.map(|i: int, p: (Seq<char>, Seq<char>)| (p.0, JsonV::Str(p.1))),
                ),
            ),
        ]
    };
    if e.env.len() > 0 {
        let mut ps: Vec<(String, Json)> = Vec::new();
        let ne = e.env.len();
        let mut k: usize = 0;
        while k < ne
            invariant
                ne == e.env@.len(),
                k <= ne,
                ps@.len() == k,
                forall|m: int| 0 <= m < k ==> (#[trigger] ps@[m]).0@ == e.env@[m].0@ && ps@[m].1@
                    == JsonV::Str(e.env@[m].1@),
            decreases ne - k,
        {
            ps.push((e.env[k].0.clone(), Json::Str(e.env[k].1.clone())));
            k = k + 1;
        }
        proof {
            assert(crate::json::ps_of(ps@) =~= e@.env.map(
                |i: int, p: (Seq<char>, Seq<char>)| (p.0, JsonV::Str(p.1)),
            ));
        }
        out.push((key_env_str(), Json::Obj(ps)));
    }
    proof {
        assert(crate::json::ps_of(out@) =~= g1 + g2 + g3 + g4);
    }
    let ghost g5 = opt_field(key_description(), e@.description);
    match &e.description {
        Some(s) => {
            out.push((key_description_str(), Json::Str(s.clone())));
        },
        None => {},
    }
    proof {
        assert(crate::json::ps_of(out@) =~= g1 + g2 + g3 + g4 + g5);
    }
    let ghost g6: Seq<(Seq<char>, JsonV)> = match e@.timeout {
        Some(t) => seq![(key_timeout(), JsonV::Num(dec_str(t as nat)))],
        None => Seq::empty(),
    };
    match &e.timeout {
        Some(t) => {
            out.push((key_timeout_str(), Json::Num(u64_to_dec(*t))));
        },
        None => {},
    }
    proof {
        assert(crate::json::ps_of(out@) =~= g1 + g2 + g3 + g4 + g5 + g6);
    }
    let nx = e.extra.len();
    let mut k: usize = 0;
    let ghost base = crate::json::ps_of(out@);
    while k < nx
        invariant
            nx == e.extra@.len(),
            k <= nx,
            crate::json::ps_of(out@) == base + kvv(e.extra@).take(k as int),
        decreases nx - k,
    {
        let ghost before = crate::json::ps_of(out@);
        out.push((e.extra[k].0.clone(), clone_json(&e.extra[k].1)));
        k = k + 1;
        proof {
            assert(kvv(e.extra@).take(k as int) =~= kvv(e.extra@).take(k - 1).push(
                (e.extra@[k - 1].0@, e.extra@[k - 1].1@),
            ));
            assert(crate::json::ps_of(out@) =~= before.push(
                (e.extra@[k - 1].0@, e.extra@[k - 1].1@),
            ));
            assert(crate::json::ps_of(out@) =~= base + kvv(e.extra@).take(k as int));
        }
    }
    proof {
        assert(kvv(e.extra@).take(nx as int) =~= e@.extra);
        assert(crate::json::ps_of(out@) =~= entry_pairs(e@));
    }
    Json::Obj(out)
}

/// The JSON document of a catalogue.
pub fn catalogue_to_json(c: &McpCatalogue) -> (r: Json)
    ensures
        r@ == cat_to_json(c@),
{
    let mut servers: Vec<(String, Json)> = Vec::new();
    let n = c.mcp_servers.len();
    let mut k: usize = 0;
    while k < n
        invariant
            n == c.mcp_servers@.len(),
            k <= n,
            servers@.len() == k,
            forall|m: int| 0 <= m < k ==> (#[trigger] servers@[m]).0@ == c.mcp_servers@[m].0@
                && servers@[m].1@ == entry_to_json(c.mcp_servers@[m].1@),
        decreases n - k,
    {
        let j = entry_to_json_exec(&c.mcp_servers[k].1);
        servers.push((c.mcp_servers[k].0.clone(), j));
        k = k + 1;
    }
    proof {
        assert(crate::json::ps_of(servers@) =~= c@.servers.map(
            |i: int, p: (Seq<char>, ServerV)| (p.0, entry_to_json(p.1)),
        ));
    }
    let mut out: Vec<(String, Json)> = Vec::new();
    out.push((key_mcp_str(), Json::Obj(servers)));
    let ghost base = crate::json::ps_of(out@);
    proof {
        assert(base =~= seq![
            (
                key_mcp(),
                JsonV::Obj(
                    c@.servers.map(|i: int, p: (Seq<char>, ServerV)| (p.0, entry_to_json(p.1))),
                ),
            ),
        ]);
    }
    let nx = c.extras.len();
    let mut k2: usize = 0;
    while k2 < nx
        invariant
            nx == c.extras@.len(),
            k2 <= nx,
            crate::json::ps_of(out@) == base + kvv(c.extras@).take(k2 as int),
        decreases nx - k2,
    {
        let ghost before = crate::json::ps_of(out@);
        out.push((c.extras[k2].0.clone(), clone_json(&c.extras[k2].1)));
        k2 = k2 + 1;
        proof {
            assert(kvv(c.extras@).take(k2 as int) =~= kvv(c.extras@).take(k2 - 1).push(
                (c.extras@[k2 - 1].0@, c.extras@[k2 - 1].1@),
            ));
            assert(crate::json::ps_of(out@) =~= before.push(
                (c.extras@[k2 - 1].0@, c.extras@[k2 - 1].1@),
            ));
            assert(crate::json::ps_of(out@) =~= base + kvv(c.extras@).take(k2 as int));
        }
    }
    proof {
        assert(kvv(c.extras@).take(nx as int) =~= c@.extras);
        assert(crate::json::ps_of(out@) =~= cat_to_json(c@)->Obj_0);
    }
    Json::Obj(out)
}

/// Parse a catalogue text. Succeeds exactly when the text is valid JSON
/// and shaped like a catalogue; the result is then well-formed.
pub fn parse_catalogue(text: &str) -> (r: Result<McpCatalogue, AppError>)
    ensures
        match r {
            Ok(c) => spec_parse_catalogue(text@) == Some(c@) && cat_wf(c@),
            Err(e) => spec_parse_catalogue(text@) is None && e is Json,
        },
{
    match parse_json(text) {
        Ok(j) => {
            let r = McpCatalogue::from_json(&j);
            proof {
                if r is Ok {
                    lemma_cat_from_json_wf(j@);
                }
            }
            r
        },
        Err(e) => Err(e),
    }
}

/// Serialize a catalogue: stable key order, compact form, trailing newline.
pub fn serialize_catalogue(c: &McpCatalogue) -> (r: String)
    ensures
        r@ == cat_text(c@),
{
    let j = catalogue_to_json(c);
    let mut out = ser_json(&j);
    out.push('\n');
    proof {
        assert(out@ =~= cat_text(c@));
    }
    out
}

impl McpServer {
    /// A deep copy of the entry.
    pub fn clone_entry(&self) -> (r: McpServer)
        ensures
            r@ == self@,
    {
        let mut args: Vec<String> = Vec::new();
        let na = self.args.len();
        let mut k: usize = 0;
        while k < na
            invariant
                na == self.args@.len(),
                k <= na,
                args@.len() == k,
                forall|m: int| 0 <= m < k ==> (#[trigger] args@[m])@ == self.args@[m]@,
            decreases na - k,
        {
            args.push(self.args[k].clone());
            k = k + 1;
        }
        let mut env: Vec<(String, String)> = Vec::new();
        let ne = self.env.len();
        let mut k2: usize = 0;
        while k2 < ne
            invariant
                ne == self.env@.len(),
                k2 <= ne,
                env@.len() == k2,
                forall|m: int| 0 <= m < k2 ==> (#[trigger] env@[m]).0@ == self.env@[m].0@
                    && env@[m].1@ == self.env@[m].1@,
            decreases ne - k2,
        {
            env.push((self.env[k2].0.clone(), self.env[k2].1.clone()));
            k2 = k2 + 1;
        }
        let mut extra: Vec<(String, Json)> = Vec::new();
        let nx = self.extra.len();
        let mut k3: usize = 0;
        while k3 < nx
            invariant
                nx == self.extra@.len(),
                k3 <= nx,
                extra@.len() == k3,
                forall|m: int| 0 <= m < k3 ==> (#[trigger] extra@[m]).0@ == self.extra@[m].0@
                    && extra@[m].1@ == self.extra@[m].1@,
            decreases nx - k3,
        {
            extra.push((self.extra[k3].0.clone(), clone_json(&self.extra[k3].1)));
            k3 = k3 + 1;
        }
        let r = McpServer {
            server_type: match &self.server_type {
                Some(s) => Some(s.clone()),
                None => None,
            },
            command: match &self.command {
                Some(s) => Some(s.clone()),
                None => None,
            },
            args,
            env,
            description: match &self.description {
                Some(s) => Some(s.clone()),
                None => None,
            },
            timeout: self.timeout,
            extra,
        };
        proof {
            assert(strs_view(r.args@) =~= strs_view(self.args@));
            assert(kvv(r.env@) =~= kvv(self.env@));
            assert(kvv(r.extra@) =~= kvv(self.extra@));
        }
        r
    }
}

// ---------------------------------------------------------------------------
// Rendering a launch command for display
// ---------------------------------------------------------------------------

/// Leading whitespace removed.
pub open spec fn ltrim(s: Seq<char>) -> Seq<char>
    decreases s.len(),
{
    if s.len() > 0 && crate::json::is_ws(s[0]) {
        ltrim(s.drop_first())
    } else {
        s
    }
}

/// Trailing whitespace removed.
pub open spec fn rtrim(s: Seq<char>) -> Seq<char>
    decreases s.len(),
{
    if s.len() > 0 && crate::json::is_ws(s.last()) {
        rtrim(s.drop_last())
    } else {
        s
    }
}

/// Both ends trimmed.
pub open spec fn trim(s: Seq<char>) -> Seq<char> {
    rtrim(ltrim(s))
}

/// Does the text contain whitespace?
pub open spec fn has_ws(s: Seq<char>) -> bool {
    exists|i: int| 0 <= i < s.len() && crate::json::is_ws(#[trigger] s[i])
}

/// An argument as displayed: trimmed, and double-quoted exactly when it
/// contains whitespace.
pub open spec fn quoted_arg(a: Seq<char>) -> Seq<char> {
    if has_ws(trim(a)) {
        seq!['"'] + trim(a) + seq!['"']
    } else {
        trim(a)
    }
}

/// Displayed arguments from `k` on, each preceded by one space.
pub open spec fn render_args(args: Seq<Seq<char>>, k: int) -> Seq<char>
    decreases args.len() - k,
{
    if !(0 <= k < args.len()) {
        Seq::empty()
    } else {
        seq![' '] + quoted_arg(args[k]) + render_args(args, k + 1)
    }
}

/// The displayable launch command, if a command is set.
pub open spec fn render_spec(e: ServerV) -> Option<Seq<char>> {
    match e.command {
        None => None,
        Some(c) => Some(trim(c) + render_args(e.args, 0)),
    }
}

proof fn lemma_ltrim_at(s: Seq<char>, a: int)
    requires
        0 <= a <= s.len(),
        forall|m: int| 0 <= m < a ==> crate::json::is_ws(#[trigger] s[m]),
        a == s.len() || !crate::json::is_ws(s[a]),
    ensures
        ltrim(s) == s.skip(a),
    decreases a,
{
    if a == 0 {
        assert(s.skip(0) =~= s);
    } else {
        let d = s.drop_first();
        assert forall|m: int| 0 <= m < a - 1 implies crate::json::is_ws(#[trigger] d[m]) by {
            assert(d[m] == s[m + 1]);
        }
        assert(a - 1 == d.len() || !crate::json::is_ws(d[a - 1]));
        lemma_ltrim_at(d, a - 1);
        assert(d.skip(a - 1) =~= s.skip(a));
    }
}

proof fn lemma_rtrim_at(s: Seq<char>, b: int)
    requires
        0 <= b <= s.len(),
        forall|m: int| b <= m < s.len() ==> crate::json::is_ws(#[trigger] s[m]),
        b == 0 || !crate::json::is_ws(s[b - 1]),
    ensures
        rtrim(s) == s.take(b),
    decreases s.len(),
{
    if b < s.len() {
        let d = s.drop_last();
        assert(crate::json::is_ws(s.last()));
        assert forall|m: int| b <= m < d.len() implies crate::json::is_ws(#[trigger] d[m]) by {
            assert(d[m] == s[m]);
        }
        assert(b == 0 || !crate::json::is_ws(d[b - 1]));
        lemma_rtrim_at(d, b);
        assert(d.take(b) =~= s.take(b));
    } else {
        assert(s.take(b) =~= s);
        if s.len() > 0 {
            assert(!crate::json::is_ws(s.last()));
        }
    }
}

/// The trimmed text.
pub fn trim_exec(s: &str) -> (r: String)
    ensures
        r@ == trim(s@),
{
    let n = s.unicode_len();
    let mut a: usize = 0;
    while a < n && crate::json::ws_char(s.get_char(a))
        invariant
            n == s@.len(),
            a <= n,
            forall|m: int| 0 <= m < a ==> crate::json::is_ws(#[trigger] s@[m]),
        decreases n - a,
    {
        a = a + 1;
    }
    let mut b: usize = n;
    while b > a && crate::json::ws_char(s.get_char(b - 1))
        invariant
            n == s@.len(),
            a <= b <= n,
            forall|m: int| b <= m < n ==> crate::json::is_ws(#[trigger] s@[m]),
        decreases b,
    {
        b = b - 1;
    }
    let r = s.substring_char(a, b).to_owned();
    proof {
        lemma_ltrim_at(s@, a as int);
        let sk = s@.skip(a as int);
        assert forall|m: int| b - a <= m < sk.len() implies crate::json::is_ws(
            #[trigger] sk[m],
        ) by {
            assert(sk[m] == s@[a + m]);
        }
        if b > a {
            assert(sk[b - a - 1] == s@[b - 1]);
        }
        lemma_rtrim_at(sk, b - a);
        assert(sk.take(b - a) =~= s@.subrange(a as int, b as int));
    }
    r
}

fn has_ws_exec(s: &str) -> (r: bool)
    ensures
        r == has_ws(s@),
{
    let n = s.unicode_len();
    let mut k: usize = 0;
    while k < n
        invariant
            n == s@.len(),
            k <= n,
            forall|m: int| 0 <= m < k ==> !crate::json::is_ws(#[trigger] s@[m]),
        decreases n - k,
    {
        if crate::json::ws_char(s.get_char(k)) {
            return true;
        }
        k = k + 1;
    }
    false
}

fn render_args_exec(args: &Vec<String>, k: usize) -> (r: String)
    requires
        k <= args@.len(),
    ensures
        r@ == render_args(strs_view(args@), k as int),
    decreases args@.len() - k,
{
    if k >= args.len() {
        String::new()
    } else {
        let t = trim_exec(args[k].as_str());
        let mut out = String::new();
        out.push(' ');
        let ghost sv = strs_view(args@);
        proof {
            assert(sv[k as int] == args@[k as int]@);
        }
        if has_ws_exec(t.as_str()) {
            out.push('"');
            out.append(t.as_str());
            out.push('"');
            proof {
                assert(out@ =~= seq![' '] + quoted_arg(sv[k as int]));
            }
        } else {
            out.append(t.as_str());
            proof {
                assert(out@ =~= seq![' '] + quoted_arg(sv[k as int]));
            }
        }
        let rest = render_args_exec(args, k + 1);
        out.append(rest.as_str());
        out
    }
}

impl McpServer {
    /// Compose the launch command for display: the trimmed command followed
    /// by each trimmed argument, quoted when it contains whitespace.
    /// Nothing when no command is set.
    pub fn render_command(&self) -> (r: Option<String>)
        ensures
            match r {
                Some(s) => render_spec(self@) == Some(s@),
                None => render_spec(self@) is None,
            },
    {
        match &self.command {
            None => None,
            Some(c) => {
                let mut out = trim_exec(c.as_str());
                let rest = render_args_exec(&self.args, 0);
                out.append(rest.as_str());
                Some(out)
            },
        }
    }
}

} // verus!
