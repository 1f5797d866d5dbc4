//! A small JSON document model with a verified serializer and parser.
//!
//! Catalogue files, and the catalogue-owned part of the external settings
//! document, are JSON. The serializer emits a compact canonical form; the
//! parser accepts ordinary JSON text (insignificant whitespace anywhere
//! between tokens). Parsing a serialized document yields the document back,
//! which is proved in [`lemma_json_round_trip`].
//!
//! Number tokens are kept as raw character strings so that any numeric
//! value, integral or not, round-trips unchanged; the catalogue layer
//! interprets the tokens it cares about (timeouts) as integers.

use crate::error::AppError;
use vstd::prelude::*;

verus! {

broadcast use vstd::std_specs::vec::group_vec_axioms;

/// A JSON document: the executable representation.
///
/// Object member order is preserved; duplicate keys are preserved here and
/// resolved (last write wins) only where a document is interpreted as a
/// catalogue.
#[derive(Debug)]
pub enum Json {
    Null,
    Bool(bool),
    /// Raw number token, e.g. `-12`, `0.5e3`.
    Num(String),
    /// Decoded string contents (no quotes, escapes resolved).
    Str(String),
    Arr(Vec<Json>),
    Obj(Vec<(String, Json)>),
}

/// The mathematical shape of a JSON document, used by all contracts.
pub enum JsonV {
    Null,
    Bool(bool),
    Num(Seq<char>),
    Str(Seq<char>),
    Arr(Seq<JsonV>),
    Obj(Seq<(Seq<char>, JsonV)>),
}

impl View for Json {
    type V = JsonV;

    /// The abstract value of this document.
    open spec fn view(&self) -> JsonV
        decreases self,
    {
        match self {
            Json::Null => JsonV::Null,
            Json::Bool(b) => JsonV::Bool(*b),
            Json::Num(t) => JsonV::Num(t@),
            Json::Str(s) => JsonV::Str(s@),
            Json::Arr(items) => JsonV::Arr(vs_of(items@)),
            Json::Obj(pairs) => JsonV::Obj(ps_of(pairs@)),
        }
    }
}

/// Abstract values of a sequence of documents.
pub open spec fn vs_of(items: Seq<Json>) -> Seq<JsonV>
    decreases items,
{
    Seq::new(
        items.len(),
        |i: int|
            if 0 <= i < items.len() {
                items[i].view()
            } else {
                JsonV::Null
            },
    )
}

/// Abstract values of a sequence of object members.
pub open spec fn ps_of(pairs: Seq<(String, Json)>) -> Seq<(Seq<char>, JsonV)>
    decreases pairs,
{
    Seq::new(
        pairs.len(),
        |i: int|
            if 0 <= i < pairs.len() {
                (pairs[i].0@, pairs[i].1.view())
            } else {
                (Seq::empty(), JsonV::Null)
            },
    )
}

/// JSON insignificant whitespace.
pub open spec fn is_ws(c: char) -> bool {
    c == ' ' || c == '\t' || c == '\n' || c == '\r'
}

/// A decimal digit.
pub open spec fn is_digit(c: char) -> bool {
    '0' <= c && c <= '9'
}

/// Characters that may continue a number token.
pub open spec fn is_num_char(c: char) -> bool {
    is_digit(c) || c == '-' || c == '+' || c == '.' || c == 'e' || c == 'E'
}

/// Characters that may start a number token.
pub open spec fn is_num_start(c: char) -> bool {
    is_digit(c) || c == '-'
}

/// Well-formedness of a document value: every number token is non-empty,
/// starts like a number and consists of number characters only. Serializing
/// a well-formed value yields text the parser reads back verbatim.
pub open spec fn wf_json(v: JsonV) -> bool
    decreases v,
{
    match v {
        JsonV::Null => true,
        JsonV::Bool(_) => true,
        JsonV::Num(t) => t.len() > 0 && is_num_start(t[0]) && (forall|i: int|
            0 <= i < t.len() ==> is_num_char(#[trigger] t[i])),
        JsonV::Str(_) => true,
        JsonV::Arr(items) => forall|i: int|
            0 <= i < items.len() ==> wf_json(#[trigger] items[i]),
        JsonV::Obj(pairs) => forall|i: int|
            0 <= i < pairs.len() ==> wf_json(#[trigger] pairs[i].1),
    }
}

// ---------------------------------------------------------------------------
// Serialization (spec level)
// ---------------------------------------------------------------------------

/// How one character is written inside a string literal.
pub open spec fn esc_char(c: char) -> Seq<char> {
    if c == '"' {
        seq!['\\', '"']
    } else if c == '\\' {
        seq!['\\', '\\']
    } else if c == '\n' {
        seq!['\\', 'n']
    } else if c == '\r' {
        seq!['\\', 'r']
    } else if c == '\t' {
        seq!['\\', 't']
    } else {
        seq![c]
    }
}

/// String contents with escapes applied.
pub open spec fn esc(s: Seq<char>) -> Seq<char>
    decreases s.len(),
{
    if s.len() == 0 {
        Seq::empty()
    } else {
        esc_char(s[0]) + esc(s.drop_first())
    }
}

/// Serialized text of a document value (compact: no whitespace).
pub open spec fn ser(v: JsonV) -> Seq<char>
    decreases v, 0int,
{
    match v {
        JsonV::Null => seq!['n', 'u', 'l', 'l'],
        JsonV::Bool(b) => if b {
            seq!['t', 'r', 'u', 'e']
        } else {
            seq!['f', 'a', 'l', 's', 'e']
        },
        JsonV::Num(t) => t,
        JsonV::Str(s) => seq!['"'] + esc(s) + seq!['"'],
        JsonV::Arr(items) => seq!['['] + ser_items(items, 0) + seq![']'],
        JsonV::Obj(pairs) => seq!['{'] + ser_pairs(pairs, 0) + seq!['}'],
    }
}

/// Serialized elements of an array from index `k` on, comma-separated.
pub open spec fn ser_items(items: Seq<JsonV>, k: int) -> Seq<char>
    decreases items, items.len() - k,
{
    if !(0 <= k < items.len()) {
        Seq::empty()
    } else if k == items.len() - 1 {
        ser(items[k])
    } else {
        ser(items[k]) + seq![','] + ser_items(items, k + 1)
    }
}

/// Serialized members of an object from index `k` on, comma-separated.
pub open spec fn ser_pairs(pairs: Seq<(Seq<char>, JsonV)>, k: int) -> Seq<char>
    decreases pairs, pairs.len() - k,
{
    if !(0 <= k < pairs.len()) {
        Seq::empty()
    } else {
        let one = seq!['"'] + esc(pairs[k].0) + seq!['"', ':'] + ser(pairs[k].1);
        if k == pairs.len() - 1 {
            one
        } else {
            one + seq![','] + ser_pairs(pairs, k + 1)
        }
    }
}

// ---------------------------------------------------------------------------
// Parsing (spec level)
// ---------------------------------------------------------------------------

/// First index at or after `i` holding a non-whitespace character.
pub open spec fn skip_ws(s: Seq<char>, i: int) -> int
    decreases s.len() - i,
{
    if 0 <= i < s.len() && is_ws(s[i]) {
        skip_ws(s, i + 1)
    } else {
        i
    }
}

/// End of the number token starting at `i`.
pub open spec fn num_end(s: Seq<char>, i: int) -> int
    decreases s.len() - i,
{
    if 0 <= i < s.len() && is_num_char(s[i]) {
        num_end(s, i + 1)
    } else {
        i
    }
}

/// The character an escape sequence `\x` denotes, if `x` is a supported
/// escape character.
pub open spec fn unesc_char(c: char) -> Option<char> {
    if c == '"' {
        Some('"')
    } else if c == '\\' {
        Some('\\')
    } else if c == '/' {
        Some('/')
    } else if c == 'n' {
        Some('\n')
    } else if c == 'r' {
        Some('\r')
    } else if c == 't' {
        Some('\t')
    } else if c == 'b' {
        Some('\u{0008}')
    } else if c == 'f' {
        Some('\u{000C}')
    } else {
        None
    }
}

/// Parse string contents beginning at `i` (just after the opening quote);
/// yields the decoded contents and the index just after the closing quote.
pub open spec fn sp_string(s: Seq<char>, i: int) -> Option<(Seq<char>, int)>
    decreases s.len() - i,
{
    if !(0 <= i < s.len()) {
        None
    } else if s[i] == '"' {
        Some((Seq::empty(), i + 1))
    } else if s[i] == '\\' {
        if i + 1 >= s.len() {
            None
        } else {
            match unesc_char(s[i + 1]) {
                Some(c) => match sp_string(s, i + 2) {
                    Some(p) => Some((seq![c] + p.0, p.1)),
                    None => None,
                },
                None => None,
            }
        }
    } else {
        match sp_string(s, i + 1) {
            Some(p) => Some((seq![s[i]] + p.0, p.1)),
            None => None,
        }
    }
}

/// Does `s` hold `w` verbatim at position `i`?
pub open spec fn has_at(s: Seq<char>, i: int, w: Seq<char>) -> bool {
    0 <= i && i + w.len() <= s.len() && s.subrange(i, i + w.len()) == w
}

/// Parse one value starting at `i`; leading whitespace is consumed. Yields
/// the value and the index just after its last character.
pub open spec fn sp_value(s: Seq<char>, i: int) -> Option<(JsonV, int)>
    decreases s.len() - i, 0int,
{
    if !(0 <= i < s.len()) {
        None
    } else if is_ws(s[i]) {
        sp_value(s, i + 1)
    } else if s[i] == 'n' {
        if has_at(s, i, seq!['n', 'u', 'l', 'l']) {
            Some((JsonV::Null, i + 4))
        } else {
            None
        }
    } else if s[i] == 't' {
        if has_at(s, i, seq!['t', 'r', 'u', 'e']) {
            Some((JsonV::Bool(true), i + 4))
        } else {
            None
        }
    } else if s[i] == 'f' {
        if has_at(s, i, seq!['f', 'a', 'l', 's', 'e']) {
            Some((JsonV::Bool(false), i + 5))
        } else {
            None
        }
    } else if s[i] == '"' {
        match sp_string(s, i + 1) {
            Some((cs, j)) => Some((JsonV::Str(cs), j)),
            None => None,
        }
    } else if is_num_start(s[i]) {
        Some((JsonV::Num(s.subrange(i, num_end(s, i))), num_end(s, i)))
    } else if s[i] == '[' {
        sp_arr_open(s, i + 1)
    } else if s[i] == '{' {
        sp_obj_open(s, i + 1)
    } else {
        None
    }
}

/// Parse the remainder of an array whose `[` stands just before `i`:
/// either a closing `]` or a non-empty element list.
pub open spec fn sp_arr_open(s: Seq<char>, i: int) -> Option<(JsonV, int)>
    decreases s.len() - i, 3int,
{
    if !(0 <= i < s.len()) {
        None
    } else if is_ws(s[i]) {
        sp_arr_open(s, i + 1)
    } else if s[i] == ']' {
        Some((JsonV::Arr(Seq::empty()), i + 1))
    } else {
        match sp_items(s, i) {
            Some((items, j)) => Some((JsonV::Arr(items), j)),
            None => None,
        }
    }
}

/// Parse a non-empty comma-separated element list and the closing `]`.
pub open spec fn sp_items(s: Seq<char>, i: int) -> Option<(Seq<JsonV>, int)>
    decreases s.len() - i, 2int,
{
    match sp_value(s, i) {
        Some((v, j)) => if !(i < j <= s.len()) {
            None
        } else {
            match sp_items_after(s, j) {
                Some((rest, e)) => Some((seq![v] + rest, e)),
                None => None,
            }
        },
        None => None,
    }
}

/// After one array element: either `]` ends the array or `,` continues it.
pub open spec fn sp_items_after(s: Seq<char>, i: int) -> Option<(Seq<JsonV>, int)>
    decreases s.len() - i, 1int,
{
    if !(0 <= i < s.len()) {
        None
    } else if is_ws(s[i]) {
        sp_items_after(s, i + 1)
    } else if s[i] == ']' {
        Some((Seq::empty(), i + 1))
    } else if s[i] == ',' {
        sp_items(s, i + 1)
    } else {
        None
    }
}

/// Parse the remainder of an object whose `{` stands just before `i`.
pub open spec fn sp_obj_open(s: Seq<char>, i: int) -> Option<(JsonV, int)>
    decreases s.len() - i, 3int,
{
    if !(0 <= i < s.len()) {
        None
    } else if is_ws(s[i]) {
        sp_obj_open(s, i + 1)
    } else if s[i] == '}' {
        Some((JsonV::Obj(Seq::empty()), i + 1))
    } else {
        match sp_pairs(s, i) {
            Some((pairs, j)) => Some((JsonV::Obj(pairs), j)),
            None => None,
        }
    }
}

/// Parse a non-empty comma-separated member list and the closing `}`.
pub open spec fn sp_pairs(s: Seq<char>, i: int) -> Option<(Seq<(Seq<char>, JsonV)>, int)>
    decreases s.len() - i, 2int,
{
    if !(0 <= i < s.len()) {
        None
    } else if is_ws(s[i]) {
        sp_pairs(s, i + 1)
    } else if s[i] == '"' {
        match sp_string(s, i + 1) {
            Some((k, j)) => if !(i < j <= s.len()) {
                None
            } else {
                match sp_pair_value(s, j) {
                    Some((v, e)) => if !(j < e <= s.len()) {
                        None
                    } else {
                        match sp_pairs_after(s, e) {
                            Some((rest, end)) => Some((seq![(k, v)] + rest, end)),
                            None => None,
                        }
                    },
                    None => None,
                }
            },
            None => None,
        }
    } else {
        None
    }
}

/// After a member key: a `:` and then the member value.
pub open spec fn sp_pair_value(s: Seq<char>, i: int) -> Option<(JsonV, int)>
    decreases s.len() - i, 1int,
{
    if !(0 <= i < s.len()) {
        None
    } else if is_ws(s[i]) {
        sp_pair_value(s, i + 1)
    } else if s[i] == ':' {
        sp_value(s, i + 1)
    } else {
        None
    }
}

/// After one object member: either `}` ends the object or `,` continues it.
pub open spec fn sp_pairs_after(s: Seq<char>, i: int) -> Option<(Seq<(Seq<char>, JsonV)>, int)>
    decreases s.len() - i, 1int,
{
    if !(0 <= i < s.len()) {
        None
    } else if is_ws(s[i]) {
        sp_pairs_after(s, i + 1)
    } else if s[i] == '}' {
        Some((Seq::empty(), i + 1))
    } else if s[i] == ',' {
        sp_pairs(s, i + 1)
    } else {
        None
    }
}

/// Parse a whole text: one value, with only whitespace around it.
pub open spec fn spec_parse(s: Seq<char>) -> Option<JsonV> {
    match sp_value(s, 0) {
        Some((v, e)) => if skip_ws(s, e) == s.len() {
            Some(v)
        } else {
            None
        },
        None => None,
    }
}

// ---------------------------------------------------------------------------
// Executable helpers
// ---------------------------------------------------------------------------

/// Relies on String::push: appends the given character to the end of the
/// string.
pub assume_specification[ String::push ](s: &mut String, c: char)
    ensures
        final(s)@ == old(s)@.push(c),
;

pub fn ws_char(c: char) -> (r: bool)
    ensures
        r == is_ws(c),
{
    c == ' ' || c == '\t' || c == '\n' || c == '\r'
}

fn digit_char(c: char) -> (r: bool)
    ensures
        r == is_digit(c),
{
    '0' <= c && c <= '9'
}

fn num_char(c: char) -> (r: bool)
    ensures
        r == is_num_char(c),
{
    digit_char(c) || c == '-' || c == '+' || c == '.' || c == 'e' || c == 'E'
}

fn num_start_char(c: char) -> (r: bool)
    ensures
        r == is_num_start(c),
{
    digit_char(c) || c == '-'
}

/// The characters of a text, as an indexable vector.
pub fn str_to_chars(text: &str) -> (r: Vec<char>)
    ensures
        r@ == text@,
{
    let n = text.unicode_len();
    let mut out: Vec<char> = Vec::new();
    let mut k: usize = 0;
    while k < n
        invariant
            n == text@.len(),
            k <= n,
            out@ == text@.subrange(0, k as int),
        decreases n - k,
    {
        out.push(text.get_char(k));
        k = k + 1;
        proof {
            assert(out@ =~= text@.subrange(0, k as int));
        }
    }
    proof {
        assert(out@ =~= text@);
    }
    out
}

/// The substring `s[from..to]`, as a fresh string.
fn chars_to_string(s: &Vec<char>, from: usize, to: usize) -> (r: String)
    requires
        from <= to <= s@.len(),
    ensures
        r@ == s@.subrange(from as int, to as int),
{
    let mut out = String::new();
    let mut k: usize = from;
    while k < to
        invariant
            from <= k <= to <= s@.len(),
            out@ == s@.subrange(from as int, k as int),
        decreases to - k,
    {
        out.push(s[k]);
        k = k + 1;
        proof {
            assert(out@ =~= s@.subrange(from as int, k as int));
        }
    }
    out
}

// ---------------------------------------------------------------------------
// Executable parser
// ---------------------------------------------------------------------------

/// End of the number token starting at `i`, with the facts the caller needs
/// about the characters it covers.
fn pv_num_end(s: &Vec<char>, i: usize) -> (e: usize)
    requires
        i <= s@.len(),
    ensures
        e as int == num_end(s@, i as int),
        i <= e <= s@.len(),
        forall|k: int| i <= k < e ==> is_num_char(#[trigger] s@[k]),
        (i as int) < s@.len() && is_num_char(s@[i as int]) ==> i < e,
    decreases s@.len() - i,
{
    if i < s.len() && num_char(s[i]) {
        pv_num_end(s, i + 1)
    } else {
        i
    }
}

fn unesc(c: char) -> (r: Option<char>)
    ensures
        r == unesc_char(c),
{
    if c == '"' {
        Some('"')
    } else if c == '\\' {
        Some('\\')
    } else if c == '/' {
        Some('/')
    } else if c == 'n' {
        Some('\n')
    } else if c == 'r' {
        Some('\r')
    } else if c == 't' {
        Some('\t')
    } else if c == 'b' {
        Some('\u{0008}')
    } else if c == 'f' {
        Some('\u{000C}')
    } else {
        None
    }
}

/// Parse string contents beginning just after the opening quote.
fn pv_string(s: &Vec<char>, i: usize) -> (r: Option<(String, usize)>)
    requires
        i <= s@.len(),
    ensures
        match r {
            Some(p) => sp_string(s@, i as int) == Some((p.0@, p.1 as int)) && i < p.1 <= s@.len(),
            None => sp_string(s@, i as int) is None,
        },
    decreases s@.len() - i,
{
    if i >= s.len() {
        None
    } else if s[i] == '"' {
        Some((String::new(), i + 1))
    } else if s[i] == '\\' {
        if i + 1 >= s.len() {
            None
        } else {
            match unesc(s[i + 1]) {
                Some(c) => match pv_string(s, i + 2) {
                    Some((rest, j)) => {
                        let mut out = String::new();
                        out.push(c);
                        out.append(rest.as_str());
                        proof {
                            assert(out@ =~= seq![c] + rest@);
                        }
                        Some((out, j))
                    },
                    None => None,
                },
                None => None,
            }
        }
    } else {
        match pv_string(s, i + 1) {
            Some((rest, j)) => {
                let c = s[i];
                let mut out = String::new();
                out.push(c);
                out.append(rest.as_str());
                proof {
                    assert(out@ =~= seq![c] + rest@);
                }
                Some((out, j))
            },
            None => None,
        }
    }
}

proof fn lemma_has_at_char(s: Seq<char>, i: int, w: Seq<char>, k: int)
    requires
        has_at(s, i, w),
        0 <= k < w.len(),
    ensures
        s[i + k] == w[k],
{
    assert(s.subrange(i, i + w.len())[k] == s[i + k]);
}

/// Parse one value starting at `i`.
fn pv_value(s: &Vec<char>, i: usize) -> (r: Option<(Json, usize)>)
    requires
        i <= s@.len(),
    ensures
        match r {
            Some(p) => sp_value(s@, i as int) == Some((p.0@, p.1 as int)) && i < p.1 <= s@.len()
                && wf_json(p.0@),
            None => sp_value(s@, i as int) is None,
        },
    decreases s@.len() - i, 0int,
{
    if i >= s.len() {
        None
    } else if ws_char(s[i]) {
        pv_value(s, i + 1)
    } else if s[i] == 'n' {
        let ghost w = seq!['n', 'u', 'l', 'l'];
        if s.len() - i > 3 && s[i + 1] == 'u' && s[i + 2] == 'l' && s[i + 3] == 'l' {
            proof {
                assert(s@.subrange(i as int, i + 4int) =~= w);
            }
            Some((Json::Null, i + 4))
        } else {
            proof {
                if has_at(s@, i as int, w) {
                    lemma_has_at_char(s@, i as int, w, 1);
                    lemma_has_at_char(s@, i as int, w, 2);
                    lemma_has_at_char(s@, i as int, w, 3);
                }
            }
            None
        }
    } else if s[i] == 't' {
        let ghost w = seq!['t', 'r', 'u', 'e'];
        if s.len() - i > 3 && s[i + 1] == 'r' && s[i + 2] == 'u' && s[i + 3] == 'e' {
            proof {
                assert(s@.subrange(i as int, i + 4int) =~= w);
            }
            Some((Json::Bool(true), i + 4))
        } else {
            proof {
                if has_at(s@, i as int, w) {
                    lemma_has_at_char(s@, i as int, w, 1);
                    lemma_has_at_char(s@, i as int, w, 2);
                    lemma_has_at_char(s@, i as int, w, 3);
                }
            }
            None
        }
    } else if s[i] == 'f' {
        let ghost w = seq!['f', 'a', 'l', 's', 'e'];
        if s.len() - i > 4 && s[i + 1] == 'a' && s[i + 2] == 'l' && s[i + 3] == 's' && s[i + 4]
            == 'e' {
            proof {
                assert(s@.subrange(i as int, i + 5int) =~= w);
            }
            Some((Json::Bool(false), i + 5))
        } else {
            proof {
                if has_at(s@, i as int, w) {
                    lemma_has_at_char(s@, i as int, w, 1);
                    lemma_has_at_char(s@, i as int, w, 2);
                    lemma_has_at_char(s@, i as int, w, 3);
                    lemma_has_at_char(s@, i as int, w, 4);
                }
            }
            None
        }
    } else if s[i] == '"' {
        match pv_string(s, i + 1) {
            Some((cs, j)) => Some((Json::Str(cs), j)),
            None => None,
        }
    } else if num_start_char(s[i]) {
        let e = pv_num_end(s, i);
        let tok = chars_to_string(s, i, e);
        proof {
            assert(is_num_char(s@[i as int]));
            assert(i < e);
            assert(tok@[0] == s@[i as int]);
        }
        Some((Json::Num(tok), e))
    } else if s[i] == '[' {
        pv_arr_open(s, i + 1)
    } else if s[i] == '{' {
        pv_obj_open(s, i + 1)
    } else {
        None
    }
}

/// Parse the remainder of an array whose `[` stands just before `i`.
fn pv_arr_open(s: &Vec<char>, i: usize) -> (r: Option<(Json, usize)>)
    requires
        i <= s@.len(),
    ensures
        match r {
            Some(p) => sp_arr_open(s@, i as int) == Some((p.0@, p.1 as int)) && i <= p.1
                <= s@.len() && wf_json(p.0@),
            None => sp_arr_open(s@, i as int) is None,
        },
    decreases s@.len() - i, 3int,
{
    if i >= s.len() {
        None
    } else if ws_char(s[i]) {
        pv_arr_open(s, i + 1)
    } else if s[i] == ']' {
        let out: Vec<Json> = Vec::new();
        proof {
            assert(vs_of(out@) =~= Seq::<JsonV>::empty());
        }
        Some((Json::Arr(out), i + 1))
    } else {
        match pv_items(s, i) {
            Some((items, j)) => Some((Json::Arr(items), j)),
            None => None,
        }
    }
}

/// Parse a non-empty element list and the closing `]`.
fn pv_items(s: &Vec<char>, i: usize) -> (r: Option<(Vec<Json>, usize)>)
    requires
        i <= s@.len(),
    ensures
        match r {
            Some(p) => sp_items(s@, i as int) == Some((vs_of(p.0@), p.1 as int)) && i < p.1
                <= s@.len() && (forall|m: int|
                0 <= m < vs_of(p.0@).len() ==> wf_json(#[trigger] vs_of(p.0@)[m])),
            None => sp_items(s@, i as int) is None,
        },
    decreases s@.len() - i, 2int,
{
    match pv_value(s, i) {
        Some((v, j)) => match pv_items_after(s, j) {
            Some((rest, e)) => {
                let ghost vv = v@;
                let ghost restv = vs_of(rest@);
                let mut out: Vec<Json> = Vec::new();
                out.push(v);
                let mut rest = rest;
                out.append(&mut rest);
                proof {
                    assert(vs_of(out@) =~= seq![vv] + restv);
                    assert forall|m: int| 0 <= m < vs_of(out@).len() implies wf_json(
                        #[trigger] vs_of(out@)[m],
                    ) by {
                        if m > 0 {
                            assert(vs_of(out@)[m] == restv[m - 1]);
                            assert(wf_json(restv[m - 1]));
                        }
                    }
                }
                Some((out, e))
            },
            None => None,
        },
        None => None,
    }
}

/// After one array element: `]` ends the array, `,` continues it.
fn pv_items_after(s: &Vec<char>, i: usize) -> (r: Option<(Vec<Json>, usize)>)
    requires
        i <= s@.len(),
    ensures
        match r {
            Some(p) => sp_items_after(s@, i as int) == Some((vs_of(p.0@), p.1 as int)) && i
                < p.1 <= s@.len() && (forall|m: int|
                0 <= m < vs_of(p.0@).len() ==> wf_json(#[trigger] vs_of(p.0@)[m])),
            None => sp_items_after(s@, i as int) is None,
        },
    decreases s@.len() - i, 1int,
{
    if i >= s.len() {
        None
    } else if ws_char(s[i]) {
        pv_items_after(s, i + 1)
    } else if s[i] == ']' {
        let out: Vec<Json> = Vec::new();
        proof {
            assert(vs_of(out@) =~= Seq::<JsonV>::empty());
        }
        Some((out, i + 1))
    } else if s[i] == ',' {
        pv_items(s, i + 1)
    } else {
        None
    }
}

/// Parse the remainder of an object whose `{` stands just before `i`.
fn pv_obj_open(s: &Vec<char>, i: usize) -> (r: Option<(Json, usize)>)
    requires
        i <= s@.len(),
    ensures
        match r {
            Some(p) => sp_obj_open(s@, i as int) == Some((p.0@, p.1 as int)) && i <= p.1
                <= s@.len() && wf_json(p.0@),
            None => sp_obj_open(s@, i as int) is None,
        },
    decreases s@.len() - i, 3int,
{
    if i >= s.len() {
        None
    } else if ws_char(s[i]) {
        pv_obj_open(s, i + 1)
    } else if s[i] == '}' {
        let out: Vec<(String, Json)> = Vec::new();
        proof {
            assert(ps_of(out@) =~= Seq::<(Seq<char>, JsonV)>::empty());
        }
        Some((Json::Obj(out), i + 1))
    } else {
        match pv_pairs(s, i) {
            Some((pairs, j)) => Some((Json::Obj(pairs), j)),
            None => None,
        }
    }
}

/// Parse a non-empty member list and the closing `}`.
fn pv_pairs(s: &Vec<char>, i: usize) -> (r: Option<(Vec<(String, Json)>, usize)>)
    requires
        i <= s@.len(),
    ensures
        match r {
            Some(p) => sp_pairs(s@, i as int) == Some((ps_of(p.0@), p.1 as int)) && i < p.1
                <= s@.len() && (forall|m: int|
                0 <= m < ps_of(p.0@).len() ==> wf_json(#[trigger] ps_of(p.0@)[m].1)),
            None => sp_pairs(s@, i as int) is None,
        },
    decreases s@.len() - i, 2int,
{
    if i >= s.len() {
        None
    } else if ws_char(s[i]) {
        pv_pairs(s, i + 1)
    } else if s[i] == '"' {
        match pv_string(s, i + 1) {
            Some((k, j)) => match pv_pair_value(s, j) {
                Some((v, e)) => match pv_pairs_after(s, e) {
                    Some((rest, end)) => {
                        let ghost kv = k@;
                        let ghost vv = v@;
                        let ghost restv = ps_of(rest@);
                        let mut out: Vec<(String, Json)> = Vec::new();
                        out.push((k, v));
                        let mut rest = rest;
                        out.append(&mut rest);
                        proof {
                            assert(ps_of(out@) =~= seq![(kv, vv)] + restv);
                            assert forall|m: int| 0 <= m < ps_of(out@).len() implies wf_json(
                                #[trigger] ps_of(out@)[m].1,
                            ) by {
                                if m > 0 {
                                    assert(ps_of(out@)[m] == restv[m - 1]);
                                    assert(wf_json(restv[m - 1].1));
                                }
                            }
                        }
                        Some((out, end))
                    },
                    None => None,
                },
                None => None,
            },
            None => None,
        }
    } else {
        None
    }
}

/// After a member key: a `:` and the member value.
fn pv_pair_value(s: &Vec<char>, i: usize) -> (r: Option<(Json, usize)>)
    requires
        i <= s@.len(),
    ensures
        match r {
            Some(p) => sp_pair_value(s@, i as int) == Some((p.0@, p.1 as int)) && i < p.1
                <= s@.len() && wf_json(p.0@),
            None => sp_pair_value(s@, i as int) is None,
        },
    decreases s@.len() - i, 1int,
{
    if i >= s.len() {
        None
    } else if ws_char(s[i]) {
        pv_pair_value(s, i + 1)
    } else if s[i] == ':' {
        pv_value(s, i + 1)
    } else {
        None
    }
}

/// After one object member: `}` ends the object, `,` continues it.
fn pv_pairs_after(s: &Vec<char>, i: usize) -> (r: Option<(Vec<(String, Json)>, usize)>)
    requires
        i <= s@.len(),
    ensures
        match r {
            Some(p) => sp_pairs_after(s@, i as int) == Some((ps_of(p.0@), p.1 as int)) && i
                < p.1 <= s@.len() && (forall|m: int|
                0 <= m < ps_of(p.0@).len() ==> wf_json(#[trigger] ps_of(p.0@)[m].1)),
            None => sp_pairs_after(s@, i as int) is None,
        },
    decreases s@.len() - i, 1int,
{
    if i >= s.len() {
        None
    } else if ws_char(s[i]) {
        pv_pairs_after(s, i + 1)
    } else if s[i] == '}' {
        let out: Vec<(String, Json)> = Vec::new();
        proof {
            assert(ps_of(out@) =~= Seq::<(Seq<char>, JsonV)>::empty());
        }
        Some((out, i + 1))
    } else if s[i] == ',' {
        pv_pairs(s, i + 1)
    } else {
        None
    }
}

/// First index at or after `i` holding a non-whitespace character.
fn pv_skip_ws(s: &Vec<char>, i: usize) -> (e: usize)
    requires
        i <= s@.len(),
    ensures
        e as int == skip_ws(s@, i as int),
        i <= e <= s@.len(),
    decreases s@.len() - i,
{
    if i < s.len() && ws_char(s[i]) {
        pv_skip_ws(s, i + 1)
    } else {
        i
    }
}

/// Parse a whole JSON text into a document.
///
/// Succeeds exactly when [`spec_parse`] accepts the text, and then returns
/// the value it denotes, which is always well-formed.
pub fn parse_json(text: &str) -> (r: Result<Json, AppError>)
    ensures
        match r {
            Ok(j) => spec_parse(text@) == Some(j@) && wf_json(j@),
            Err(e) => spec_parse(text@) is None && e is Json,
        },
{
    let s = str_to_chars(text);
    match pv_value(&s, 0) {
        Some((j, e)) => {
            let t = pv_skip_ws(&s, e);
            if t == s.len() {
                Ok(j)
            } else {
                Err(AppError::Json("unexpected trailing characters".to_owned()))
            }
        },
        None => Err(AppError::Json("invalid JSON document".to_owned())),
    }
}

// ---------------------------------------------------------------------------
// Executable serializer
// ---------------------------------------------------------------------------

/// `esc` distributes over concatenation.
proof fn lemma_esc_concat(a: Seq<char>, b: Seq<char>)
    ensures
        esc(a + b) == esc(a) + esc(b),
    decreases a.len(),
{
    if a.len() == 0 {
        assert(a + b =~= b);
        assert(esc(a) + esc(b) =~= esc(b));
    } else {
        assert((a + b)[0] == a[0]);
        assert((a + b).drop_first() =~= a.drop_first() + b);
        lemma_esc_concat(a.drop_first(), b);
        assert(esc(a + b) =~= esc(a) + esc(b));
    }
}

/// Escaping one more character extends the escaped prefix.
proof fn lemma_esc_snoc(t: Seq<char>, k: int)
    requires
        0 <= k < t.len(),
    ensures
        esc(t.subrange(0, k + 1)) == esc(t.subrange(0, k)) + esc_char(t[k]),
{
    let a = t.subrange(0, k);
    let one = seq![t[k]];
    assert(t.subrange(0, k + 1) =~= a + one);
    lemma_esc_concat(a, one);
    assert(one.drop_first() =~= Seq::<char>::empty());
    assert(esc(Seq::<char>::empty()) == Seq::<char>::empty());
    assert(one[0] == t[k]);
    assert(esc(one) =~= esc_char(t[k]));
}

/// Append a string literal (quotes and escapes included) to `out`.
fn ser_string_into(out: &mut String, s: &str)
    ensures
        final(out)@ == old(out)@ + seq!['"'] + esc(s@) + seq!['"'],
{
    out.push('"');
    let n = s.unicode_len();
    let mut k: usize = 0;
    proof {
        assert(esc(s@.subrange(0, 0)) =~= Seq::<char>::empty());
        assert(out@ =~= old(out)@ + seq!['"'] + esc(s@.subrange(0, 0)));
    }
    while k < n
        invariant
            n == s@.len(),
            k <= n,
            out@ == old(out)@ + seq!['"'] + esc(s@.subrange(0, k as int)),
        decreases n - k,
    {
        let c = s.get_char(k);
        if c == '"' {
            out.push('\\');
            out.push('"');
        } else if c == '\\' {
            out.push('\\');
            out.push('\\');
        } else if c == '\n' {
            out.push('\\');
            out.push('n');
        } else if c == '\r' {
            out.push('\\');
            out.push('r');
        } else if c == '\t' {
            out.push('\\');
            out.push('t');
        } else {
            out.push(c);
        }
        proof {
            lemma_esc_snoc(s@, k as int);
            assert(out@ =~= old(out)@ + seq!['"'] + esc(s@.subrange(0, k + 1int)));
        }
        k = k + 1;
    }
    proof {
        assert(s@.subrange(0, n as int) =~= s@);
    }
    out.push('"');
    proof {
        assert(out@ =~= old(out)@ + seq!['"'] + esc(s@) + seq!['"']);
    }
}

/// Serialize a document into `out` (compact form, appended).
fn ser_into(j: &Json, out: &mut String)
    ensures
        final(out)@ == old(out)@ + ser(j@),
    decreases j, 1int,
{
    match j {
        Json::Null => {
            out.append("null");
            proof {
                reveal_strlit("null");
                assert(out@ =~= old(out)@ + ser(j@));
            }
        },
        Json::Bool(b) => {
            if *b {
                out.append("true");
                proof {
                    reveal_strlit("true");
                    assert(out@ =~= old(out)@ + ser(j@));
                }
            } else {
                out.append("false");
                proof {
                    reveal_strlit("false");
                    assert(out@ =~= old(out)@ + ser(j@));
                }
            }
        },
        Json::Num(t) => {
            out.append(t.as_str());
        },
        Json::Str(s) => {
            ser_string_into(out, s.as_str());
            proof {
                assert(out@ =~= old(out)@ + ser(j@));
            }
        },
        Json::Arr(items) => {
            out.push('[');
            ser_items_into(items, 0, out);
            out.push(']');
            proof {
                assert(out@ =~= old(out)@ + ser(j@));
            }
        },
        Json::Obj(pairs) => {
            out.push('{');
            ser_pairs_into(pairs, 0, out);
            out.push('}');
            proof {
                assert(out@ =~= old(out)@ + ser(j@));
            }
        },
    }
}

/// Serialize array elements from `k` on into `out`, comma-separated.
fn ser_items_into(items: &Vec<Json>, k: usize, out: &mut String)
    ensures
        final(out)@ == old(out)@ + ser_items(vs_of(items@), k as int),
    decreases items, items@.len() - k, 0int,
{
    if k >= items.len() {
        proof {
            assert(out@ =~= old(out)@ + ser_items(vs_of(items@), k as int));
        }
    } else {
        ser_into(&items[k], out);
        if k < items.len() - 1 {
            out.push(',');
            ser_items_into(items, k + 1, out);
            proof {
                assert(out@ =~= old(out)@ + ser_items(vs_of(items@), k as int));
            }
        } else {
            proof {
                assert(out@ =~= old(out)@ + ser_items(vs_of(items@), k as int));
            }
        }
    }
}

/// Serialize object members from `k` on into `out`, comma-separated.
fn ser_pairs_into(pairs: &Vec<(String, Json)>, k: usize, out: &mut String)
    ensures
        final(out)@ == old(out)@ + ser_pairs(ps_of(pairs@), k as int),
    decreases pairs, pairs@.len() - k, 0int,
{
    if k >= pairs.len() {
        proof {
            assert(out@ =~= old(out)@ + ser_pairs(ps_of(pairs@), k as int));
        }
    } else {
        ser_string_into(out, pairs[k].0.as_str());
        out.push(':');
        ser_into(&pairs[k].1, out);
        if k < pairs.len() - 1 {
            out.push(',');
            ser_pairs_into(pairs, k + 1, out);
            proof {
                assert(out@ =~= old(out)@ + ser_pairs(ps_of(pairs@), k as int));
            }
        } else {
            proof {
                assert(out@ =~= old(out)@ + ser_pairs(ps_of(pairs@), k as int));
            }
        }
    }
}

/// Serialize a document to its compact canonical text.
pub fn ser_json(j: &Json) -> (r: String)
    ensures
        r@ == ser(j@),
{
    let mut out = String::new();
    ser_into(j, &mut out);
    proof {
        assert(out@ =~= ser(j@));
    }
    out
}

// ---------------------------------------------------------------------------
// Round trip: parsing serialized text yields the value back
// ---------------------------------------------------------------------------

/// Splitting a verbatim occurrence of `a + b` gives occurrences of the parts.
proof fn lemma_has_at_split(s: Seq<char>, i: int, a: Seq<char>, b: Seq<char>)
    requires
        has_at(s, i, a + b),
    ensures
        has_at(s, i, a),
        has_at(s, i + a.len(), b),
{
    let w = a + b;
    assert forall|k: int| 0 <= k < a.len() implies s.subrange(i, i + a.len())[k] == a[k] by {
        assert(s.subrange(i, i + w.len())[k] == s[i + k]);
    }
    assert(s.subrange(i, i + a.len()) =~= a);
    assert forall|k: int| 0 <= k < b.len() implies s.subrange(
        i + a.len(),
        i + a.len() + b.len(),
    )[k] == b[k] by {
        assert(s.subrange(i, i + w.len())[a.len() + k] == s[i + a.len() + k]);
        assert(w[a.len() + k] == b[k]);
    }
    assert(s.subrange(i + a.len(), i + a.len() + b.len()) =~= b);
}

/// Serialized text is never empty and never starts with whitespace or a
/// closing or separating punctuation character.
proof fn lemma_ser_head(v: JsonV)
    requires
        wf_json(v),
    ensures
        ser(v).len() > 0,
        !is_ws(ser(v)[0]),
        ser(v)[0] != ']',
        ser(v)[0] != '}',
        ser(v)[0] != ',',
        ser(v)[0] != ':',
{
    match v {
        JsonV::Num(t) => {
            assert(is_num_start(t[0]));
        },
        _ => {},
    }
}

/// Scanning a number token stops exactly at its end.
proof fn lemma_num_end_range(s: Seq<char>, i: int, e: int)
    requires
        0 <= i <= e <= s.len(),
        forall|k: int| i <= k < e ==> is_num_char(#[trigger] s[k]),
        e == s.len() || !is_num_char(s[e]),
    ensures
        num_end(s, i) == e,
    decreases e - i,
{
    if i < e {
        lemma_num_end_range(s, i + 1, e);
    }
}

/// Only whitespace from `i` on: skipping reaches the end of the text.
proof fn lemma_skip_ws_all(s: Seq<char>, i: int)
    requires
        0 <= i <= s.len(),
        forall|k: int| i <= k < s.len() ==> is_ws(#[trigger] s[k]),
    ensures
        skip_ws(s, i) == s.len(),
    decreases s.len() - i,
{
    if i < s.len() {
        lemma_skip_ws_all(s, i + 1);
    }
}

/// Parsing string contents that stand escaped in the text recovers them.
proof fn lemma_sp_string_esc(cs: Seq<char>, s: Seq<char>, i: int)
    requires
        has_at(s, i, esc(cs) + seq!['"']),
    ensures
        sp_string(s, i) == Some((cs, i + esc(cs).len() + 1)),
    decreases cs.len(),
{
    if cs.len() == 0 {
        assert(esc(cs) + seq!['"'] =~= seq!['"']);
        lemma_has_at_char(s, i, seq!['"'], 0);
    } else {
        let c = cs[0];
        let rest = cs.drop_first();
        let tail = esc(rest) + seq!['"'];
        assert(esc(cs) + seq!['"'] =~= esc_char(c) + tail);
        lemma_has_at_split(s, i, esc_char(c), tail);
        lemma_sp_string_esc(rest, s, i + esc_char(c).len());
        if c == '"' || c == '\\' || c == '\n' || c == '\r' || c == '\t' {
            lemma_has_at_char(s, i, esc_char(c), 0);
            lemma_has_at_char(s, i, esc_char(c), 1);
            assert(s[i] == '\\');
            assert(unesc_char(s[i + 1]) == Some(c));
            assert(seq![c] + rest =~= cs);
        } else {
            lemma_has_at_char(s, i, esc_char(c), 0);
            assert(s[i] == c);
            assert(seq![c] + rest =~= cs);
        }
    }
}

/// Parsing serialized text at its position yields the serialized value.
proof fn lemma_parse_ser(v: JsonV, s: Seq<char>, i: int)
    requires
        wf_json(v),
        has_at(s, i, ser(v)),
        v is Num ==> i + ser(v).len() == s.len() || !is_num_char(s[i + ser(v).len()]),
    ensures
        sp_value(s, i) == Some((v, i + ser(v).len())),
    decreases v, 0int, 0int,
{
    lemma_ser_head(v);
    lemma_has_at_char(s, i, ser(v), 0);
    match v {
        JsonV::Null => {
            assert(s[i] == 'n');
            assert(has_at(s, i, seq!['n', 'u', 'l', 'l']));
            assert(sp_value(s, i) == Some((v, i + 4)));
        },
        JsonV::Bool(b) => {
            if b {
                assert(s[i] == 't');
                assert(has_at(s, i, seq!['t', 'r', 'u', 'e']));
                assert(sp_value(s, i) == Some((v, i + 4)));
            } else {
                assert(s[i] == 'f');
                assert(has_at(s, i, seq!['f', 'a', 'l', 's', 'e']));
                assert(sp_value(s, i) == Some((v, i + 5)));
            }
        },
        JsonV::Num(t) => {
            assert forall|k: int| i <= k < i + t.len() implies is_num_char(#[trigger] s[k]) by {
                lemma_has_at_char(s, i, t, k - i);
            }
            lemma_num_end_range(s, i, i + t.len());
            assert(s.subrange(i, i + t.len()) == t);
        },
        JsonV::Str(cs) => {
            assert(ser(v) =~= seq!['"'] + (esc(cs) + seq!['"']));
            lemma_has_at_split(s, i, seq!['"'], esc(cs) + seq!['"']);
            lemma_sp_string_esc(cs, s, i + 1);
        },
        JsonV::Arr(items) => {
            if items.len() == 0 {
                assert(ser_items(items, 0) =~= Seq::<char>::empty());
                assert(ser(v) =~= seq!['[', ']']);
                lemma_has_at_char(s, i, seq!['[', ']'], 1);
                assert(items =~= Seq::<JsonV>::empty());
                assert(s[i] == '[');
                assert(s[i + 1] == ']');
                assert(i + 2 <= s.len());
                assert(sp_arr_open(s, i + 1) == Some((JsonV::Arr(Seq::<JsonV>::empty()), i + 2)));
                assert(sp_value(s, i) == sp_arr_open(s, i + 1));
                assert(v == JsonV::Arr(Seq::<JsonV>::empty()));
                assert(sp_value(s, i) == Some((v, i + 2)));
            } else {
                let body = ser_items(items, 0);
                assert(ser(v) =~= seq!['['] + (body + seq![']']));
                lemma_has_at_split(s, i, seq!['['], body + seq![']']);
                lemma_has_at_split(s, i + 1, body, seq![']']);
                lemma_has_at_char(s, i + 1 + body.len(), seq![']'], 0);
                lemma_parse_ser_items(items, 0, s, i + 1);
                assert(items.skip(0) =~= items);
                lemma_ser_head(items[0]);
                assert(body[0] == ser(items[0])[0]) by {
                    if items.len() > 1 {
                        assert(body == ser(items[0]) + seq![','] + ser_items(items, 1));
                    }
                }
                lemma_has_at_char(s, i + 1, body, 0);
                assert(sp_value(s, i) == Some((v, i + ser(v).len())));
            }
        },
        JsonV::Obj(pairs) => {
            if pairs.len() == 0 {
                assert(ser_pairs(pairs, 0) =~= Seq::<char>::empty());
                assert(ser(v) =~= seq!['{', '}']);
                lemma_has_at_char(s, i, seq!['{', '}'], 1);
                assert(pairs =~= Seq::<(Seq<char>, JsonV)>::empty());
                assert(s[i] == '{');
                assert(s[i + 1] == '}');
                assert(i + 2 <= s.len());
                assert(sp_obj_open(s, i + 1) == Some(
                    (JsonV::Obj(Seq::<(Seq<char>, JsonV)>::empty()), i + 2),
                ));
                assert(sp_value(s, i) == sp_obj_open(s, i + 1));
                assert(v == JsonV::Obj(Seq::<(Seq<char>, JsonV)>::empty()));
                assert(sp_value(s, i) == Some((v, i + 2)));
            } else {
                let body = ser_pairs(pairs, 0);
                assert(ser(v) =~= seq!['{'] + (body + seq!['}']));
                lemma_has_at_split(s, i, seq!['{'], body + seq!['}']);
                lemma_has_at_split(s, i + 1, body, seq!['}']);
                lemma_has_at_char(s, i + 1 + body.len(), seq!['}'], 0);
                lemma_parse_ser_pairs(pairs, 0, s, i + 1);
                assert(pairs.skip(0) =~= pairs);
                let one = seq!['"'] + esc(pairs[0].0) + seq!['"', ':'] + ser(pairs[0].1);
                assert(body[0] == '"') by {
                    if pairs.len() > 1 {
                        assert(body == one + seq![','] + ser_pairs(pairs, 1));
                    }
                    assert(one[0] == '"');
                }
                lemma_has_at_char(s, i + 1, body, 0);
                assert(sp_value(s, i) == Some((v, i + ser(v).len())));
            }
        },
    }
}

/// Parsing a serialized element list (followed by `]`) yields the elements.
proof fn lemma_parse_ser_items(items: Seq<JsonV>, k: int, s: Seq<char>, i: int)
    requires
        0 <= k < items.len(),
        forall|m: int| 0 <= m < items.len() ==> wf_json(#[trigger] items[m]),
        has_at(s, i, ser_items(items, k)),
        i + ser_items(items, k).len() < s.len(),
        s[i + ser_items(items, k).len()] == ']',
    ensures
        sp_items(s, i) == Some((items.skip(k), i + ser_items(items, k).len() + 1)),
    decreases items, 1int, items.len() - k,
{
    let w = ser_items(items, k);
    let head = ser(items[k]);
    lemma_ser_head(items[k]);
    if k == items.len() - 1 {
        assert(w == head);
        lemma_parse_ser(items[k], s, i);
        let j = i + head.len();
        assert(sp_value(s, i) == Some((items[k], j)));
        assert(s[j] == ']');
        assert(sp_items_after(s, j) == Some((Seq::<JsonV>::empty(), j + 1)));
        assert(seq![items[k]] + Seq::<JsonV>::empty() =~= items.skip(k));
    } else {
        let rest = ser_items(items, k + 1);
        assert(w == head + seq![','] + rest);
        assert(w =~= head + (seq![','] + rest));
        lemma_has_at_split(s, i, head, seq![','] + rest);
        lemma_has_at_split(s, i + head.len(), seq![','], rest);
        lemma_has_at_char(s, i + head.len(), seq![','], 0);
        let j = i + head.len();
        assert(s[j] == ',');
        lemma_parse_ser(items[k], s, i);
        lemma_parse_ser_items(items, k + 1, s, j + 1);
        assert(sp_items_after(s, j) == sp_items(s, j + 1));
        assert(seq![items[k]] + items.skip(k + 1) =~= items.skip(k));
    }
}

/// Parsing a serialized member list (followed by `}`) yields the members.
proof fn lemma_parse_ser_pairs(pairs: Seq<(Seq<char>, JsonV)>, k: int, s: Seq<char>, i: int)
    requires
        0 <= k < pairs.len(),
        forall|m: int| 0 <= m < pairs.len() ==> wf_json(#[trigger] pairs[m].1),
        has_at(s, i, ser_pairs(pairs, k)),
        i + ser_pairs(pairs, k).len() < s.len(),
        s[i + ser_pairs(pairs, k).len()] == '}',
    ensures
        sp_pairs(s, i) == Some((pairs.skip(k), i + ser_pairs(pairs, k).len() + 1)),
    decreases pairs, 1int, pairs.len() - k,
{
    let w = ser_pairs(pairs, k);
    let key = pairs[k].0;
    let val = pairs[k].1;
    let one = seq!['"'] + esc(key) + seq!['"', ':'] + ser(val);
    lemma_ser_head(val);
    // Decompose the member: quote, escaped key, quote, colon, value.
    let kq = esc(key) + seq!['"'];
    assert(one =~= seq!['"'] + (kq + (seq![':'] + ser(val))));
    if k == pairs.len() - 1 {
        assert(w == one);
    } else {
        let rest = ser_pairs(pairs, k + 1);
        assert(w == one + seq![','] + rest);
        assert(w =~= one + (seq![','] + rest));
        lemma_has_at_split(s, i, one, seq![','] + rest);
        lemma_has_at_split(s, i + one.len(), seq![','], rest);
    }
    assert(has_at(s, i, one));
    lemma_has_at_split(s, i, seq!['"'], kq + (seq![':'] + ser(val)));
    lemma_has_at_split(s, i + 1, kq, seq![':'] + ser(val));
    lemma_has_at_split(s, i + 1 + kq.len(), seq![':'], ser(val));
    lemma_has_at_char(s, i, one, 0);
    lemma_sp_string_esc(key, s, i + 1);
    let j0 = i + 1 + kq.len();
    lemma_has_at_char(s, j0, seq![':'], 0);
    assert(s[j0] == ':');
    let j1 = j0 + 1;
    let e = j1 + ser(val).len();
    assert(e == i + one.len());
    if k == pairs.len() - 1 {
        assert(s[e] == '}');
    } else {
        lemma_has_at_char(s, i + one.len(), seq![','], 0);
        assert(s[e] == ',');
    }
    lemma_parse_ser(val, s, j1);
    assert(sp_pair_value(s, j0) == Some((val, e)));
    if k == pairs.len() - 1 {
        assert(s[e] == '}');
        assert(sp_pairs_after(s, e) == Some((Seq::<(Seq<char>, JsonV)>::empty(), e + 1)));
        assert(seq![(key, val)] + Seq::<(Seq<char>, JsonV)>::empty() =~= pairs.skip(k));
        assert(sp_pairs(s, i) == Some((pairs.skip(k), i + w.len() + 1)));
    } else {
        lemma_has_at_char(s, i + one.len(), seq![','], 0);
        assert(s[e] == ',');
        lemma_parse_ser_pairs(pairs, k + 1, s, e + 1);
        assert(sp_pairs_after(s, e) == sp_pairs(s, e + 1));
        assert(seq![(key, val)] + pairs.skip(k + 1) =~= pairs.skip(k));
        assert(sp_pairs(s, i) == Some((pairs.skip(k), i + w.len() + 1)));
    }
}

/// Round trip: a serialized well-formed document, possibly followed by
/// trailing whitespace, parses back to exactly the document serialized.
pub proof fn lemma_json_round_trip(v: JsonV, tail: Seq<char>)
    requires
        wf_json(v),
        forall|k: int| 0 <= k < tail.len() ==> is_ws(#[trigger] tail[k]),
    ensures
        spec_parse(ser(v) + tail) == Some(v),
{
    let s = ser(v) + tail;
    assert(s.subrange(0, ser(v).len() as int) =~= ser(v));
    assert(has_at(s, 0, ser(v)));
    if tail.len() > 0 {
        assert(is_ws(tail[0]));
        assert(s[ser(v).len() as int] == tail[0]);
    }
    lemma_parse_ser(v, s, 0);
    assert forall|k: int| ser(v).len() <= k < s.len() implies is_ws(#[trigger] s[k]) by {
        assert(s[k] == tail[k - ser(v).len()]);
    }
    lemma_skip_ws_all(s, ser(v).len() as int);
}

/// A deep copy of a document.
pub fn clone_json(j: &Json) -> (r: Json)
    ensures
        r@ == j@,
    decreases j, 1int,
{
    match j {
        Json::Null => Json::Null,
        Json::Bool(b) => Json::Bool(*b),
        Json::Num(t) => Json::Num(t.clone()),
        Json::Str(s) => Json::Str(s.clone()),
        Json::Arr(items) => {
            let out = clone_items(items, 0);
            proof {
                assert forall|n: int| 0 <= n < vs_of(out@).len() implies vs_of(out@)[n] == vs_of(
                    items@,
                )[n] by {
                    assert(out@[n]@ == items@[0 + n]@);
                }
                assert(vs_of(out@) =~= vs_of(items@));
            }
            Json::Arr(out)
        },
        Json::Obj(pairs) => {
            let out = clone_pairs(pairs, 0);
            proof {
                assert forall|n: int| 0 <= n < ps_of(out@).len() implies ps_of(out@)[n] == ps_of(
                    pairs@,
                )[n] by {
                    assert(out@[n].0@ == pairs@[0 + n].0@ && out@[n].1@ == pairs@[0 + n].1@);
                }
                assert(ps_of(out@) =~= ps_of(pairs@));
            }
            Json::Obj(out)
        },
    }
}

/// Deep copies of the elements of `items` from `k` on.
fn clone_items(items: &Vec<Json>, k: usize) -> (r: Vec<Json>)
    requires
        k <= items@.len(),
    ensures
        r@.len() == items@.len() - k,
        forall|m: int| 0 <= m < r@.len() ==> #[trigger] r@[m]@ == items@[k + m]@,
    decreases items, items@.len() - k, 0int,
{
    if k >= items.len() {
        Vec::new()
    } else {
        let head = clone_json(&items[k]);
        let ghost headv = head@;
        let mut rest = clone_items(items, k + 1);
        let ghost restv = rest@;
        let mut out: Vec<Json> = Vec::new();
        out.push(head);
        out.append(&mut rest);
        proof {
            assert(out@ =~= seq![out@[0]] + restv);
        }
        out
    }
}

/// Deep copies of the members of `pairs` from `k` on.
fn clone_pairs(pairs: &Vec<(String, Json)>, k: usize) -> (r: Vec<(String, Json)>)
    requires
        k <= pairs@.len(),
    ensures
        r@.len() == pairs@.len() - k,
        forall|m: int| 0 <= m < r@.len() ==> (#[trigger] r@[m]).0@ == pairs@[k + m].0@,
        forall|m: int| 0 <= m < r@.len() ==> (#[trigger] r@[m]).1@ == pairs@[k + m].1@,
    decreases pairs, pairs@.len() - k, 0int,
{
    if k >= pairs.len() {
        Vec::new()
    } else {
        let key = pairs[k].0.clone();
        let head = clone_json(&pairs[k].1);
        let mut rest = clone_pairs(pairs, k + 1);
        let ghost restv = rest@;
        let mut out: Vec<(String, Json)> = Vec::new();
        out.push((key, head));
        out.append(&mut rest);
        proof {
            assert(out@ =~= seq![out@[0]] + restv);
        }
        out
    }
}

} // verus!
