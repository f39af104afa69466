//! Keys, values, arrays, tables and whole documents.

use vstd::prelude::*;
use crate::toml::{
    ParseResult, parse_ws, parse_comment, parse_newline, is_newline, wschar, ws_end, is_wschar,
    comment_spec, newline_at, newline_end,
};
use crate::toml::scalar::{
    Number, NumberM, parse_boolean, parse_datetime, parse_float, alpha, dec_digit, is_alpha,
    is_dec, boolean_spec, datetime_spec, float_spec,
};
use crate::toml::value::{
    Value, ValueM, Table, clone_chars, table_new, make_nested_table, recursive_merge_tables,
    key_view, values_model, nested_table_spec, merge_tables_spec,
};
use crate::toml::string::{
    parse_basic_string, parse_literal_string, parse_string, basic_string_spec, literal_string_spec,
    string_spec,
};
use crate::text::chars_eq;
use crate::markers::{
    ARRAY_COMMENT_MISSING_NEWLINE,
    ARRAY_OF_TABLES_INLINE_ARRAY,
    ARRAY_OPEN_AFTER_WS_EOF,
    ARRAY_OPEN_EOF,
    ARRAY_SEP_EOF_AFTER_COMMA,
    ARRAY_TABLE_EMPTY_NAME,
    ARRAY_TABLE_MISSING_CLOSE_CHAR,
    ARRAY_TABLE_MISSING_CLOSE_EOF,
    ARRAY_TABLE_OPEN_EOF,
    ARRAY_TABLE_REDEFINES_CLOSED_TABLE,
    ARRAY_TABLE_REDEFINES_INLINE_ARRAY,
    ARRAY_TABLE_REDEFINES_INLINE_TABLE,
    ARRAY_TABLE_REDEFINES_STD_TABLE,
    ARRAY_VALUES_EXPECTED_VALUE,
    ARRAY_VALUE_EOF_AFTER_VALUE,
    ARRAY_VALUE_INVALID_SEPARATOR,
    BARE_KEY_INVALID_START,
    DOTTED_KEY_MISSING_SEGMENT,
    DOTTED_KEY_REDEFINES_ARRAY_TABLE,
    DOTTED_KEY_REDEFINES_INLINE_TABLE,
    DOTTED_KEY_REDEFINES_STD_TABLE,
    INLINE_TABLE_CONFLICTING_KEYS,
    INLINE_TABLE_OPEN_EOF,
    INLINE_TABLE_REDEFINED_CLOSED,
    INLINE_TABLE_REDEFINED_EXPLICIT,
    INLINE_TABLE_REDEFINED_INLINE,
    INLINE_TABLE_SEP_EOF,
    INLINE_TABLE_SEP_EXPECTED_COMMA,
    INLINE_TABLE_UNTERMINATED,
    KEY_VALUE_MISSING_EQUALS_CHAR,
    KEY_VALUE_MISSING_EQUALS_EOF,
    KEY_VALUE_MISSING_VALUE_EOF,
    KEY_VALUE_MISSING_VALUE_NOMATCH,
    QUOTED_KEY_MULTILINE_BASIC,
    QUOTED_KEY_MULTILINE_LITERAL,
    STD_TABLE_DUPLICATE,
    STD_TABLE_EMPTY_NAME,
    STD_TABLE_MISSING_CLOSE_CHAR,
    STD_TABLE_MISSING_CLOSE_EOF,
    STD_TABLE_OPEN_EOF,
    STD_TABLE_REDEFINES_ARRAY_TABLE,
    STD_TABLE_REDEFINES_IMPLICIT_TABLE,
    STD_TABLE_REDEFINES_INLINE_TABLE,
    TOML_EXPECTED_NEWLINE_BETWEEN_EXPRESSIONS,
    TOML_TABLE_MERGE_TYPE_MISMATCH,
};


verus! {

// ---------------------------------------------------------------------------
// Parser context
// ---------------------------------------------------------------------------

/// A dotted key or table name: its segments.
pub type Key = Vec<Vec<char>>;

/// What the parser remembers of the tables defined so far.
#[derive(Debug)]
pub struct ParserContext {
    /// The table that key/value pairs currently go into.
    pub current_table_path: Key,
    /// Tables defined by a `[table]` header.
    pub explicit_tables: Vec<Key>,
    /// Tables defined implicitly by dotted keys (`x` in `x.y = 1`).
    pub closed_tables: Vec<Key>,
    /// Tables given as inline tables.
    pub inline_tables: Vec<Key>,
    /// Keys given an inline array.
    pub inline_arrays: Vec<Key>,
    /// Tables defined by an `[[array-of-tables]]` header.
    pub array_of_tables: Vec<Key>,
}

/// The model of a [`ParserContext`]: each key as the sequence of its
/// segments.
pub ghost struct CtxM {
    pub current: Seq<Seq<char>>,
    pub explicit: Seq<Seq<Seq<char>>>,
    pub closed: Seq<Seq<Seq<char>>>,
    pub inline_tables: Seq<Seq<Seq<char>>>,
    pub inline_arrays: Seq<Seq<Seq<char>>>,
    pub array_of_tables: Seq<Seq<Seq<char>>>,
}

/// The views of a list of keys.
pub open spec fn names_view(n: Seq<Key>) -> Seq<Seq<Seq<char>>> {
    n.map_values(|k: Key| key_view(k@))
}

impl View for ParserContext {
    type V = CtxM;

    open spec fn view(&self) -> CtxM {
        CtxM {
            current: key_view(self.current_table_path@),
            explicit: names_view(self.explicit_tables@),
            closed: names_view(self.closed_tables@),
            inline_tables: names_view(self.inline_tables@),
            inline_arrays: names_view(self.inline_arrays@),
            array_of_tables: names_view(self.array_of_tables@),
        }
    }
}

/// The context at the start of a document: no table defined, key/value
/// pairs go into the root table.
pub open spec fn initial_ctx() -> CtxM {
    CtxM {
        current: Seq::empty(),
        explicit: Seq::empty(),
        closed: Seq::empty(),
        inline_tables: Seq::empty(),
        inline_arrays: Seq::empty(),
        array_of_tables: Seq::empty(),
    }
}

/// The context at the start of a document.
pub fn default_parser_context() -> (c: ParserContext)
    ensures
        c@ == initial_ctx(),
{
    let c = ParserContext {
        current_table_path: Vec::new(),
        explicit_tables: Vec::new(),
        closed_tables: Vec::new(),
        inline_tables: Vec::new(),
        inline_arrays: Vec::new(),
        array_of_tables: Vec::new(),
    };
    proof {
        assert(key_view(c.current_table_path@) =~= Seq::empty());
        assert(names_view(c.explicit_tables@) =~= Seq::empty());
        assert(names_view(c.closed_tables@) =~= Seq::empty());
        assert(names_view(c.inline_tables@) =~= Seq::empty());
        assert(names_view(c.inline_arrays@) =~= Seq::empty());
        assert(names_view(c.array_of_tables@) =~= Seq::empty());
        assert(c@ == initial_ctx());
    }
    c
}

/// Equal keys.
fn key_eq(a: &Key, b: &Key) -> (r: bool)
    ensures
        r == (key_view(a@) == key_view(b@)),
{
    if a.len() != b.len() {
        proof {
            assert(key_view(a@).len() != key_view(b@).len());
        }
        return false;
    }
    let mut i: usize = 0;
    while i < a.len()
        invariant
            i <= a.len(),
            a.len() == b.len(),
            forall|m: int| 0 <= m < i ==> #[trigger] a@[m]@ == b@[m]@,
        decreases a.len() - i,
    {
        if !chars_eq(&a[i], &b[i]) {
            proof {
                assert(key_view(a@)[i as int] != key_view(b@)[i as int]);
            }
            return false;
        }
        i = i + 1;
    }
    proof {
        assert(key_view(a@) =~= key_view(b@));
    }
    true
}

/// Whether `names` holds `k`.
fn names_contain(names: &Vec<Key>, k: &Key) -> (r: bool)
    ensures
        r == names_view(names@).contains(key_view(k@)),
{
    let mut i: usize = 0;
    while i < names.len()
        invariant
            i <= names.len(),
            forall|m: int| 0 <= m < i ==> #[trigger] key_view(names@[m]@) != key_view(k@),
        decreases names.len() - i,
    {
        if key_eq(&names[i], k) {
            proof {
                assert(names_view(names@)[i as int] == key_view(k@));
            }
            return true;
        }
        i = i + 1;
    }
    proof {
        if names_view(names@).contains(key_view(k@)) {
            let m = choose|m: int| 0 <= m < names_view(names@).len() && names_view(names@)[m] == key_view(k@);
            assert(key_view(names@[m]@) == key_view(k@));
        }
    }
    false
}

/// Some key of `ks` is held by `names`.
pub open spec fn names_meet_spec(names: Seq<Seq<Seq<char>>>, ks: Seq<Seq<Seq<char>>>) -> bool {
    exists|i: int| 0 <= i < ks.len() && names.contains(#[trigger] ks[i])
}

/// Whether `names` holds one of `ks`.
fn names_meet(names: &Vec<Key>, ks: &Vec<Key>) -> (r: bool)
    ensures
        r == names_meet_spec(names_view(names@), names_view(ks@)),
{
    let mut i: usize = 0;
    while i < ks.len()
        invariant
            i <= ks.len(),
            forall|m: int| 0 <= m < i ==> !names_view(names@).contains(#[trigger] names_view(ks@)[m]),
        decreases ks.len() - i,
    {
        if names_contain(names, &ks[i]) {
            proof {
                assert(names_view(names@).contains(names_view(ks@)[i as int]));
            }
            return true;
        }
        i = i + 1;
    }
    false
}

/// A copy of the first `n` segments of `k`.
fn key_prefix(k: &Key, n: usize) -> (r: Key)
    requires
        n <= k.len(),
    ensures
        key_view(r@) == key_view(k@).subrange(0, n as int),
{
    let mut out: Key = Vec::new();
    let mut i: usize = 0;
    while i < n
        invariant
            i <= n <= k.len(),
            key_view(out@) == key_view(k@).subrange(0, i as int),
        decreases n - i,
    {
        let c = clone_chars(&k[i]);
        let ghost before = out@;
        out.push(c);
        proof {
            assert(key_view(out@) =~= key_view(before).push(k@[i as int]@));
            assert(key_view(k@).subrange(0, i + 1) =~= key_view(k@).subrange(0, i as int).push(
                k@[i as int]@,
            ));
        }
        i = i + 1;
    }
    out
}

/// A copy of a key.
fn clone_key(k: &Key) -> (r: Key)
    ensures
        key_view(r@) == key_view(k@),
{
    let r = key_prefix(k, k.len());
    proof {
        assert(key_view(k@).subrange(0, k@.len() as int) =~= key_view(k@));
    }
    r
}

/// The segments of `a` followed by those of `b`.
fn key_concat(a: &Key, b: &Key) -> (r: Key)
    ensures
        key_view(r@) == key_view(a@) + key_view(b@),
{
    let mut out = clone_key(a);
    let mut i: usize = 0;
    while i < b.len()
        invariant
            i <= b.len(),
            key_view(out@) == key_view(a@) + key_view(b@).subrange(0, i as int),
        decreases b.len() - i,
    {
        let c = clone_chars(&b[i]);
        let ghost before = out@;
        out.push(c);
        proof {
            assert(key_view(out@) =~= key_view(before).push(b@[i as int]@));
            assert(key_view(a@) + key_view(b@).subrange(0, i + 1) =~= (key_view(a@) + key_view(
                b@,
            ).subrange(0, i as int)).push(b@[i as int]@));
        }
        i = i + 1;
    }
    proof {
        assert(key_view(b@).subrange(0, b@.len() as int) =~= key_view(b@));
    }
    out
}

/// A copy of a list of keys.
fn clone_names(n: &Vec<Key>) -> (r: Vec<Key>)
    ensures
        names_view(r@) == names_view(n@),
{
    let mut out: Vec<Key> = Vec::new();
    let mut i: usize = 0;
    while i < n.len()
        invariant
            i <= n.len(),
            names_view(out@) == names_view(n@).subrange(0, i as int),
        decreases n.len() - i,
    {
        let k = clone_key(&n[i]);
        let ghost before = out@;
        out.push(k);
        proof {
            assert(names_view(out@) =~= names_view(before).push(key_view(n@[i as int]@)));
            assert(names_view(n@).subrange(0, i + 1) =~= names_view(n@).subrange(0, i as int).push(
                key_view(n@[i as int]@),
            ));
        }
        i = i + 1;
    }
    proof {
        assert(names_view(n@).subrange(0, n@.len() as int) =~= names_view(n@));
    }
    out
}

/// A copy of a parser context.
pub fn clone_context(c: &ParserContext) -> (r: ParserContext)
    ensures
        r@ == c@,
{
    ParserContext {
        current_table_path: clone_key(&c.current_table_path),
        explicit_tables: clone_names(&c.explicit_tables),
        closed_tables: clone_names(&c.closed_tables),
        inline_tables: clone_names(&c.inline_tables),
        inline_arrays: clone_names(&c.inline_arrays),
        array_of_tables: clone_names(&c.array_of_tables),
    }
}

/// Append `k` to a list of keys.
fn push_name(names: &mut Vec<Key>, k: Key)
    ensures
        names_view(final(names)@) == names_view(old(names)@).push(key_view(k@)),
{
    let ghost kv = key_view(k@);
    names.push(k);
    proof {
        assert(names_view(names@) =~= names_view(old(names)@).push(kv));
    }
}

/// The tables that a dotted key defines implicitly below `path`: `path`
/// extended by each proper prefix of `key`, longest first.
pub open spec fn implicit_spec(path: Seq<Seq<char>>, key: Seq<Seq<char>>) -> Seq<Seq<Seq<char>>> {
    if key.len() <= 1 {
        Seq::empty()
    } else {
        Seq::new((key.len() - 1) as nat, |i: int| path + key.subrange(0, key.len() - 1 - i))
    }
}

/// The tables that a dotted key defines implicitly below `path`.
fn implicit_tables(path: &Key, key: &Key) -> (r: Vec<Key>)
    ensures
        names_view(r@) == implicit_spec(key_view(path@), key_view(key@)),
{
    let mut out: Vec<Key> = Vec::new();
    if key.len() <= 1 {
        proof {
            assert(names_view(out@) =~= Seq::empty());
        }
        return out;
    }
    let ghost pv = key_view(path@);
    let ghost kv = key_view(key@);
    let mut n: usize = key.len() - 1;
    while n > 0
        invariant
            n < key.len(),
            key.len() >= 2,
            pv == key_view(path@),
            kv == key_view(key@),
            names_view(out@) == implicit_spec(pv, kv).subrange(0, key.len() - 1 - n),
        decreases n,
    {
        let prefix = key_prefix(key, n);
        let k = key_concat(path, &prefix);
        push_name(&mut out, k);
        proof {
            assert(implicit_spec(pv, kv).subrange(0, key.len() - 1 - (n - 1)) =~= implicit_spec(
                pv,
                kv,
            ).subrange(0, key.len() - 1 - n).push(pv + kv.subrange(0, n as int)));
        }
        n = n - 1;
    }
    proof {
        assert(implicit_spec(pv, kv).subrange(0, key.len() - 1) =~= implicit_spec(pv, kv));
    }
    out
}

/// The table name and each of its proper prefixes, longest first.
pub open spec fn prefixes_spec(name: Seq<Seq<char>>) -> Seq<Seq<Seq<char>>> {
    Seq::new(name.len(), |i: int| name.subrange(0, name.len() - i))
}

/// The table name and each of its proper prefixes.
fn name_prefixes(name: &Key) -> (r: Vec<Key>)
    ensures
        names_view(r@) == prefixes_spec(key_view(name@)),
{
    let ghost nv = key_view(name@);
    let mut out: Vec<Key> = Vec::new();
    let mut n = name.len();
    while n > 0
        invariant
            n <= name.len(),
            nv == key_view(name@),
            names_view(out@) == prefixes_spec(nv).subrange(0, name.len() - n),
        decreases n,
    {
        let k = key_prefix(name, n);
        push_name(&mut out, k);
        proof {
            assert(prefixes_spec(nv).subrange(0, name.len() - (n - 1)) =~= prefixes_spec(
                nv,
            ).subrange(0, name.len() - n).push(nv.subrange(0, n as int)));
        }
        n = n - 1;
    }
    proof {
        assert(prefixes_spec(nv).subrange(0, name.len() as int) =~= prefixes_spec(nv));
    }
    out
}

// ---------------------------------------------------------------------------
// Keys
// ---------------------------------------------------------------------------

/// `unquoted-key = 1*( ALPHA / DIGIT / %x2D / %x5F )`: a character of it.
pub open spec fn is_unquoted_key_char(c: char) -> bool {
    is_alpha(c) || is_dec(c) || c == '-' || c == '_'
}

/// Executable `is_unquoted_key_char`.
fn unquoted_key_char(c: char) -> (r: bool)
    ensures
        r == is_unquoted_key_char(c),
{
    alpha(c) || dec_digit(c) || c == '-' || c == '_'
}

/// The end of the run of unquoted-key characters from `q`.
pub open spec fn unquoted_end(s: Seq<char>, q: int) -> int
    decreases s.len() - q,
{
    if 0 <= q < s.len() && is_unquoted_key_char(s[q]) {
        unquoted_end(s, q + 1)
    } else {
        q
    }
}

proof fn lemma_unquoted_end(s: Seq<char>, q: int)
    requires
        0 <= q <= s.len(),
    ensures
        q <= unquoted_end(s, q) <= s.len(),
    decreases s.len() - q,
{
    if q < s.len() && is_unquoted_key_char(s[q]) {
        lemma_unquoted_end(s, q + 1);
    }
}

/// An unquoted key at `p`; any other first character is
/// `bare_key_invalid_start`.
pub open spec fn unquoted_key_spec(s: Seq<char>, p: int) -> ParseResult<Seq<char>> {
    if p < 0 || p >= s.len() {
        ParseResult::NoMatch
    } else if !is_unquoted_key_char(s[p]) {
        ParseResult::Error(BARE_KEY_INVALID_START)
    } else {
        ParseResult::Value(s.subrange(p, unquoted_end(s, p + 1)), unquoted_end(s, p + 1) as usize)
    }
}

/// Parse an unquoted key.
fn parse_unquoted_key(s: &Vec<char>, p: usize) -> (r: ParseResult<Vec<char>>)
    requires
        p <= s.len(),
    ensures
        r@ == unquoted_key_spec(s@, p as int),
        r.sound(p as int, s.len() as int),
        r.advances(p as int),
{
    if p >= s.len() {
        return ParseResult::NoMatch;
    }
    if !unquoted_key_char(s[p]) {
        return ParseResult::Error(BARE_KEY_INVALID_START);
    }
    let mut q = p + 1;
    while q < s.len() && unquoted_key_char(s[q])
        invariant
            p < q <= s.len(),
            unquoted_end(s@, p + 1) == unquoted_end(s@, q as int),
        decreases s.len() - q,
    {
        q = q + 1;
    }
    ParseResult::Value(crate::text::copy_range(s, p, q), q)
}

/// `quoted-key = basic-string / literal-string`; a multi-line string cannot
/// be a key.
pub open spec fn quoted_key_spec(s: Seq<char>, p: int) -> ParseResult<Seq<char>> {
    if p < 0 || p >= s.len() {
        ParseResult::NoMatch
    } else {
        let c = s[p];
        if c == '"' || c == '\'' {
            if s.len() - p >= 3 && s[p + 1] == c && s[p + 2] == c {
                ParseResult::Error(
                    if c == '"' {
                        QUOTED_KEY_MULTILINE_BASIC
                    } else {
                        QUOTED_KEY_MULTILINE_LITERAL
                    },
                )
            } else if c == '"' {
                basic_string_spec(s, p)
            } else {
                literal_string_spec(s, p)
            }
        } else {
            ParseResult::NoMatch
        }
    }
}

/// Parse a quoted key.
fn parse_quoted_key(s: &Vec<char>, p: usize) -> (r: ParseResult<Vec<char>>)
    requires
        p <= s.len(),
    ensures
        r@ == quoted_key_spec(s@, p as int),
        r.sound(p as int, s.len() as int),
        r.advances(p as int),
{
    if p >= s.len() {
        return ParseResult::NoMatch;
    }
    let c = s[p];
    if c == '"' || c == '\'' {
        if s.len() - p >= 3 && s[p + 1] == c && s[p + 2] == c {
            return ParseResult::Error(
                if c == '"' {
                    QUOTED_KEY_MULTILINE_BASIC
                } else {
                    QUOTED_KEY_MULTILINE_LITERAL
                },
            );
        }
        if c == '"' {
            parse_basic_string(s, p)
        } else {
            parse_literal_string(s, p)
        }
    } else {
        ParseResult::NoMatch
    }
}

/// `simple-key = quoted-key / unquoted-key`.
pub open spec fn simple_key_spec(s: Seq<char>, p: int) -> ParseResult<Seq<char>> {
    match quoted_key_spec(s, p) {
        ParseResult::NoMatch => unquoted_key_spec(s, p),
        other => other,
    }
}

/// Parse a simple key.
fn parse_simple_key(s: &Vec<char>, p: usize) -> (r: ParseResult<Vec<char>>)
    requires
        p <= s.len(),
    ensures
        r@ == simple_key_spec(s@, p as int),
        r.sound(p as int, s.len() as int),
        r.advances(p as int),
{
    match parse_quoted_key(s, p) {
        ParseResult::NoMatch => parse_unquoted_key(s, p),
        other => other,
    }
}

/// The segments after the first of a dotted key, from `q` on (`acc` holds
/// the segments so far): each is `dot-sep simple-key`, where
/// `dot-sep = ws "." ws`.
pub open spec fn dotted_rest_spec(s: Seq<char>, q: int, acc: Seq<Seq<char>>) -> ParseResult<
    Seq<Seq<char>>,
>
    decreases s.len() - q,
{
    let c = ws_end(s, q);
    if c >= s.len() || s[c] != '.' {
        ParseResult::Value(acc, q as usize)
    } else {
        match simple_key_spec(s, ws_end(s, c + 1)) {
            ParseResult::Value(k, e) => if q < e <= s.len() {
                dotted_rest_spec(s, e as int, acc.push(k))
            } else {
                ParseResult::NoMatch
            },
            ParseResult::Error(m) => ParseResult::Error(m),
            ParseResult::NoMatch => ParseResult::Error(DOTTED_KEY_MISSING_SEGMENT),
        }
    }
}

/// `key = simple-key / dotted-key`: its segments. A key of one segment ends
/// after the white space that follows it.
pub open spec fn key_spec(s: Seq<char>, p: int) -> ParseResult<Seq<Seq<char>>> {
    match simple_key_spec(s, p) {
        ParseResult::Value(k, a) => {
            let b = ws_end(s, a as int);
            if b >= s.len() || s[b] != '.' {
                ParseResult::Value(seq![k], b as usize)
            } else {
                dotted_rest_spec(s, b, seq![k])
            }
        },
        ParseResult::Error(e) => ParseResult::Error(e),
        ParseResult::NoMatch => ParseResult::NoMatch,
    }
}

/// A parse result of a key, its segments viewed.
pub open spec fn key_result(r: ParseResult<Key>) -> ParseResult<Seq<Seq<char>>> {
    match r {
        ParseResult::Value(k, q) => ParseResult::Value(key_view(k@), q),
        ParseResult::Error(m) => ParseResult::Error(m),
        ParseResult::NoMatch => ParseResult::NoMatch,
    }
}

/// Parse a key: its segments.
pub fn parse_key(s: &Vec<char>, p: usize) -> (r: ParseResult<Key>)
    requires
        p <= s.len(),
    ensures
        key_result(r) == key_spec(s@, p as int),
        r.sound(p as int, s.len() as int),
        r.advances(p as int),
{
    let (first, a) = match parse_simple_key(s, p) {
        ParseResult::Value(k, a) => (k, a),
        ParseResult::Error(e) => return ParseResult::Error(e),
        ParseResult::NoMatch => return ParseResult::NoMatch,
    };
    let mut key: Key = Vec::new();
    key.push(first);
    proof {
        assert(key_view(key@) =~= seq![first@]);
    }
    let b = parse_ws(s, a);
    if b >= s.len() || s[b] != '.' {
        return ParseResult::Value(key, b);
    }
    let mut q = b;
    loop
        invariant
            p < q <= s.len(),
            key_spec(s@, p as int) == dotted_rest_spec(s@, q as int, key_view(key@)),
        decreases s.len() - q,
    {
        let c = parse_ws(s, q);
        if c >= s.len() || s[c] != '.' {
            return ParseResult::Value(key, q);
        }
        let d = parse_ws(s, c + 1);
        match parse_simple_key(s, d) {
            ParseResult::Value(k, e) => {
                let ghost kv = k@;
                let ghost before = key@;
                key.push(k);
                proof {
                    assert(key_view(key@) =~= key_view(before).push(kv));
                }
                q = e;
            },
            ParseResult::Error(m) => return ParseResult::Error(m),
            ParseResult::NoMatch => return ParseResult::Error(DOTTED_KEY_MISSING_SEGMENT),
        }
    }
}

/// `keyval-sep = ws "=" ws`.
pub open spec fn keyval_sep_spec(s: Seq<char>, p: int) -> ParseResult<()> {
    let a = ws_end(s, p);
    if a >= s.len() {
        ParseResult::Error(KEY_VALUE_MISSING_EQUALS_EOF)
    } else if s[a] == '=' {
        ParseResult::Value((), ws_end(s, a + 1) as usize)
    } else {
        ParseResult::Error(KEY_VALUE_MISSING_EQUALS_CHAR)
    }
}

/// Parse a key/value separator.
fn parse_keyval_sep(s: &Vec<char>, p: usize) -> (r: ParseResult<()>)
    requires
        p <= s.len(),
    ensures
        r == keyval_sep_spec(s@, p as int),
        r.sound(p as int, s.len() as int),
        r matches ParseResult::Value(_, b) ==> p < b,
{
    let a = parse_ws(s, p);
    if a >= s.len() {
        ParseResult::Error(KEY_VALUE_MISSING_EQUALS_EOF)
    } else if s[a] == '=' {
        ParseResult::Value((), parse_ws(s, a + 1))
    } else {
        ParseResult::Error(KEY_VALUE_MISSING_EQUALS_CHAR)
    }
}

// ---------------------------------------------------------------------------
// Values
// ---------------------------------------------------------------------------

/// A key/value pair.
#[derive(Debug)]
pub struct KeyVal {
    pub key: Key,
    pub val: Value,
}

/// `ws-comment-newline = *( wschar / [ comment ] newline )` from `q`: the
/// position after it; a comment must end at a newline.
pub open spec fn wcn_spec(s: Seq<char>, q: int) -> ParseResult<()>
    decreases s.len() - q,
{
    if q < 0 || q >= s.len() {
        ParseResult::Value((), q as usize)
    } else if is_wschar(s[q]) {
        wcn_spec(s, q + 1)
    } else {
        match comment_spec(s, q) {
            ParseResult::Error(e) => ParseResult::Error(e),
            ParseResult::Value(_, c) => if newline_at(s, c as int) && q < newline_end(
                s,
                c as int,
            ) <= s.len() {
                wcn_spec(s, newline_end(s, c as int))
            } else {
                ParseResult::Error(ARRAY_COMMENT_MISSING_NEWLINE)
            },
            ParseResult::NoMatch => if newline_at(s, q) && newline_end(s, q) <= s.len() {
                wcn_spec(s, newline_end(s, q))
            } else {
                ParseResult::Value((), q as usize)
            },
        }
    }
}

/// Parse `ws-comment-newline`.
fn parse_ws_comment_newline(s: &Vec<char>, p: usize) -> (r: ParseResult<()>)
    requires
        p <= s.len(),
    ensures
        r == wcn_spec(s@, p as int),
        r.sound(p as int, s.len() as int),
        r is Value || r is Error,
{
    let mut q = p;
    let mut more = true;
    while more && q < s.len()
        invariant
            p <= q <= s.len(),
            more ==> wcn_spec(s@, p as int) == wcn_spec(s@, q as int),
            !more ==> wcn_spec(s@, p as int) == ParseResult::Value((), q),
        decreases s.len() - q, (if more { 1int } else { 0int }),
    {
        if wschar(s[q]) {
            q = q + 1;
        } else {
            match parse_comment(s, q) {
                ParseResult::Error(e) => return ParseResult::Error(e),
                ParseResult::Value(_, c) => match parse_newline(s, c) {
                    Some(n) => {
                        q = n;
                    },
                    None => return ParseResult::Error(ARRAY_COMMENT_MISSING_NEWLINE),
                },
                ParseResult::NoMatch => match parse_newline(s, q) {
                    Some(n) => {
                        q = n;
                    },
                    None => {
                        more = false;
                    },
                },
            }
        }
    }
    ParseResult::Value((), q)
}

impl View for KeyVal {
    type V = (Seq<Seq<char>>, ValueM);

    open spec fn view(&self) -> (Seq<Seq<char>>, ValueM) {
        (key_view(self.key@), self.val@)
    }
}

/// The context with `k` noted as given an inline array.
pub open spec fn with_inline_array(c: CtxM, k: Seq<Seq<char>>) -> CtxM {
    CtxM { inline_arrays: c.inline_arrays.push(k), ..c }
}

/// The context with `k` noted as given an inline table.
pub open spec fn with_inline_table(c: CtxM, k: Seq<Seq<char>>) -> CtxM {
    CtxM { inline_tables: c.inline_tables.push(k), ..c }
}

/// `string / date-time / float / integer` at `p`, tried in this order.
#[verifier::opaque]
pub open spec fn scalar_value_spec(s: Seq<char>, p: int) -> ParseResult<ValueM> {
    match string_spec(s, p) {
        ParseResult::Value(t, q) => ParseResult::Value(ValueM::String(t), q),
        ParseResult::Error(e) => ParseResult::Error(e),
        ParseResult::NoMatch => match datetime_spec(s, p) {
            ParseResult::Value(d, q) => ParseResult::Value(ValueM::DateTime(d), q),
            ParseResult::Error(e) => ParseResult::Error(e),
            ParseResult::NoMatch => match float_spec(s, p) {
                ParseResult::Value(NumberM::Float(f), q) => ParseResult::Value(ValueM::Float(f), q),
                ParseResult::Value(NumberM::Integer(i), q) => ParseResult::Value(
                    ValueM::Integer(i),
                    q,
                ),
                ParseResult::Error(e) => ParseResult::Error(e),
                ParseResult::NoMatch => ParseResult::NoMatch,
            },
        },
    }
}

/// `val = boolean / array / inline-table / string / date-time / float /
/// integer`, tried in this order, for the key `key`: the value and the
/// context after it. The context is as it was when no value matches.
pub open spec fn value_spec(key: Seq<Seq<char>>, s: Seq<char>, p: int, ctx: CtxM) -> (
    ParseResult<ValueM>,
    CtxM,
)
    decreases s.len() - p, 2nat,
{
    match boolean_spec(s, p) {
        ParseResult::Value(b, q) => (ParseResult::Value(ValueM::Boolean(b), q), ctx),
        ParseResult::Error(e) => (ParseResult::Error(e), ctx),
        ParseResult::NoMatch => match array_spec(key, s, p, ctx) {
            (ParseResult::Value(a, q), c1) => (ParseResult::Value(ValueM::Array(a), q), c1),
            (ParseResult::Error(e), c1) => (ParseResult::Error(e), c1),
            (ParseResult::NoMatch, _) => match inline_spec(key, s, p, ctx) {
                (ParseResult::Value(t, q), c1) => (ParseResult::Value(ValueM::Table(t), q), c1),
                (ParseResult::Error(e), c1) => (ParseResult::Error(e), c1),
                (ParseResult::NoMatch, _) => (scalar_value_spec(s, p), ctx),
            },
        },
    }
}

/// `array = array-open [ array-values ] ws-comment-newline array-close`.
/// An array may not stand where an array of tables was defined.
pub open spec fn array_spec(key: Seq<Seq<char>>, s: Seq<char>, p: int, ctx: CtxM) -> (
    ParseResult<Seq<ValueM>>,
    CtxM,
)
    decreases s.len() - p, 1nat,
{
    if p < 0 || p >= s.len() || s[p] != '[' {
        (ParseResult::NoMatch, ctx)
    } else if p + 1 >= s.len() {
        (ParseResult::Error(ARRAY_OPEN_EOF), ctx)
    } else {
        match wcn_spec(s, p + 1) {
            ParseResult::Value(_, b) => {
                let nk = ctx.current + key;
                if ctx.array_of_tables.contains(nk) {
                    (ParseResult::Error(ARRAY_OF_TABLES_INLINE_ARRAY), ctx)
                } else {
                    let c1 = with_inline_array(ctx, nk);
                    if b >= s.len() {
                        (ParseResult::Error(ARRAY_OPEN_AFTER_WS_EOF), c1)
                    } else if s[b as int] == ']' {
                        (ParseResult::Value(Seq::empty(), (b + 1) as usize), c1)
                    } else if p < b {
                        array_items_spec(key, s, b as int, c1, Seq::empty())
                    } else {
                        (ParseResult::NoMatch, ctx)
                    }
                }
            },
            ParseResult::Error(e) => (ParseResult::Error(e), ctx),
            ParseResult::NoMatch => (ParseResult::NoMatch, ctx),
        }
    }
}

/// `array-values` from `q`, after the values `acc`, up to and with the
/// closing bracket.
pub open spec fn array_items_spec(
    key: Seq<Seq<char>>,
    s: Seq<char>,
    q: int,
    ctx: CtxM,
    acc: Seq<ValueM>,
) -> (ParseResult<Seq<ValueM>>, CtxM)
    decreases s.len() - q, 3nat,
{
    match value_spec(key, s, q, ctx) {
        (ParseResult::Value(v, c), c1) => {
            let acc1 = acc.push(v);
            match wcn_spec(s, c as int) {
                ParseResult::Value(_, d) => if d >= s.len() {
                    (ParseResult::Error(ARRAY_VALUE_EOF_AFTER_VALUE), c1)
                } else if s[d as int] == ',' {
                    match wcn_spec(s, d + 1) {
                        ParseResult::Value(_, e) => if e >= s.len() {
                            (ParseResult::Error(ARRAY_SEP_EOF_AFTER_COMMA), c1)
                        } else if s[e as int] == ']' {
                            (ParseResult::Value(acc1, (e + 1) as usize), c1)
                        } else if q < e {
                            array_items_spec(key, s, e as int, c1, acc1)
                        } else {
                            (ParseResult::NoMatch, c1)
                        },
                        ParseResult::Error(m) => (ParseResult::Error(m), c1),
                        ParseResult::NoMatch => (ParseResult::NoMatch, c1),
                    }
                } else if s[d as int] == ']' {
                    (ParseResult::Value(acc1, (d + 1) as usize), c1)
                } else {
                    (ParseResult::Error(ARRAY_VALUE_INVALID_SEPARATOR), c1)
                },
                ParseResult::Error(e) => (ParseResult::Error(e), c1),
                ParseResult::NoMatch => (ParseResult::NoMatch, c1),
            }
        },
        (ParseResult::Error(e), c1) => (ParseResult::Error(e), c1),
        (ParseResult::NoMatch, c1) => (ParseResult::Error(ARRAY_VALUES_EXPECTED_VALUE), c1),
    }
}

/// `inline-table = inline-table-open [ inline-table-keyvals ]
/// ws-comment-newline inline-table-close`. An inline table may not redefine
/// a table defined before. Its pairs merge into one table, each into the
/// merge of the pairs after it.
pub open spec fn inline_spec(key: Seq<Seq<char>>, s: Seq<char>, p: int, ctx: CtxM) -> (
    ParseResult<Seq<(Seq<char>, ValueM)>>,
    CtxM,
)
    decreases s.len() - p, 1nat,
{
    let nk = ctx.current + key;
    if ctx.inline_tables.contains(nk) {
        (ParseResult::Error(INLINE_TABLE_REDEFINED_INLINE), ctx)
    } else if ctx.closed.contains(nk) {
        (ParseResult::Error(INLINE_TABLE_REDEFINED_CLOSED), ctx)
    } else if ctx.explicit.contains(nk) {
        (ParseResult::Error(INLINE_TABLE_REDEFINED_EXPLICIT), ctx)
    } else if p < 0 || p >= s.len() || s[p] != '{' {
        (ParseResult::NoMatch, ctx)
    } else {
        match wcn_spec(s, p + 1) {
            ParseResult::Value(_, a) => if a >= s.len() {
                (ParseResult::Error(INLINE_TABLE_OPEN_EOF), ctx)
            } else {
                match inline_close_spec(s, a as int) {
                    ParseResult::Value(_, c) => (
                        ParseResult::Value(Seq::empty(), c),
                        with_inline_table(ctx, nk),
                    ),
                    ParseResult::Error(e) => (ParseResult::Error(e), ctx),
                    ParseResult::NoMatch => if p < a {
                        match inline_items_spec(s, a as int, ctx, Seq::empty()) {
                            (ParseResult::Value(parts, end), c1) => match merge_parts_spec(parts) {
                                Some(m) => (ParseResult::Value(m, end), with_inline_table(c1, nk)),
                                None => (ParseResult::Error(INLINE_TABLE_CONFLICTING_KEYS), c1),
                            },
                            (ParseResult::Error(e), c1) => (ParseResult::Error(e), c1),
                            (ParseResult::NoMatch, c1) => (ParseResult::NoMatch, c1),
                        }
                    } else {
                        (ParseResult::NoMatch, ctx)
                    },
                }
            },
            ParseResult::Error(e) => (ParseResult::Error(e), ctx),
            ParseResult::NoMatch => (ParseResult::NoMatch, ctx),
        }
    }
}

/// `inline-table-keyvals` from `q`, after the tables `parts` of the pairs so
/// far, up to and with the closing brace: the table of each pair.
pub open spec fn inline_items_spec(
    s: Seq<char>,
    q: int,
    ctx: CtxM,
    parts: Seq<Seq<(Seq<char>, ValueM)>>,
) -> (ParseResult<Seq<Seq<(Seq<char>, ValueM)>>>, CtxM)
    decreases s.len() - q, 4nat,
{
    match keyval_spec(s, q, ctx) {
        (ParseResult::Value(kv, b), c1) => {
            let parts1 = parts.push(nested_table_spec(kv.0, kv.1));
            if b >= s.len() {
                (ParseResult::Error(INLINE_TABLE_UNTERMINATED), c1)
            } else {
                match inline_close_spec(s, b as int) {
                    ParseResult::Value(_, c) => (ParseResult::Value(parts1, c), c1),
                    ParseResult::Error(e) => (ParseResult::Error(e), c1),
                    ParseResult::NoMatch => match wcn_spec(s, b as int) {
                        ParseResult::Value(_, c) => if c >= s.len() {
                            (ParseResult::Error(INLINE_TABLE_SEP_EOF), c1)
                        } else if s[c as int] != ',' {
                            (ParseResult::Error(INLINE_TABLE_SEP_EXPECTED_COMMA), c1)
                        } else {
                            match wcn_spec(s, c + 1) {
                                ParseResult::Value(_, d) => match inline_close_spec(s, d as int) {
                                    ParseResult::Value(_, e) => (ParseResult::Value(parts1, e), c1),
                                    ParseResult::Error(e) => (ParseResult::Error(e), c1),
                                    ParseResult::NoMatch => if q < d <= s.len() {
                                        inline_items_spec(s, d as int, c1, parts1)
                                    } else {
                                        (ParseResult::NoMatch, c1)
                                    },
                                },
                                ParseResult::Error(e) => (ParseResult::Error(e), c1),
                                ParseResult::NoMatch => (ParseResult::NoMatch, c1),
                            }
                        },
                        ParseResult::Error(e) => (ParseResult::Error(e), c1),
                        ParseResult::NoMatch => (ParseResult::NoMatch, c1),
                    },
                }
            }
        },
        (ParseResult::Error(e), c1) => (ParseResult::Error(e), c1),
        (ParseResult::NoMatch, c1) => (ParseResult::NoMatch, c1),
    }
}

/// `keyval = key keyval-sep val`: the key's segments and the value.
pub open spec fn keyval_spec(s: Seq<char>, p: int, ctx: CtxM) -> (
    ParseResult<(Seq<Seq<char>>, ValueM)>,
    CtxM,
)
    decreases s.len() - p, 3nat,
{
    match key_spec(s, p) {
        ParseResult::Value(k, a) => match keyval_sep_spec(s, a as int) {
            ParseResult::Value(_, b) => if b >= s.len() {
                (ParseResult::Error(KEY_VALUE_MISSING_VALUE_EOF), ctx)
            } else if p < b {
                match value_spec(k, s, b as int, ctx) {
                    (ParseResult::Value(v, c), c1) => (ParseResult::Value((k, v), c), c1),
                    (ParseResult::Error(e), c1) => (ParseResult::Error(e), c1),
                    (ParseResult::NoMatch, c1) => (
                        ParseResult::Error(KEY_VALUE_MISSING_VALUE_NOMATCH),
                        c1,
                    ),
                }
            } else {
                (ParseResult::NoMatch, ctx)
            },
            ParseResult::Error(e) => (ParseResult::Error(e), ctx),
            ParseResult::NoMatch => (ParseResult::NoMatch, ctx),
        },
        ParseResult::Error(e) => (ParseResult::Error(e), ctx),
        ParseResult::NoMatch => (ParseResult::NoMatch, ctx),
    }
}

/// Merge the tables `rest` into `acc`, the last of them first.
pub open spec fn merge_parts_rec(
    rest: Seq<Seq<(Seq<char>, ValueM)>>,
    acc: Seq<(Seq<char>, ValueM)>,
) -> Option<Seq<(Seq<char>, ValueM)>>
    decreases rest.len(),
{
    if rest.len() == 0 {
        Some(acc)
    } else {
        match merge_tables_spec(rest.last(), acc) {
            Some(m) => merge_parts_rec(rest.drop_last(), m),
            None => None,
        }
    }
}

/// The tables of the pairs of an inline table merged: each into the merge
/// of the ones after it.
pub open spec fn merge_parts_spec(parts: Seq<Seq<(Seq<char>, ValueM)>>) -> Option<
    Seq<(Seq<char>, ValueM)>,
> {
    if parts.len() == 0 {
        Some(Seq::empty())
    } else {
        merge_parts_rec(parts.drop_last(), parts.last())
    }
}

/// A parse result of a key/value pair, viewed.
pub open spec fn keyval_result(r: ParseResult<KeyVal>) -> ParseResult<(Seq<Seq<char>>, ValueM)> {
    match r {
        ParseResult::Value(kv, q) => ParseResult::Value(kv@, q),
        ParseResult::Error(m) => ParseResult::Error(m),
        ParseResult::NoMatch => ParseResult::NoMatch,
    }
}

/// A parse result of an array, its values viewed.
pub open spec fn array_result(r: ParseResult<Vec<Value>>) -> ParseResult<Seq<ValueM>> {
    match r {
        ParseResult::Value(a, q) => ParseResult::Value(values_model(a@), q),
        ParseResult::Error(m) => ParseResult::Error(m),
        ParseResult::NoMatch => ParseResult::NoMatch,
    }
}

proof fn lemma_wcn_bounds(s: Seq<char>, q: int)
    requires
        0 <= q <= s.len() <= usize::MAX,
    ensures
        wcn_spec(s, q) matches ParseResult::Value(_, e) ==> q <= e <= s.len(),
    decreases s.len() - q,
{
    if q < s.len() {
        if is_wschar(s[q]) {
            lemma_wcn_bounds(s, q + 1);
        } else {
            match comment_spec(s, q) {
                ParseResult::Value(_, c) => if newline_at(s, c as int) && q < newline_end(
                    s,
                    c as int,
                ) <= s.len() {
                    lemma_wcn_bounds(s, newline_end(s, c as int));
                },
                ParseResult::NoMatch => if newline_at(s, q) && newline_end(s, q) <= s.len() {
                    lemma_wcn_bounds(s, newline_end(s, q));
                },
                _ => {},
            }
        }
    }
}

/// Parse a key/value pair.
pub fn parse_key_value(s: &Vec<char>, p: usize, ctx: &mut ParserContext) -> (r: ParseResult<
    KeyVal,
>)
    requires
        p <= s.len(),
    ensures
        keyval_result(r) == keyval_spec(s@, p as int, old(ctx)@).0,
        !(r is Error) ==> final(ctx)@ == keyval_spec(s@, p as int, old(ctx)@).1,
        final(ctx)@.current == old(ctx)@.current,
        r.sound(p as int, s.len() as int),
        r.advances(p as int),
    decreases s.len() - p, 3nat,
{
    let (key, a) = match parse_key(s, p) {
        ParseResult::Value(k, a) => (k, a),
        ParseResult::Error(e) => return ParseResult::Error(e),
        ParseResult::NoMatch => return ParseResult::NoMatch,
    };
    let b = match parse_keyval_sep(s, a) {
        ParseResult::Value(_, b) => b,
        ParseResult::Error(e) => return ParseResult::Error(e),
        ParseResult::NoMatch => return ParseResult::NoMatch,
    };
    if b >= s.len() {
        return ParseResult::Error(KEY_VALUE_MISSING_VALUE_EOF);
    }
    match parse_value(&key, s, b, ctx) {
        ParseResult::Value(val, c) => ParseResult::Value(KeyVal { key, val }, c),
        ParseResult::Error(e) => ParseResult::Error(e),
        ParseResult::NoMatch => ParseResult::Error(KEY_VALUE_MISSING_VALUE_NOMATCH),
    }
}

/// Parse a value for the key `key`. The context is left as it was when no
/// value matches.
pub fn parse_value(key: &Key, s: &Vec<char>, p: usize, ctx: &mut ParserContext) -> (r:
    ParseResult<Value>)
    requires
        p <= s.len(),
    ensures
        r@ == value_spec(key_view(key@), s@, p as int, old(ctx)@).0,
        !(r is Error) ==> final(ctx)@ == value_spec(key_view(key@), s@, p as int, old(ctx)@).1,
        final(ctx)@.current == old(ctx)@.current,
        r.sound(p as int, s.len() as int),
        r.advances(p as int),
    decreases s.len() - p, 2nat,
{
    match parse_boolean(s, p) {
        ParseResult::Value(b, q) => return ParseResult::Value(Value::Boolean(b), q),
        ParseResult::Error(e) => return ParseResult::Error(e),
        ParseResult::NoMatch => {},
    }
    let saved = clone_context(ctx);
    match parse_array(key, s, p, ctx) {
        ParseResult::Value(a, q) => {
            proof {
                assert(Value::Array(a)@ == ValueM::Array(values_model(a@)));
            }
            return ParseResult::Value(Value::Array(a), q);
        },
        ParseResult::Error(e) => return ParseResult::Error(e),
        ParseResult::NoMatch => {
            *ctx = saved;
        },
    }
    let saved = clone_context(ctx);
    match parse_inline_table(key, s, p, ctx) {
        ParseResult::Value(t, q) => return ParseResult::Value(Value::Table(t), q),
        ParseResult::Error(e) => return ParseResult::Error(e),
        ParseResult::NoMatch => {
            *ctx = saved;
        },
    }
    proof {
        reveal(scalar_value_spec);
    }
    match parse_string(s, p) {
        ParseResult::Value(t, q) => return ParseResult::Value(Value::String(t), q),
        ParseResult::Error(e) => return ParseResult::Error(e),
        ParseResult::NoMatch => {},
    }
    match parse_datetime(s, p) {
        ParseResult::Value(d, q) => return ParseResult::Value(Value::DateTime(d), q),
        ParseResult::Error(e) => return ParseResult::Error(e),
        ParseResult::NoMatch => {},
    }
    match parse_float(s, p) {
        ParseResult::Value(Number::Float(f), q) => ParseResult::Value(Value::Float(f), q),
        ParseResult::Value(Number::Integer(i), q) => ParseResult::Value(Value::Integer(i), q),
        ParseResult::Error(e) => ParseResult::Error(e),
        ParseResult::NoMatch => ParseResult::NoMatch,
    }
}

/// Parse an array for the key `key`.
#[verifier::loop_isolation(false)]
pub fn parse_array(key: &Key, s: &Vec<char>, p: usize, ctx: &mut ParserContext) -> (r:
    ParseResult<Vec<Value>>)
    requires
        p <= s.len(),
    ensures
        array_result(r) == array_spec(key_view(key@), s@, p as int, old(ctx)@).0,
        !(r is Error) ==> final(ctx)@ == array_spec(key_view(key@), s@, p as int, old(ctx)@).1,
        final(ctx)@.current == old(ctx)@.current,
        r.sound(p as int, s.len() as int),
        r.advances(p as int),
    decreases s.len() - p, 1nat,
{
    let ghost kv = key_view(key@);
    let ghost c0 = ctx@;
    if p >= s.len() || s[p] != '[' {
        return ParseResult::NoMatch;
    }
    if p + 1 >= s.len() {
        return ParseResult::Error(ARRAY_OPEN_EOF);
    }
    let b = match parse_ws_comment_newline(s, p + 1) {
        ParseResult::Value(_, b) => b,
        ParseResult::Error(e) => return ParseResult::Error(e),
        ParseResult::NoMatch => return ParseResult::NoMatch,
    };
    let new_key = key_concat(&ctx.current_table_path, key);
    if names_contain(&ctx.array_of_tables, &new_key) {
        return ParseResult::Error(ARRAY_OF_TABLES_INLINE_ARRAY);
    }
    push_name(&mut ctx.inline_arrays, new_key);
    proof {
        assert(ctx@ == with_inline_array(c0, c0.current + kv));
    }
    if b >= s.len() {
        return ParseResult::Error(ARRAY_OPEN_AFTER_WS_EOF);
    }
    if s[b] == ']' {
        let empty: Vec<Value> = Vec::new();
        proof {
            assert(values_model(empty@) == Seq::<ValueM>::empty());
        }
        return ParseResult::Value(empty, b + 1);
    }
    let mut items: Vec<Value> = Vec::new();
    let mut q = b;
    proof {
        assert(values_model(items@) == Seq::<ValueM>::empty());
    }
    loop
        invariant
            p < q <= s.len(),
            kv == key_view(key@),
            ctx@.current == c0.current,
            array_spec(kv, s@, p as int, c0) == array_items_spec(
                kv,
                s@,
                q as int,
                ctx@,
                values_model(items@),
            ),
        decreases s.len() - q,
    {
        let ghost before = items@;
        let c = match parse_value(key, s, q, ctx) {
            ParseResult::Value(v, c) => {
                let ghost vm = v@;
                items.push(v);
                proof {
                    assert(items@.drop_last() == before);
                    assert(values_model(items@) == values_model(before).push(vm));
                }
                c
            },
            ParseResult::Error(e) => return ParseResult::Error(e),
            ParseResult::NoMatch => return ParseResult::Error(ARRAY_VALUES_EXPECTED_VALUE),
        };
        let d = match parse_ws_comment_newline(s, c) {
            ParseResult::Value(_, d) => d,
            ParseResult::Error(e) => return ParseResult::Error(e),
            ParseResult::NoMatch => return ParseResult::NoMatch,
        };
        if d >= s.len() {
            return ParseResult::Error(ARRAY_VALUE_EOF_AFTER_VALUE);
        }
        if s[d] == ',' {
            let e = match parse_ws_comment_newline(s, d + 1) {
                ParseResult::Value(_, e) => e,
                ParseResult::Error(m) => return ParseResult::Error(m),
                ParseResult::NoMatch => return ParseResult::NoMatch,
            };
            if e >= s.len() {
                return ParseResult::Error(ARRAY_SEP_EOF_AFTER_COMMA);
            }
            if s[e] == ']' {
                return ParseResult::Value(items, e + 1);
            }
            q = e;
        } else if s[d] == ']' {
            return ParseResult::Value(items, d + 1);
        } else {
            return ParseResult::Error(ARRAY_VALUE_INVALID_SEPARATOR);
        }
    }
}

/// `ws-comment-newline "}"` at `p`: the position after the brace, if it is
/// there.
pub open spec fn inline_close_spec(s: Seq<char>, p: int) -> ParseResult<()> {
    match wcn_spec(s, p) {
        ParseResult::Value(_, q) => if q < s.len() && s[q as int] == '}' {
            ParseResult::Value((), (q + 1) as usize)
        } else {
            ParseResult::NoMatch
        },
        ParseResult::Error(e) => ParseResult::Error(e),
        ParseResult::NoMatch => ParseResult::NoMatch,
    }
}

/// Parse the end of an inline table.
fn inline_table_close(s: &Vec<char>, p: usize) -> (r: ParseResult<()>)
    requires
        p <= s.len(),
    ensures
        r == inline_close_spec(s@, p as int),
        r.sound(p as int, s.len() as int),
        r.advances(p as int),
{
    match parse_ws_comment_newline(s, p) {
        ParseResult::Value(_, q) => {
            if q < s.len() && s[q] == '}' {
                ParseResult::Value((), q + 1)
            } else {
                ParseResult::NoMatch
            }
        },
        ParseResult::Error(e) => ParseResult::Error(e),
        ParseResult::NoMatch => ParseResult::NoMatch,
    }
}

/// The views of a list of tables.
pub open spec fn tables_view(t: Seq<Table>) -> Seq<Seq<(Seq<char>, ValueM)>> {
    t.map_values(|x: Table| x@)
}

/// Parse an inline table for the key `key`.
#[verifier::loop_isolation(false)]
pub fn parse_inline_table(key: &Key, s: &Vec<char>, p: usize, ctx: &mut ParserContext) -> (r:
    ParseResult<Table>)
    requires
        p <= s.len(),
    ensures
        r@ == inline_spec(key_view(key@), s@, p as int, old(ctx)@).0,
        !(r is Error) ==> final(ctx)@ == inline_spec(key_view(key@), s@, p as int, old(ctx)@).1,
        final(ctx)@.current == old(ctx)@.current,
        r.sound(p as int, s.len() as int),
        r.advances(p as int),
    decreases s.len() - p, 1nat,
{
    let ghost kv = key_view(key@);
    let ghost c0 = ctx@;
    let new_key = key_concat(&ctx.current_table_path, key);
    if names_contain(&ctx.inline_tables, &new_key) {
        return ParseResult::Error(INLINE_TABLE_REDEFINED_INLINE);
    }
    if names_contain(&ctx.closed_tables, &new_key) {
        return ParseResult::Error(INLINE_TABLE_REDEFINED_CLOSED);
    }
    if names_contain(&ctx.explicit_tables, &new_key) {
        return ParseResult::Error(INLINE_TABLE_REDEFINED_EXPLICIT);
    }
    if p >= s.len() || s[p] != '{' {
        return ParseResult::NoMatch;
    }
    let a = match parse_ws_comment_newline(s, p + 1) {
        ParseResult::Value(_, a) => a,
        ParseResult::Error(e) => return ParseResult::Error(e),
        ParseResult::NoMatch => return ParseResult::NoMatch,
    };
    if a >= s.len() {
        return ParseResult::Error(INLINE_TABLE_OPEN_EOF);
    }
    match inline_table_close(s, a) {
        ParseResult::Value(_, c) => {
            push_name(&mut ctx.inline_tables, new_key);
            proof {
                assert(ctx@ == with_inline_table(c0, c0.current + kv));
            }
            return ParseResult::Value(table_new(), c);
        },
        ParseResult::Error(e) => return ParseResult::Error(e),
        ParseResult::NoMatch => {},
    }
    // inline-table-keyvals = keyval [ inline-table-sep inline-table-keyvals ]
    let mut parts: Vec<Table> = Vec::new();
    let mut q = a;
    let end: usize;
    proof {
        assert(tables_view(parts@) =~= Seq::<Seq<(Seq<char>, ValueM)>>::empty());
    }
    loop
        invariant
            p < q <= s.len(),
            ctx@.current == c0.current,
            inline_items_spec(s@, a as int, c0, Seq::empty()) == inline_items_spec(
                s@,
                q as int,
                ctx@,
                tables_view(parts@),
            ),
        decreases s.len() - q,
    {
        let ghost before = parts@;
        let b = match parse_key_value(s, q, ctx) {
            ParseResult::Value(kv, b) => {
                let t = make_nested_table(&kv.key, kv.val);
                let ghost tv = t@;
                parts.push(t);
                proof {
                    assert(tables_view(parts@) =~= tables_view(before).push(tv));
                }
                b
            },
            ParseResult::Error(e) => return ParseResult::Error(e),
            ParseResult::NoMatch => return ParseResult::NoMatch,
        };
        if b >= s.len() {
            return ParseResult::Error(INLINE_TABLE_UNTERMINATED);
        }
        match inline_table_close(s, b) {
            ParseResult::Value(_, c) => {
                end = c;
                break;
            },
            ParseResult::Error(e) => return ParseResult::Error(e),
            ParseResult::NoMatch => {},
        }
        // inline-table-sep = ws-comment-newline "," ws-comment-newline
        let c = match parse_ws_comment_newline(s, b) {
            ParseResult::Value(_, c) => c,
            ParseResult::Error(e) => return ParseResult::Error(e),
            ParseResult::NoMatch => return ParseResult::NoMatch,
        };
        if c >= s.len() {
            return ParseResult::Error(INLINE_TABLE_SEP_EOF);
        }
        if s[c] != ',' {
            return ParseResult::Error(INLINE_TABLE_SEP_EXPECTED_COMMA);
        }
        let d = match parse_ws_comment_newline(s, c + 1) {
            ParseResult::Value(_, d) => d,
            ParseResult::Error(e) => return ParseResult::Error(e),
            ParseResult::NoMatch => return ParseResult::NoMatch,
        };
        match inline_table_close(s, d) {
            ParseResult::Value(_, e) => {
                end = e;
                break;
            },
            ParseResult::Error(e) => return ParseResult::Error(e),
            ParseResult::NoMatch => {},
        }
        q = d;
    }
    // Each pair is merged into the merge of the pairs after it.
    let ghost all = tables_view(parts@);
    let mut merged = match parts.pop() {
        Some(t) => t,
        None => table_new(),
    };
    proof {
        if all.len() > 0 {
            assert(tables_view(parts@) =~= all.drop_last());
        }
    }
    while parts.len() > 0
        invariant
            p < end <= s.len(),
            all.len() > 0 ==> merge_parts_spec(all) == merge_parts_rec(tables_view(parts@), merged@),
            all.len() == 0 ==> parts@.len() == 0 && merged@ == Seq::<(Seq<char>, ValueM)>::empty(),
        decreases parts.len(),
    {
        let ghost before = parts@;
        let t = parts.pop().unwrap();
        proof {
            assert(tables_view(parts@) =~= tables_view(before).drop_last());
            assert(tables_view(before).last() == t@);
        }
        match recursive_merge_tables(t, &merged) {
            Some(m) => {
                merged = m;
            },
            None => return ParseResult::Error(INLINE_TABLE_CONFLICTING_KEYS),
        }
    }
    push_name(&mut ctx.inline_tables, new_key);
    ParseResult::Value(merged, end)
}

// ---------------------------------------------------------------------------
// Table headers
// ---------------------------------------------------------------------------

/// `std-table = "[" ws key ws "]"`: the table's name.
pub open spec fn std_table_spec(s: Seq<char>, p: int) -> ParseResult<Seq<Seq<char>>> {
    if p < 0 || p >= s.len() || s[p] != '[' {
        ParseResult::NoMatch
    } else {
        let a = ws_end(s, p + 1);
        if a >= s.len() {
            ParseResult::Error(STD_TABLE_OPEN_EOF)
        } else if s[a] == ']' {
            ParseResult::Error(STD_TABLE_EMPTY_NAME)
        } else {
            match key_spec(s, a) {
                ParseResult::Value(k, b) => {
                    let c = ws_end(s, b as int);
                    if c < s.len() && s[c] == ']' {
                        ParseResult::Value(k, (c + 1) as usize)
                    } else if b < s.len() {
                        ParseResult::Error(STD_TABLE_MISSING_CLOSE_CHAR)
                    } else {
                        ParseResult::Error(STD_TABLE_MISSING_CLOSE_EOF)
                    }
                },
                ParseResult::Error(e) => ParseResult::Error(e),
                ParseResult::NoMatch => ParseResult::NoMatch,
            }
        }
    }
}

/// Parse a table header.
pub fn parse_std_table(s: &Vec<char>, p: usize) -> (r: ParseResult<Key>)
    requires
        p <= s.len(),
    ensures
        key_result(r) == std_table_spec(s@, p as int),
        r.sound(p as int, s.len() as int),
        r.advances(p as int),
{
    if p >= s.len() || s[p] != '[' {
        return ParseResult::NoMatch;
    }
    let a = parse_ws(s, p + 1);
    if a >= s.len() {
        return ParseResult::Error(STD_TABLE_OPEN_EOF);
    }
    if s[a] == ']' {
        return ParseResult::Error(STD_TABLE_EMPTY_NAME);
    }
    match parse_key(s, a) {
        ParseResult::Value(k, b) => {
            let c = parse_ws(s, b);
            if c < s.len() && s[c] == ']' {
                ParseResult::Value(k, c + 1)
            } else if b < s.len() {
                ParseResult::Error(STD_TABLE_MISSING_CLOSE_CHAR)
            } else {
                ParseResult::Error(STD_TABLE_MISSING_CLOSE_EOF)
            }
        },
        ParseResult::Error(e) => ParseResult::Error(e),
        ParseResult::NoMatch => ParseResult::NoMatch,
    }
}

/// `array-table = "[[" ws key ws "]]"`: the array's name.
pub open spec fn array_table_spec(s: Seq<char>, p: int) -> ParseResult<Seq<Seq<char>>> {
    if p < 0 || s.len() - p < 2 || s[p] != '[' || s[p + 1] != '[' {
        ParseResult::NoMatch
    } else {
        let a = ws_end(s, p + 2);
        if a >= s.len() {
            ParseResult::Error(ARRAY_TABLE_OPEN_EOF)
        } else if s[a] == ']' {
            ParseResult::Error(ARRAY_TABLE_EMPTY_NAME)
        } else {
            match key_spec(s, a) {
                ParseResult::Value(k, b) => {
                    let c = ws_end(s, b as int);
                    if s.len() - c >= 2 && s[c] == ']' && s[c + 1] == ']' {
                        ParseResult::Value(k, (c + 2) as usize)
                    } else if b < s.len() {
                        ParseResult::Error(ARRAY_TABLE_MISSING_CLOSE_CHAR)
                    } else {
                        ParseResult::Error(ARRAY_TABLE_MISSING_CLOSE_EOF)
                    }
                },
                ParseResult::Error(e) => ParseResult::Error(e),
                ParseResult::NoMatch => ParseResult::NoMatch,
            }
        }
    }
}

/// Parse an array-of-tables header.
pub fn parse_array_table(s: &Vec<char>, p: usize) -> (r: ParseResult<Key>)
    requires
        p <= s.len(),
    ensures
        key_result(r) == array_table_spec(s@, p as int),
        r.sound(p as int, s.len() as int),
        r.advances(p as int),
{
    if s.len() - p < 2 || s[p] != '[' || s[p + 1] != '[' {
        return ParseResult::NoMatch;
    }
    let a = parse_ws(s, p + 2);
    if a >= s.len() {
        return ParseResult::Error(ARRAY_TABLE_OPEN_EOF);
    }
    if s[a] == ']' {
        return ParseResult::Error(ARRAY_TABLE_EMPTY_NAME);
    }
    match parse_key(s, a) {
        ParseResult::Value(k, b) => {
            let c = parse_ws(s, b);
            if s.len() - c >= 2 && s[c] == ']' && s[c + 1] == ']' {
                ParseResult::Value(k, c + 2)
            } else if b < s.len() {
                ParseResult::Error(ARRAY_TABLE_MISSING_CLOSE_CHAR)
            } else {
                ParseResult::Error(ARRAY_TABLE_MISSING_CLOSE_EOF)
            }
        },
        ParseResult::Error(e) => ParseResult::Error(e),
        ParseResult::NoMatch => ParseResult::NoMatch,
    }
}

// ---------------------------------------------------------------------------
// Expressions and documents
// ---------------------------------------------------------------------------

/// White space and an optional comment after an expression.
pub open spec fn expression_tail_spec(s: Seq<char>, p: int) -> ParseResult<()> {
    let a = ws_end(s, p);
    match comment_spec(s, a) {
        ParseResult::Value(_, b) => ParseResult::Value((), b),
        ParseResult::Error(e) => ParseResult::Error(e),
        ParseResult::NoMatch => ParseResult::Value((), a as usize),
    }
}

/// Parse the end of an expression.
fn expression_tail(s: &Vec<char>, p: usize) -> (r: ParseResult<()>)
    requires
        p <= s.len(),
    ensures
        r == expression_tail_spec(s@, p as int),
        r.sound(p as int, s.len() as int),
        r is Value || r is Error,
{
    let a = parse_ws(s, p);
    match parse_comment(s, a) {
        ParseResult::Value(_, b) => ParseResult::Value((), b),
        ParseResult::Error(e) => ParseResult::Error(e),
        ParseResult::NoMatch => ParseResult::Value((), a),
    }
}

/// The patch of an expression and what follows it on the line.
pub open spec fn with_tail(s: Seq<char>, b: int, patch: Seq<(Seq<char>, ValueM)>, c: CtxM) -> (
    ParseResult<Seq<(Seq<char>, ValueM)>>,
    CtxM,
) {
    match expression_tail_spec(s, b) {
        ParseResult::Value(_, e) => (ParseResult::Value(patch, e), c),
        ParseResult::Error(e) => (ParseResult::Error(e), c),
        ParseResult::NoMatch => (ParseResult::NoMatch, c),
    }
}

/// An `[[array-of-tables]]` header naming `name`, then the rest of the line
/// from `b`.
pub open spec fn array_header_spec(s: Seq<char>, b: int, name: Seq<Seq<char>>, ctx: CtxM) -> (
    ParseResult<Seq<(Seq<char>, ValueM)>>,
    CtxM,
) {
    if ctx.explicit.contains(name) {
        (ParseResult::Error(ARRAY_TABLE_REDEFINES_STD_TABLE), ctx)
    } else if ctx.closed.contains(name) {
        (ParseResult::Error(ARRAY_TABLE_REDEFINES_CLOSED_TABLE), ctx)
    } else if names_meet_spec(ctx.inline_tables, prefixes_spec(name)) {
        (ParseResult::Error(ARRAY_TABLE_REDEFINES_INLINE_TABLE), ctx)
    } else if ctx.inline_arrays.contains(name) {
        (ParseResult::Error(ARRAY_TABLE_REDEFINES_INLINE_ARRAY), ctx)
    } else {
        with_tail(
            s,
            b,
            nested_table_spec(name, ValueM::Array(seq![ValueM::Table(Seq::empty())])),
            CtxM { array_of_tables: ctx.array_of_tables.push(name), current: name, ..ctx },
        )
    }
}

/// A `[table]` header naming `name`, then the rest of the line from `b`.
pub open spec fn std_header_spec(s: Seq<char>, b: int, name: Seq<Seq<char>>, ctx: CtxM) -> (
    ParseResult<Seq<(Seq<char>, ValueM)>>,
    CtxM,
) {
    if ctx.explicit.contains(name) {
        (ParseResult::Error(STD_TABLE_DUPLICATE), ctx)
    } else if ctx.closed.contains(name) {
        (ParseResult::Error(STD_TABLE_REDEFINES_IMPLICIT_TABLE), ctx)
    } else if ctx.array_of_tables.contains(name) {
        (ParseResult::Error(STD_TABLE_REDEFINES_ARRAY_TABLE), ctx)
    } else if names_meet_spec(ctx.inline_tables, prefixes_spec(name)) {
        (ParseResult::Error(STD_TABLE_REDEFINES_INLINE_TABLE), ctx)
    } else {
        with_tail(
            s,
            b,
            nested_table_spec(name, ValueM::Table(Seq::empty())),
            CtxM { explicit: ctx.explicit.push(name), current: name, ..ctx },
        )
    }
}

/// A key/value pair `kv` in the current table, then the rest of the line
/// from `b`: the tables its dotted key defines implicitly may not be defined
/// otherwise.
pub open spec fn keyval_line_spec(
    s: Seq<char>,
    b: int,
    kv: (Seq<Seq<char>>, ValueM),
    ctx: CtxM,
) -> (ParseResult<Seq<(Seq<char>, ValueM)>>, CtxM) {
    let implicit = implicit_spec(ctx.current, kv.0);
    if names_meet_spec(ctx.explicit, implicit) {
        (ParseResult::Error(DOTTED_KEY_REDEFINES_STD_TABLE), ctx)
    } else if names_meet_spec(ctx.inline_tables, implicit) {
        (ParseResult::Error(DOTTED_KEY_REDEFINES_INLINE_TABLE), ctx)
    } else if names_meet_spec(ctx.array_of_tables, implicit) {
        (ParseResult::Error(DOTTED_KEY_REDEFINES_ARRAY_TABLE), ctx)
    } else {
        let nested = nested_table_spec(kv.0, kv.1);
        let patch = if ctx.current.len() == 0 {
            nested
        } else {
            nested_table_spec(ctx.current, ValueM::Table(nested))
        };
        with_tail(s, b, patch, CtxM { closed: ctx.closed + implicit, ..ctx })
    }
}

/// `expression = ws [ comment ] / ws keyval ws [ comment ] / ws table ws
/// [ comment ]`: the table that the expression adds to the document (empty
/// for a blank or comment line), the position before the line's end, and
/// the context after it.
pub open spec fn expression_spec(s: Seq<char>, p: int, ctx: CtxM) -> (
    ParseResult<Seq<(Seq<char>, ValueM)>>,
    CtxM,
) {
    let a = ws_end(s, p);
    if a >= s.len() || newline_at(s, a) {
        (ParseResult::Value(Seq::empty(), a as usize), ctx)
    } else {
        match comment_spec(s, a) {
            ParseResult::Value(_, b) => (ParseResult::Value(Seq::empty(), b), ctx),
            ParseResult::Error(e) => (ParseResult::Error(e), ctx),
            ParseResult::NoMatch => match array_table_spec(s, a) {
                ParseResult::Value(name, b) => array_header_spec(s, b as int, name, ctx),
                ParseResult::Error(e) => (ParseResult::Error(e), ctx),
                ParseResult::NoMatch => match std_table_spec(s, a) {
                    ParseResult::Value(name, b) => std_header_spec(s, b as int, name, ctx),
                    ParseResult::Error(e) => (ParseResult::Error(e), ctx),
                    ParseResult::NoMatch => match keyval_spec(s, a, ctx) {
                        (ParseResult::Value(kv, b), c1) => keyval_line_spec(s, b as int, kv, c1),
                        (ParseResult::Error(e), c1) => (ParseResult::Error(e), c1),
                        (ParseResult::NoMatch, c1) => (ParseResult::NoMatch, c1),
                    },
                },
            },
        }
    }
}

/// Parse one expression: the table it adds to the document.
pub fn parse_expression(s: &Vec<char>, p: usize, ctx: &mut ParserContext) -> (r: ParseResult<
    Table,
>)
    requires
        p <= s.len(),
    ensures
        r@ == expression_spec(s@, p as int, old(ctx)@).0,
        !(r is Error) ==> final(ctx)@ == expression_spec(s@, p as int, old(ctx)@).1,
        r.sound(p as int, s.len() as int),
{
    let a = parse_ws(s, p);
    if a >= s.len() || is_newline(s, a) {
        return ParseResult::Value(table_new(), a);
    }
    match parse_comment(s, a) {
        ParseResult::Value(_, b) => return ParseResult::Value(table_new(), b),
        ParseResult::Error(e) => return ParseResult::Error(e),
        ParseResult::NoMatch => {},
    }
    match parse_array_table(s, a) {
        ParseResult::Value(name, b) => {
            if names_contain(&ctx.explicit_tables, &name) {
                return ParseResult::Error(ARRAY_TABLE_REDEFINES_STD_TABLE);
            }
            if names_contain(&ctx.closed_tables, &name) {
                return ParseResult::Error(ARRAY_TABLE_REDEFINES_CLOSED_TABLE);
            }
            if names_meet(&ctx.inline_tables, &name_prefixes(&name)) {
                return ParseResult::Error(ARRAY_TABLE_REDEFINES_INLINE_TABLE);
            }
            if names_contain(&ctx.inline_arrays, &name) {
                return ParseResult::Error(ARRAY_TABLE_REDEFINES_INLINE_ARRAY);
            }
            push_name(&mut ctx.array_of_tables, clone_key(&name));
            ctx.current_table_path = clone_key(&name);
            let mut items: Vec<Value> = Vec::new();
            items.push(Value::Table(table_new()));
            proof {
                reveal_with_fuel(crate::toml::value::values_model, 2);
                assert(values_model(items@) =~= seq![ValueM::Table(Seq::empty())]);
            }
            let patch = make_nested_table(&name, Value::Array(items));
            return match expression_tail(s, b) {
                ParseResult::Value(_, c) => ParseResult::Value(patch, c),
                ParseResult::Error(e) => ParseResult::Error(e),
                ParseResult::NoMatch => ParseResult::NoMatch,
            };
        },
        ParseResult::Error(e) => return ParseResult::Error(e),
        ParseResult::NoMatch => {},
    }
    match parse_std_table(s, a) {
        ParseResult::Value(name, b) => {
            if names_contain(&ctx.explicit_tables, &name) {
                return ParseResult::Error(STD_TABLE_DUPLICATE);
            }
            if names_contain(&ctx.closed_tables, &name) {
                return ParseResult::Error(STD_TABLE_REDEFINES_IMPLICIT_TABLE);
            }
            if names_contain(&ctx.array_of_tables, &name) {
                return ParseResult::Error(STD_TABLE_REDEFINES_ARRAY_TABLE);
            }
            if names_meet(&ctx.inline_tables, &name_prefixes(&name)) {
                return ParseResult::Error(STD_TABLE_REDEFINES_INLINE_TABLE);
            }
            push_name(&mut ctx.explicit_tables, clone_key(&name));
            ctx.current_table_path = clone_key(&name);
            let patch = make_nested_table(&name, Value::Table(table_new()));
            return match expression_tail(s, b) {
                ParseResult::Value(_, c) => ParseResult::Value(patch, c),
                ParseResult::Error(e) => ParseResult::Error(e),
                ParseResult::NoMatch => ParseResult::NoMatch,
            };
        },
        ParseResult::Error(e) => return ParseResult::Error(e),
        ParseResult::NoMatch => {},
    }
    match parse_key_value(s, a, ctx) {
        ParseResult::Value(kv, b) => {
            let ghost c1 = ctx@;
            let implicit = implicit_tables(&ctx.current_table_path, &kv.key);
            if names_meet(&ctx.explicit_tables, &implicit) {
                return ParseResult::Error(DOTTED_KEY_REDEFINES_STD_TABLE);
            }
            if names_meet(&ctx.inline_tables, &implicit) {
                return ParseResult::Error(DOTTED_KEY_REDEFINES_INLINE_TABLE);
            }
            if names_meet(&ctx.array_of_tables, &implicit) {
                return ParseResult::Error(DOTTED_KEY_REDEFINES_ARRAY_TABLE);
            }
            let ghost iv = names_view(implicit@);
            let mut i: usize = 0;
            while i < implicit.len()
                invariant
                    i <= implicit.len(),
                    iv == names_view(implicit@),
                    ctx@ == (CtxM { closed: c1.closed + iv.subrange(0, i as int), ..c1 }),
                decreases implicit.len() - i,
            {
                push_name(&mut ctx.closed_tables, clone_key(&implicit[i]));
                proof {
                    assert(c1.closed + iv.subrange(0, i + 1) =~= (c1.closed + iv.subrange(0, i as int)).push(iv[i as int]));
                    assert(ctx@ == (CtxM { closed: c1.closed + iv.subrange(0, i + 1), ..c1 }));
                }
                i = i + 1;
            }
            proof {
                assert(iv.subrange(0, iv.len() as int) =~= iv);
            }
            let nested = make_nested_table(&kv.key, kv.val);
            let patch = if ctx.current_table_path.len() == 0 {
                nested
            } else {
                make_nested_table(&ctx.current_table_path, Value::Table(nested))
            };
            match expression_tail(s, b) {
                ParseResult::Value(_, c) => ParseResult::Value(patch, c),
                ParseResult::Error(e) => ParseResult::Error(e),
                ParseResult::NoMatch => ParseResult::NoMatch,
            }
        },
        ParseResult::Error(e) => ParseResult::Error(e),
        ParseResult::NoMatch => ParseResult::NoMatch,
    }
}

/// The rest of a document after position `q`: each further line is a
/// newline and an expression, whose table merges into `acc`.
pub open spec fn toml_rest_spec(
    s: Seq<char>,
    q: int,
    ctx: CtxM,
    acc: Seq<(Seq<char>, ValueM)>,
) -> ParseResult<ValueM>
    decreases s.len() - q,
{
    if q < 0 || q >= s.len() {
        ParseResult::Value(ValueM::Table(acc), q as usize)
    } else if !newline_at(s, q) {
        ParseResult::Error(TOML_EXPECTED_NEWLINE_BETWEEN_EXPRESSIONS)
    } else {
        match expression_spec(s, newline_end(s, q), ctx) {
            (ParseResult::Value(t, b), c1) => match merge_tables_spec(acc, t) {
                Some(m) => if q < b <= s.len() {
                    toml_rest_spec(s, b as int, c1, m)
                } else {
                    ParseResult::NoMatch
                },
                None => ParseResult::Error(TOML_TABLE_MERGE_TYPE_MISMATCH),
            },
            (ParseResult::Error(e), _) => ParseResult::Error(e),
            (ParseResult::NoMatch, _) => ParseResult::NoMatch,
        }
    }
}

proof fn lemma_toml_rest_table(s: Seq<char>, q: int, ctx: CtxM, acc: Seq<(Seq<char>, ValueM)>)
    ensures
        toml_rest_spec(s, q, ctx, acc) matches ParseResult::Value(v, _) ==> v is Table,
    decreases s.len() - q,
{
    if 0 <= q < s.len() && newline_at(s, q) {
        match expression_spec(s, newline_end(s, q), ctx) {
            (ParseResult::Value(t, b), c1) => match merge_tables_spec(acc, t) {
                Some(m) => if q < b <= s.len() {
                    lemma_toml_rest_table(s, b as int, c1, m);
                },
                None => {},
            },
            _ => {},
        }
    }
}

/// Law: a document that the parser accepts is a table.
pub proof fn lemma_toml_document_is_table(s: Seq<char>)
    ensures
        toml_spec(s) matches ParseResult::Value(v, _) ==> v is Table,
{
    match expression_spec(s, 0, initial_ctx()) {
        (ParseResult::Value(t, q), c) => lemma_toml_rest_table(s, q as int, c, t),
        _ => {},
    }
}

/// `toml = expression *( newline expression )`: the document is the merge
/// of the tables its expressions add, in order.
pub open spec fn toml_spec(s: Seq<char>) -> ParseResult<ValueM> {
    match expression_spec(s, 0, initial_ctx()) {
        (ParseResult::Value(t, q), c) => toml_rest_spec(s, q as int, c, t),
        (ParseResult::Error(e), _) => ParseResult::Error(e),
        (ParseResult::NoMatch, _) => ParseResult::NoMatch,
    }
}

/// Parse a TOML document, given as its characters: the table it defines, or
/// the marker of the rule it breaks.
pub fn parse_toml(s: &Vec<char>) -> (r: ParseResult<Value>)
    ensures
        r@ == toml_spec(s@),
        r.sound(0, s.len() as int),
{
    let mut ctx = default_parser_context();
    let (mut acc, mut q) = match parse_expression(s, 0, &mut ctx) {
        ParseResult::Value(t, q) => (t, q),
        ParseResult::Error(e) => return ParseResult::Error(e),
        ParseResult::NoMatch => return ParseResult::NoMatch,
    };
    while q < s.len()
        invariant
            q <= s.len(),
            toml_spec(s@) == toml_rest_spec(s@, q as int, ctx@, acc@),
        decreases s.len() - q,
    {
        let a = match parse_newline(s, q) {
            Some(a) => a,
            None => return ParseResult::Error(TOML_EXPECTED_NEWLINE_BETWEEN_EXPRESSIONS),
        };
        let (next, b) = match parse_expression(s, a, &mut ctx) {
            ParseResult::Value(t, b) => (t, b),
            ParseResult::Error(e) => return ParseResult::Error(e),
            ParseResult::NoMatch => return ParseResult::NoMatch,
        };
        acc = match recursive_merge_tables(acc, &next) {
            Some(m) => m,
            None => return ParseResult::Error(TOML_TABLE_MERGE_TYPE_MISMATCH),
        };
        q = b;
    }
    ParseResult::Value(Value::Table(acc), q)
}

} // verus!
