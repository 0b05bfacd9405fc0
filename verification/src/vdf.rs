//! A minimal parser for Valve's KeyValues text format (`libraryfolders.vdf`,
//! `appmanifest_*.acf`).
//!
//! The grammar: an object is a sequence of `key value` pairs, where a key is a
//! token and a value is either a token or a nested object in braces. A token
//! is a quoted string (with `\n`, `\r`, `\t`, `\"` and `\\` escapes; any other
//! escaped character keeps its backslash) or a bare word ending at ASCII
//! whitespace or a brace. ASCII whitespace and `//` line comments may appear
//! between tokens. A later value for a key replaces the earlier one.
//!
//! The grammar is stated over the input's characters by the spec functions
//! below; `parse` is proved to compute exactly `spec_parse`.

use crate::error::AppError;
use crate::order::{chars_lt, lemma_lt_irreflexive, lemma_lt_total, lemma_lt_transitive, seq_lt};
use crate::text::{ascii_whitespace, chars_of, is_ascii_ws, owned, string_from_chars};
use vstd::prelude::*;

verus! {

/// A KeyValues value: a string or a nested object.
#[derive(Debug)]
pub enum VdfValue {
    String(String),
    Object(VdfObject),
}

/// A KeyValues object: its entries, each key at most once, in ascending
/// order of key.
#[derive(Debug)]
pub struct VdfObject {
    pub entries: Vec<(String, VdfValue)>,
}

/// The mathematical form of a KeyValues value.
pub enum VdfTree {
    Text(Seq<char>),
    Node(Seq<(Seq<char>, VdfTree)>),
}

pub open spec fn value_view(v: VdfValue) -> VdfTree
    decreases v,
{
    match v {
        VdfValue::String(s) => VdfTree::Text(s@),
        VdfValue::Object(o) => VdfTree::Node(
            Seq::new(
                o.entries@.len(),
                |i: int|
                    if 0 <= i < o.entries@.len() {
                        (o.entries@[i].0@, value_view(o.entries@[i].1))
                    } else {
                        (Seq::empty(), VdfTree::Text(Seq::empty()))
                    },
            ),
        ),
    }
}

pub open spec fn entries_view(e: Seq<(String, VdfValue)>) -> Seq<(Seq<char>, VdfTree)> {
    Seq::new(e.len(), |i: int| (e[i].0@, value_view(e[i].1)))
}

impl View for VdfValue {
    type V = VdfTree;

    open spec fn view(&self) -> VdfTree {
        value_view(*self)
    }
}

impl View for VdfObject {
    type V = Seq<(Seq<char>, VdfTree)>;

    open spec fn view(&self) -> Seq<(Seq<char>, VdfTree)> {
        entries_view(self.entries@)
    }
}

pub proof fn lemma_object_view(o: VdfObject)
    ensures
        value_view(VdfValue::Object(o)) == VdfTree::Node(o@),
{
    let v = value_view(VdfValue::Object(o));
    assert(v is Node);
    let n = match v {
        VdfTree::Node(n) => n,
        VdfTree::Text(_) => Seq::empty(),
    };
    assert(n.len() == o@.len());
    assert forall|i: int| 0 <= i < n.len() implies n[i] == o@[i] by {
    }
    assert(n =~= o@);
}

// ---------------------------------------------------------------------------
// Association lists
// ---------------------------------------------------------------------------

/// The index of `key` in `entries` at or after `i`, or `entries.len()` when
/// it does not occur there.
pub open spec fn find_key(entries: Seq<(Seq<char>, VdfTree)>, key: Seq<char>, i: int) -> int
    decreases entries.len() - i,
{
    if i < 0 || i >= entries.len() {
        entries.len() as int
    } else if entries[i].0 == key {
        i
    } else {
        find_key(entries, key, i + 1)
    }
}

/// Where a new key goes among the entries at or after `i`: before the first
/// greater key.
pub open spec fn insert_pos(entries: Seq<(Seq<char>, VdfTree)>, key: Seq<char>, i: int) -> int
    decreases entries.len() - i,
{
    if i < 0 || i >= entries.len() {
        entries.len() as int
    } else if seq_lt(key, entries[i].0) {
        i
    } else {
        insert_pos(entries, key, i + 1)
    }
}

/// Map insertion on an association list kept in key order: a present key
/// keeps its place and takes the new value; a new key goes before the first
/// greater one.
pub open spec fn assoc_insert(
    entries: Seq<(Seq<char>, VdfTree)>,
    key: Seq<char>,
    value: VdfTree,
) -> Seq<(Seq<char>, VdfTree)> {
    let i = find_key(entries, key, 0);
    if i < entries.len() {
        entries.update(i, (key, value))
    } else {
        entries.insert(insert_pos(entries, key, 0), (key, value))
    }
}

/// The value stored under `key`.
pub open spec fn assoc_get(entries: Seq<(Seq<char>, VdfTree)>, key: Seq<char>) -> Option<VdfTree> {
    let i = find_key(entries, key, 0);
    if i < entries.len() {
        Some(entries[i].1)
    } else {
        None
    }
}

// ---------------------------------------------------------------------------
// The grammar
// ---------------------------------------------------------------------------

/// Why a text is not KeyValues.
#[derive(Debug, Clone, Copy, PartialEq, Eq)]
pub enum VdfErrorKind {
    UnterminatedObject,
    UnexpectedClosingBrace,
    ExpectedToken,
    UnterminatedEscape,
    UnterminatedString,
    TrailingData,
}

/// The message that `AppError::InvalidVdf` carries for each error.
pub open spec fn error_text(k: VdfErrorKind) -> Seq<char> {
    match k {
        VdfErrorKind::UnterminatedObject => "unterminated object"@,
        VdfErrorKind::UnexpectedClosingBrace => "unexpected closing brace"@,
        VdfErrorKind::ExpectedToken => "expected token"@,
        VdfErrorKind::UnterminatedEscape => "unterminated escape"@,
        VdfErrorKind::UnterminatedString => "unterminated quoted string"@,
        VdfErrorKind::TrailingData => "unexpected trailing data"@,
    }
}

/// Drops leading ASCII whitespace and `//` comments (a comment runs up to,
/// not including, the next line feed). `in_comment` says whether `r` starts
/// inside a comment.
pub open spec fn skip_ignored(r: Seq<char>, in_comment: bool) -> Seq<char>
    decreases r.len(), (if in_comment { 1int } else { 0int }),
{
    if in_comment {
        if r.len() > 0 && r[0] != '\n' {
            skip_ignored(r.drop_first(), true)
        } else {
            skip_ignored(r, false)
        }
    } else if r.len() > 0 && is_ascii_ws(r[0]) {
        skip_ignored(r.drop_first(), false)
    } else if r.len() >= 2 && r[0] == '/' && r[1] == '/' {
        skip_ignored(r.skip(2), true)
    } else {
        r
    }
}

/// What an escape sequence `\e` stands for inside a quoted string.
pub open spec fn escape_text(e: char) -> Seq<char> {
    if e == 'n' {
        seq!['\n']
    } else if e == 'r' {
        seq!['\r']
    } else if e == 't' {
        seq!['\t']
    } else if e == '"' {
        seq!['"']
    } else if e == '\\' {
        seq!['\\']
    } else {
        seq!['\\', e]
    }
}

/// The rest of a quoted string after its opening quote: the string (with
/// `acc` before it) and what follows the closing quote.
pub open spec fn parse_quoted(r: Seq<char>, acc: Seq<char>) -> Result<
    (Seq<char>, Seq<char>),
    VdfErrorKind,
>
    decreases r.len(),
{
    if r.len() == 0 {
        Err(VdfErrorKind::UnterminatedString)
    } else if r[0] == '"' {
        Ok((acc, r.drop_first()))
    } else if r[0] == '\\' {
        if r.len() < 2 {
            Err(VdfErrorKind::UnterminatedEscape)
        } else {
            parse_quoted(r.skip(2), acc + escape_text(r[1]))
        }
    } else {
        parse_quoted(r.drop_first(), acc.push(r[0]))
    }
}

pub open spec fn is_bare_char(c: char) -> bool {
    !is_ascii_ws(c) && c != '{' && c != '}'
}

/// The length of the bare word at the start of `r`.
pub open spec fn bare_len(r: Seq<char>) -> nat
    decreases r.len(),
{
    if r.len() > 0 && is_bare_char(r[0]) {
        1 + bare_len(r.drop_first())
    } else {
        0
    }
}

pub open spec fn parse_bare(r: Seq<char>) -> Result<(Seq<char>, Seq<char>), VdfErrorKind> {
    let n = bare_len(r);
    if n == 0 {
        Err(VdfErrorKind::ExpectedToken)
    } else {
        Ok((r.take(n as int), r.skip(n as int)))
    }
}

/// A token after any ignored text: the token and what follows it.
pub open spec fn parse_token(r: Seq<char>) -> Result<(Seq<char>, Seq<char>), VdfErrorKind> {
    let t = skip_ignored(r, false);
    if t.len() == 0 || t[0] == '{' || t[0] == '}' {
        Err(VdfErrorKind::ExpectedToken)
    } else if t[0] == '"' {
        parse_quoted(t.drop_first(), seq![])
    } else {
        parse_bare(t)
    }
}

pub proof fn lemma_skip_len(r: Seq<char>, in_comment: bool)
    ensures
        skip_ignored(r, in_comment).len() <= r.len(),
    decreases r.len(), (if in_comment { 1int } else { 0int }),
{
    if in_comment {
        if r.len() > 0 && r[0] != '\n' {
            lemma_skip_len(r.drop_first(), true);
        } else {
            lemma_skip_len(r, false);
        }
    } else if r.len() > 0 && is_ascii_ws(r[0]) {
        lemma_skip_len(r.drop_first(), false);
    } else if r.len() >= 2 && r[0] == '/' && r[1] == '/' {
        lemma_skip_len(r.skip(2), true);
    }
}

pub proof fn lemma_quoted_len(r: Seq<char>, acc: Seq<char>)
    ensures
        parse_quoted(r, acc) matches Ok((_, q)) ==> q.len() < r.len(),
    decreases r.len(),
{
    if r.len() > 0 && r[0] != '"' {
        if r[0] == '\\' {
            if r.len() >= 2 {
                lemma_quoted_len(r.skip(2), acc + escape_text(r[1]));
            }
        } else {
            lemma_quoted_len(r.drop_first(), acc.push(r[0]));
        }
    }
}

pub proof fn lemma_bare_len(r: Seq<char>)
    ensures
        bare_len(r) <= r.len(),
    decreases r.len(),
{
    if r.len() > 0 && is_bare_char(r[0]) {
        lemma_bare_len(r.drop_first());
    }
}

pub proof fn lemma_token_len(r: Seq<char>)
    ensures
        parse_token(r) matches Ok((_, q)) ==> q.len() < r.len(),
{
    let t = skip_ignored(r, false);
    lemma_skip_len(r, false);
    lemma_bare_len(t);
    if t.len() > 0 && t[0] == '"' {
        lemma_quoted_len(t.drop_first(), seq![]);
    }
}

/// The entries of an object, starting with those already read (`acc`), and
/// what follows the object. A nested object ends at its closing brace, the
/// outermost one at the end of the text.
pub open spec fn parse_entries(r: Seq<char>, nested: bool, acc: Seq<(Seq<char>, VdfTree)>) -> Result<
    (Seq<(Seq<char>, VdfTree)>, Seq<char>),
    VdfErrorKind,
>
    decreases r.len(),
{
    let t = skip_ignored(r, false);
    if t.len() == 0 {
        if nested {
            Err(VdfErrorKind::UnterminatedObject)
        } else {
            Ok((acc, t))
        }
    } else if t[0] == '}' {
        if nested {
            Ok((acc, t.drop_first()))
        } else {
            Err(VdfErrorKind::UnexpectedClosingBrace)
        }
    } else {
        match parse_token(t) {
            Err(k) => Err(k),
            Ok((key, t1)) => {
                let t2 = skip_ignored(t1, false);
                proof {
                    lemma_skip_len(r, false);
                    lemma_token_len(t);
                    lemma_skip_len(t1, false);
                }
                if t2.len() > 0 && t2[0] == '{' {
                    match parse_entries(t2.drop_first(), true, seq![]) {
                        Err(k) => Err(k),
                        Ok((inner, t3)) => {
                            if t3.len() < t2.len() {
                                parse_entries(t3, nested, assoc_insert(acc, key, VdfTree::Node(inner)))
                            } else {
                                Err(VdfErrorKind::UnterminatedObject)
                            }
                        },
                    }
                } else {
                    match parse_token(t2) {
                        Err(k) => Err(k),
                        Ok((value, t3)) => {
                            proof {
                                lemma_token_len(t2);
                            }
                            parse_entries(t3, nested, assoc_insert(acc, key, VdfTree::Text(value)))
                        },
                    }
                }
            },
        }
    }
}

/// The entries of a whole KeyValues text.
pub open spec fn spec_parse(s: Seq<char>) -> Result<Seq<(Seq<char>, VdfTree)>, VdfErrorKind> {
    match parse_entries(s, false, seq![]) {
        Err(k) => Err(k),
        Ok((entries, rest)) => {
            if skip_ignored(rest, false).len() > 0 {
                Err(VdfErrorKind::TrailingData)
            } else {
                Ok(entries)
            }
        },
    }
}

// ---------------------------------------------------------------------------
// Properties of the grammar
// ---------------------------------------------------------------------------

/// What follows an object is never longer than the text it was read from; a
/// nested object always consumes its closing brace, so the guard in
/// `parse_entries` after a nested object always holds.
pub proof fn lemma_entries_len(r: Seq<char>, nested: bool, acc: Seq<(Seq<char>, VdfTree)>)
    ensures
        parse_entries(r, nested, acc) matches Ok((_, q)) ==> q.len() <= r.len() && (nested
            ==> q.len() < r.len()),
    decreases r.len(),
{
    let t = skip_ignored(r, false);
    lemma_skip_len(r, false);
    if t.len() > 0 && t[0] != '}' {
        lemma_token_len(t);
        if let Ok((key, t1)) = parse_token(t) {
            let t2 = skip_ignored(t1, false);
            lemma_skip_len(t1, false);
            if t2.len() > 0 && t2[0] == '{' {
                lemma_entries_len(t2.drop_first(), true, seq![]);
                if let Ok((inner, t3)) = parse_entries(t2.drop_first(), true, seq![]) {
                    lemma_entries_len(t3, nested, assoc_insert(acc, key, VdfTree::Node(inner)));
                }
            } else {
                lemma_token_len(t2);
                if let Ok((value, t3)) = parse_token(t2) {
                    lemma_entries_len(t3, nested, assoc_insert(acc, key, VdfTree::Text(value)));
                }
            }
        }
    }
}

proof fn lemma_skip_comment_body(c: Seq<char>, x: Seq<char>)
    requires
        !c.contains('\n'),
    ensures
        skip_ignored(c + x, true) == skip_ignored(x, true),
    decreases c.len(),
{
    if c.len() > 0 {
        assert(c[0] != '\n') by {
            assert(c.contains(c[0]));
        }
        assert((c + x).drop_first() =~= c.drop_first() + x);
        assert(!c.drop_first().contains('\n')) by {
            if c.drop_first().contains('\n') {
                let k = choose|k: int| 0 <= k < c.drop_first().len() && c.drop_first()[k] == '\n';
                assert(c[k + 1] == '\n');
            }
        }
        lemma_skip_comment_body(c.drop_first(), x);
    } else {
        assert(c + x =~= x);
    }
}

/// A `//` comment line in front of a text is ignored: for every text `s` and
/// every comment body `c` without a line feed, `//c` followed by a line feed
/// and `s` parses exactly as `s` does.
pub proof fn lemma_leading_comment_ignored(c: Seq<char>, s: Seq<char>)
    requires
        !c.contains('\n'),
    ensures
        spec_parse(seq!['/', '/'] + c + seq!['\n'] + s) == spec_parse(s),
{
    let p = seq!['/', '/'] + c + seq!['\n'] + s;
    assert(p.skip(2) =~= c + (seq!['\n'] + s));
    lemma_skip_comment_body(c, seq!['\n'] + s);
    let nl = seq!['\n'] + s;
    assert(nl.drop_first() =~= s);
    assert(nl[0] == '\n');
    assert(skip_ignored(nl, true) == skip_ignored(nl, false));
    assert(skip_ignored(nl, false) == skip_ignored(s, false));
    assert(skip_ignored(p, false) == skip_ignored(s, false));
    assert(parse_entries(p, false, seq![]) == parse_entries(s, false, seq![]));
}

/// No key occurs twice among the entries.
pub open spec fn keys_unique(e: Seq<(Seq<char>, VdfTree)>) -> bool {
    forall|i: int, j: int| 0 <= i < j < e.len() ==> e[i].0 != e[j].0
}

/// The keys strictly ascend, as a `BTreeMap` of `String`s orders them.
pub open spec fn keys_sorted(e: Seq<(Seq<char>, VdfTree)>) -> bool {
    forall|i: int, j: int| 0 <= i < j < e.len() ==> seq_lt(#[trigger] e[i].0, #[trigger] e[j].0)
}

/// Every object in the tree has strictly ascending keys.
pub open spec fn tree_sorted(t: VdfTree) -> bool
    decreases t,
{
    match t {
        VdfTree::Text(_) => true,
        VdfTree::Node(e) => keys_sorted(e) && forall|i: int|
            0 <= i < e.len() ==> tree_sorted(#[trigger] e[i].1),
    }
}

pub open spec fn entries_sorted(e: Seq<(Seq<char>, VdfTree)>) -> bool {
    keys_sorted(e) && forall|i: int| 0 <= i < e.len() ==> tree_sorted(#[trigger] e[i].1)
}

/// Ascending keys are unique.
pub proof fn lemma_sorted_keys_unique(e: Seq<(Seq<char>, VdfTree)>)
    requires
        keys_sorted(e),
    ensures
        keys_unique(e),
{
    assert forall|i: int, j: int| 0 <= i < j < e.len() implies e[i].0 != e[j].0 by {
        assert(seq_lt(e[i].0, e[j].0));
        lemma_lt_irreflexive(e[i].0);
    }
}

proof fn lemma_insert_pos(e: Seq<(Seq<char>, VdfTree)>, key: Seq<char>, i: int)
    requires
        0 <= i <= e.len(),
    ensures
        i <= insert_pos(e, key, i) <= e.len(),
        forall|j: int| i <= j < insert_pos(e, key, i) ==> !seq_lt(key, #[trigger] e[j].0),
        insert_pos(e, key, i) < e.len() ==> seq_lt(key, e[insert_pos(e, key, i)].0),
    decreases e.len() - i,
{
    if i < e.len() && !seq_lt(key, e[i].0) {
        lemma_insert_pos(e, key, i + 1);
    }
}

proof fn lemma_find_key(e: Seq<(Seq<char>, VdfTree)>, key: Seq<char>, i: int)
    requires
        0 <= i <= e.len(),
    ensures
        i <= find_key(e, key, i) <= e.len(),
        find_key(e, key, i) < e.len() ==> e[find_key(e, key, i)].0 == key,
        forall|j: int| i <= j < find_key(e, key, i) ==> e[j].0 != key,
    decreases e.len() - i,
{
    if i < e.len() && e[i].0 != key {
        lemma_find_key(e, key, i + 1);
    }
}

proof fn lemma_insert_sorted(e: Seq<(Seq<char>, VdfTree)>, key: Seq<char>, v: VdfTree)
    requires
        entries_sorted(e),
        tree_sorted(v),
    ensures
        entries_sorted(assoc_insert(e, key, v)),
{
    lemma_find_key(e, key, 0);
    lemma_insert_pos(e, key, 0);
    let f = find_key(e, key, 0);
    let n = assoc_insert(e, key, v);
    if f < e.len() {
        assert forall|i: int, j: int| 0 <= i < j < n.len() implies seq_lt(#[trigger] n[i].0, #[trigger] n[j].0) by {
            assert(n[i].0 == e[i].0 && n[j].0 == e[j].0);
        }
        assert forall|i: int| 0 <= i < n.len() implies tree_sorted(#[trigger] n[i].1) by {
            if i != f {
                assert(n[i] == e[i]);
            }
        }
    } else {
        let p = insert_pos(e, key, 0);
        assert forall|k: int| 0 <= k < p implies seq_lt(#[trigger] e[k].0, key) by {
            assert(!seq_lt(key, e[k].0));
            assert(e[k].0 != key);
            lemma_lt_total(e[k].0, key);
        }
        assert forall|i: int, j: int| 0 <= i < j < n.len() implies seq_lt(#[trigger] n[i].0, #[trigger] n[j].0) by {
            if j < p {
                assert(n[i] == e[i] && n[j] == e[j]);
            } else if j == p {
                assert(n[i] == e[i] && n[j].0 == key);
            } else if i == p {
                assert(n[i].0 == key && n[j] == e[j - 1]);
                if j - 1 > p {
                    lemma_lt_transitive(key, e[p].0, e[j - 1].0);
                }
            } else if i < p {
                assert(n[i] == e[i] && n[j] == e[j - 1]);
            } else {
                assert(n[i] == e[i - 1] && n[j] == e[j - 1]);
            }
        }
        assert forall|i: int| 0 <= i < n.len() implies tree_sorted(#[trigger] n[i].1) by {
            if i < p {
                assert(n[i] == e[i]);
            } else if i > p {
                assert(n[i] == e[i - 1]);
            }
        }
    }
}

proof fn lemma_entries_sorted(r: Seq<char>, nested: bool, acc: Seq<(Seq<char>, VdfTree)>)
    requires
        entries_sorted(acc),
    ensures
        parse_entries(r, nested, acc) matches Ok((e, _)) ==> entries_sorted(e),
    decreases r.len(),
{
    let t = skip_ignored(r, false);
    lemma_skip_len(r, false);
    if t.len() > 0 && t[0] != '}' {
        lemma_token_len(t);
        if let Ok((key, t1)) = parse_token(t) {
            let t2 = skip_ignored(t1, false);
            lemma_skip_len(t1, false);
            if t2.len() > 0 && t2[0] == '{' {
                lemma_entries_sorted(t2.drop_first(), true, seq![]);
                if let Ok((inner, t3)) = parse_entries(t2.drop_first(), true, seq![]) {
                    if t3.len() < t2.len() {
                        lemma_insert_sorted(acc, key, VdfTree::Node(inner));
                        lemma_entries_sorted(
                            t3,
                            nested,
                            assoc_insert(acc, key, VdfTree::Node(inner)),
                        );
                    }
                }
            } else {
                lemma_token_len(t2);
                if let Ok((value, t3)) = parse_token(t2) {
                    lemma_insert_sorted(acc, key, VdfTree::Text(value));
                    lemma_entries_sorted(t3, nested, assoc_insert(acc, key, VdfTree::Text(value)));
                }
            }
        }
    }
}

/// Like a `BTreeMap`, a parsed object holds its keys in ascending order, at
/// any depth, so never a key twice: a later value for a key replaces the
/// earlier one.
pub proof fn lemma_parse_keys_sorted(s: Seq<char>)
    ensures
        spec_parse(s) matches Ok(e) ==> entries_sorted(e) && keys_unique(e),
{
    lemma_entries_sorted(s, false, seq![]);
    if let Ok(e) = spec_parse(s) {
        lemma_sorted_keys_unique(e);
    }
}

// ---------------------------------------------------------------------------
// Executable parser
// ---------------------------------------------------------------------------

fn vdf_error(k: VdfErrorKind) -> (e: AppError)
    ensures
        e matches AppError::InvalidVdf(m) && m@ == error_text(k),
{
    let text = match k {
        VdfErrorKind::UnterminatedObject => "unterminated object",
        VdfErrorKind::UnexpectedClosingBrace => "unexpected closing brace",
        VdfErrorKind::ExpectedToken => "expected token",
        VdfErrorKind::UnterminatedEscape => "unterminated escape",
        VdfErrorKind::UnterminatedString => "unterminated quoted string",
        VdfErrorKind::TrailingData => "unexpected trailing data",
    };
    AppError::InvalidVdf(owned(text))
}

fn push_escape(out: &mut Vec<char>, e: char)
    ensures
        final(out)@ == old(out)@ + escape_text(e),
{
    if e == 'n' {
        out.push('\n');
    } else if e == 'r' {
        out.push('\r');
    } else if e == 't' {
        out.push('\t');
    } else if e == '"' {
        out.push('"');
    } else if e == '\\' {
        out.push('\\');
    } else {
        out.push('\\');
        out.push(e);
    }
    assert(final(out)@ =~= old(out)@ + escape_text(e));
}

fn insert_entry(values: &mut Vec<(String, VdfValue)>, key: String, value: VdfValue)
    ensures
        entries_view(final(values)@) == assoc_insert(
            entries_view(old(values)@),
            key@,
            value_view(value),
        ),
{
    let ghost ev = entries_view(values@);
    let ghost k = key@;
    let ghost v = value_view(value);
    let mut i: usize = 0;
    while i < values.len()
        invariant
            i <= values@.len(),
            values@ == old(values)@,
            ev == entries_view(values@),
            k == key@,
            v == value_view(value),
            find_key(ev, k, 0) == find_key(ev, k, i as int),
        decreases values@.len() - i,
    {
        if values[i].0 == key {
            values[i] = (key, value);
            assert(entries_view(values@) =~= ev.update(i as int, (k, v)));
            return;
        }
        i = i + 1;
    }
    assert(find_key(ev, k, 0) == ev.len());
    let kc = chars_of(key.as_str());
    let mut j: usize = 0;
    while j < values.len()
        invariant
            j <= values@.len(),
            values@ == old(values)@,
            ev == entries_view(values@),
            kc@ == k,
            k == key@,
            v == value_view(value),
            find_key(ev, k, 0) == ev.len(),
            insert_pos(ev, k, 0) == insert_pos(ev, k, j as int),
        ensures
            j <= values@.len(),
            j == values@.len() || seq_lt(k, ev[j as int].0),
        decreases values@.len() - j,
    {
        let ec = chars_of(values[j].0.as_str());
        assert(ec@ == ev[j as int].0);
        if chars_lt(kc.as_slice(), ec.as_slice()) {
            break;
        }
        j = j + 1;
    }
    assert(insert_pos(ev, k, 0) == j as int);
    values.insert(j, (key, value));
    assert(entries_view(values@) =~= ev.insert(j as int, (k, v)));
}

struct Parser {
    input: Vec<char>,
    offset: usize,
}

impl Parser {
    spec fn rest(&self) -> Seq<char> {
        self.input@.skip(self.offset as int)
    }

    spec fn wf(&self) -> bool {
        self.offset <= self.input@.len() <= usize::MAX
    }

    fn peek(&self) -> (r: Option<char>)
        requires
            self.wf(),
        ensures
            r == (if self.rest().len() > 0 {
                Some(self.rest()[0])
            } else {
                None::<char>
            }),
    {
        if self.offset < self.input.len() {
            Some(self.input[self.offset])
        } else {
            None
        }
    }

    fn skip_ignored(&mut self)
        requires
            old(self).wf(),
        ensures
            final(self).wf(),
            final(self).input@ == old(self).input@,
            final(self).offset >= old(self).offset,
            final(self).rest() == skip_ignored(old(self).rest(), false),
    {
        let ghost target = skip_ignored(self.rest(), false);
        loop
            invariant
                self.wf(),
                self.input@ == old(self).input@,
                self.offset >= old(self).offset,
                skip_ignored(self.rest(), false) == target,
            ensures
                self.wf(),
                self.input@ == old(self).input@,
                self.offset >= old(self).offset,
                self.rest() == target,
            decreases self.input@.len() - self.offset,
        {
            let ghost round_start = self.offset;
            while self.offset < self.input.len() && ascii_whitespace(self.input[self.offset])
                invariant
                    self.wf(),
                    self.input@ == old(self).input@,
                    self.offset >= old(self).offset,
                    skip_ignored(self.rest(), false) == target,
                    self.offset >= round_start,
                decreases self.input@.len() - self.offset,
            {
                assert(self.rest().drop_first() =~= self.input@.skip(self.offset + 1));
                self.offset = self.offset + 1;
            }
            if self.offset < self.input.len() && self.offset + 1 < self.input.len()
                && self.input[self.offset] == '/' && self.input[self.offset + 1] == '/' {
                assert(self.rest().skip(2) =~= self.input@.skip(self.offset + 2));
                self.offset = self.offset + 2;
                while self.offset < self.input.len() && self.input[self.offset] != '\n'
                    invariant
                        self.wf(),
                        self.input@ == old(self).input@,
                        self.offset >= old(self).offset,
                        skip_ignored(self.rest(), true) == target,
                        self.offset >= round_start + 2,
                    decreases self.input@.len() - self.offset,
                {
                    assert(self.rest().drop_first() =~= self.input@.skip(self.offset + 1));
                    self.offset = self.offset + 1;
                }
                continue ;
            }
            break ;
        }
    }

    fn parse_quoted(&mut self) -> (res: Result<String, AppError>)
        requires
            old(self).wf(),
            old(self).rest().len() > 0,
            old(self).rest()[0] == '"',
        ensures
            final(self).wf(),
            final(self).input@ == old(self).input@,
            final(self).offset >= old(self).offset,
            match parse_quoted(old(self).rest().drop_first(), seq![]) {
                Ok((token, q)) => res matches Ok(s) && s@ == token && final(self).rest() == q,
                Err(k) => res matches Err(AppError::InvalidVdf(m)) && m@ == error_text(k),
            },
    {
        assert(self.rest().drop_first() =~= self.input@.skip(self.offset + 1));
        self.offset = self.offset + 1;
        let mut output: Vec<char> = Vec::new();
        let ghost target = parse_quoted(self.rest(), seq![]);
        assert(output@ =~= seq![]);
        while self.offset < self.input.len()
            invariant
                self.wf(),
                self.input@ == old(self).input@,
                self.offset >= old(self).offset,
                target == parse_quoted(old(self).rest().drop_first(), seq![]),
                parse_quoted(self.rest(), output@) == target,
            decreases self.input@.len() - self.offset,
        {
            let c = self.input[self.offset];
            assert(self.rest()[0] == c);
            assert(self.rest().drop_first() =~= self.input@.skip(self.offset + 1));
            if c == '"' {
                self.offset = self.offset + 1;
                let s = string_from_chars(output.as_slice());
                return Ok(s);
            } else if c == '\\' {
                if self.offset + 1 >= self.input.len() {
                    return Err(vdf_error(VdfErrorKind::UnterminatedEscape));
                }
                let e = self.input[self.offset + 1];
                assert(self.rest()[1] == e);
                assert(self.rest().skip(2) =~= self.input@.skip(self.offset + 2));
                push_escape(&mut output, e);
                self.offset = self.offset + 2;
            } else {
                output.push(c);
                self.offset = self.offset + 1;
            }
        }
        Err(vdf_error(VdfErrorKind::UnterminatedString))
    }

    fn parse_bare(&mut self) -> (res: Result<String, AppError>)
        requires
            old(self).wf(),
        ensures
            final(self).wf(),
            final(self).input@ == old(self).input@,
            final(self).offset >= old(self).offset,
            match parse_bare(old(self).rest()) {
                Ok((token, q)) => res matches Ok(s) && s@ == token && final(self).rest() == q,
                Err(k) => res matches Err(AppError::InvalidVdf(m)) && m@ == error_text(k),
            },
    {
        let start = self.offset;
        let ghost r0 = self.rest();
        let mut token: Vec<char> = Vec::new();
        while self.offset < self.input.len() && self.input[self.offset] != '{'
            && self.input[self.offset] != '}' && !ascii_whitespace(self.input[self.offset])
            invariant
                self.wf(),
                self.input@ == old(self).input@,
                start <= self.offset,
                start == old(self).offset,
                r0 == old(self).rest(),
                token@ == r0.take(self.offset - start),
                bare_len(r0) == (self.offset - start) + bare_len(self.rest()),
            decreases self.input@.len() - self.offset,
        {
            let c = self.input[self.offset];
            assert(self.rest().drop_first() =~= self.input@.skip(self.offset + 1));
            token.push(c);
            self.offset = self.offset + 1;
            assert(token@ =~= r0.take(self.offset - start));
        }
        assert(bare_len(self.rest()) == 0);
        if self.offset == start {
            return Err(vdf_error(VdfErrorKind::ExpectedToken));
        }
        assert(r0.skip(self.offset - start) =~= self.rest());
        Ok(string_from_chars(token.as_slice()))
    }

    fn parse_token(&mut self) -> (res: Result<String, AppError>)
        requires
            old(self).wf(),
        ensures
            final(self).wf(),
            final(self).input@ == old(self).input@,
            final(self).offset >= old(self).offset,
            res is Ok ==> final(self).offset > old(self).offset,
            match parse_token(old(self).rest()) {
                Ok((token, q)) => res matches Ok(s) && s@ == token && final(self).rest() == q,
                Err(k) => res matches Err(AppError::InvalidVdf(m)) && m@ == error_text(k),
            },
    {
        proof {
            lemma_token_len(self.rest());
        }
        self.skip_ignored();
        match self.peek() {
            Some(c) => {
                if c == '"' {
                    self.parse_quoted()
                } else if c == '{' || c == '}' {
                    Err(vdf_error(VdfErrorKind::ExpectedToken))
                } else {
                    self.parse_bare()
                }
            },
            None => Err(vdf_error(VdfErrorKind::ExpectedToken)),
        }
    }

    fn parse_object(&mut self, nested: bool) -> (res: Result<VdfObject, AppError>)
        requires
            old(self).wf(),
        ensures
            final(self).wf(),
            final(self).input@ == old(self).input@,
            final(self).offset >= old(self).offset,
            match parse_entries(old(self).rest(), nested, seq![]) {
                Ok((entries, q)) => res matches Ok(o) && o@ == entries && final(self).rest() == q,
                Err(k) => res matches Err(AppError::InvalidVdf(m)) && m@ == error_text(k),
            },
        decreases old(self).input@.len() - old(self).offset,
    {
        let mut values: Vec<(String, VdfValue)> = Vec::new();
        let ghost target = parse_entries(self.rest(), nested, seq![]);
        assert(entries_view(values@) =~= seq![]);
        loop
            invariant
                self.wf(),
                self.input@ == old(self).input@,
                self.offset >= old(self).offset,
                target == parse_entries(old(self).rest(), nested, seq![]),
                parse_entries(self.rest(), nested, entries_view(values@)) == target,
            decreases self.input@.len() - self.offset,
        {
            let ghost r = self.rest();
            let ghost off = self.offset;
            self.skip_ignored();
            match self.peek() {
                None => {
                    if nested {
                        return Err(vdf_error(VdfErrorKind::UnterminatedObject));
                    } else {
                        return Ok(VdfObject { entries: values });
                    }
                },
                Some(c) => {
                    if c == '}' {
                        if nested {
                            assert(self.rest().drop_first() =~= self.input@.skip(self.offset + 1));
                            self.offset = self.offset + 1;
                            return Ok(VdfObject { entries: values });
                        } else {
                            return Err(vdf_error(VdfErrorKind::UnexpectedClosingBrace));
                        }
                    }
                },
            }
            let key = match self.parse_token() {
                Ok(k) => k,
                Err(e) => {
                    return Err(e);
                },
            };
            self.skip_ignored();
            let ghost t2 = self.rest();
            let ghost off2 = self.offset;
            let opens = match self.peek() {
                Some(c) => c == '{',
                None => false,
            };
            let value = if opens {
                assert(self.rest().drop_first() =~= self.input@.skip(self.offset + 1));
                self.offset = self.offset + 1;
                let inner = match self.parse_object(true) {
                    Ok(o) => o,
                    Err(e) => {
                        return Err(e);
                    },
                };
                proof {
                    lemma_object_view(inner);
                    assert(self.rest().len() < t2.len());
                }
                VdfValue::Object(inner)
            } else {
                match self.parse_token() {
                    Ok(s) => VdfValue::String(s),
                    Err(e) => {
                        return Err(e);
                    },
                }
            };
            insert_entry(&mut values, key, value);
        }
    }
}

/// Parses a KeyValues text into its top-level object.
pub fn parse(input: &str) -> (res: Result<VdfObject, AppError>)
    ensures
        match spec_parse(input@) {
            Ok(entries) => res matches Ok(o) && o@ == entries,
            Err(k) => res matches Err(AppError::InvalidVdf(m)) && m@ == error_text(k),
        },
{
    let chars = chars_of(input);
    let n = chars.len();
    let mut parser = Parser { input: chars, offset: 0 };
    assert(parser.input@.len() == n);
    assert(parser.rest() =~= input@);
    let result = match parser.parse_object(false) {
        Ok(o) => o,
        Err(e) => {
            return Err(e);
        },
    };
    parser.skip_ignored();
    if parser.peek().is_some() {
        return Err(vdf_error(VdfErrorKind::TrailingData));
    }
    Ok(result)
}

impl VdfValue {
    /// The object, when this value is one.
    pub fn object(&self) -> (r: Option<&VdfObject>)
        ensures
            match *self {
                VdfValue::Object(o) => r == Some(&o),
                VdfValue::String(_) => r is None,
            },
    {
        match self {
            VdfValue::Object(value) => Some(value),
            VdfValue::String(_) => None,
        }
    }

    /// The string, when this value is one.
    pub fn string(&self) -> (r: Option<&str>)
        ensures
            match *self {
                VdfValue::String(s) => r matches Some(t) && t@ == s@,
                VdfValue::Object(_) => r is None,
            },
    {
        match self {
            VdfValue::String(value) => Some(value.as_str()),
            VdfValue::Object(_) => None,
        }
    }
}

impl VdfObject {
    /// The value stored under `key`.
    pub fn get(&self, key: &str) -> (r: Option<&VdfValue>)
        ensures
            match assoc_get(self@, key@) {
                Some(v) => r matches Some(x) && x@ == v,
                None => r is None,
            },
    {
        let wanted = owned(key);
        let ghost ev = self@;
        let mut i: usize = 0;
        while i < self.entries.len()
            invariant
                i <= self.entries@.len(),
                ev == self@,
                wanted@ == key@,
                find_key(ev, key@, 0) == find_key(ev, key@, i as int),
            decreases self.entries@.len() - i,
        {
            if self.entries[i].0 == wanted {
                return Some(&self.entries[i].1);
            }
            i = i + 1;
        }
        None
    }
}

} // verus!
