//! Canonical serialization of JSON values: the text that content addresses
//! and chain links are computed over.
use vstd::prelude::*;
use vstd::string::StringExecFns;
use crate::json::{Json, JsonValue, items_view, entries_view};
use crate::error::PolicyError;
use crate::hash::{sha256_str, sha256_text};
use crate::text::{
    chars_of,
    hex_digit,
    hex_digit_char,
    lemma_text_lt_irreflexive,
    lemma_text_lt_total,
    lemma_text_lt_transitive,
    text_lt,
    text_less,
};

verus! {

pub open spec fn null_text() -> Seq<char> {
    seq!['n', 'u', 'l', 'l']
}

pub open spec fn true_text() -> Seq<char> {
    seq!['t', 'r', 'u', 'e']
}

pub open spec fn false_text() -> Seq<char> {
    seq!['f', 'a', 'l', 's', 'e']
}

/// Line endings made uniform: each CR LF pair and each lone CR becomes LF.
pub open spec fn normalize_newlines(s: Seq<char>) -> Seq<char>
    decreases s.len(),
{
    if s.len() == 0 {
        s
    } else if s[0] == '\r' {
        if s.len() > 1 && s[1] == '\n' {
            seq!['\n'] + normalize_newlines(s.subrange(2, s.len() as int))
        } else {
            seq!['\n'] + normalize_newlines(s.subrange(1, s.len() as int))
        }
    } else {
        seq![s[0]] + normalize_newlines(s.subrange(1, s.len() as int))
    }
}

/// Unicode general category Cc: U+0000..U+001F and U+007F..U+009F.
pub open spec fn is_control_char(c: char) -> bool {
    (c as u32) < 0x20 || (0x7f <= (c as u32) && (c as u32) <= 0x9f)
}

/// How one character is written inside a quoted string.
pub open spec fn escape_char(c: char) -> Seq<char> {
    if c == '"' {
        seq!['\\', '"']
    } else if c == '\\' {
        seq!['\\', '\\']
    } else if c == '\n' {
        seq!['\\', 'n']
    } else if c == '\r' {
        seq!['\\', 'r']
    } else if c == '\t' {
        seq!['\\', 't']
    } else if is_control_char(c) {
        let v = c as u32 as int;
        seq![
            '\\',
            'u',
            hex_digit((v / 4096) % 16),
            hex_digit((v / 256) % 16),
            hex_digit((v / 16) % 16),
            hex_digit(v % 16),
        ]
    } else {
        seq![c]
    }
}

/// The characters of `s`, each escaped.
pub open spec fn escape_text(s: Seq<char>) -> Seq<char>
    decreases s.len(),
{
    if s.len() == 0 {
        Seq::empty()
    } else {
        escape_text(s.subrange(0, s.len() - 1)) + escape_char(s.last())
    }
}

/// A string literal: the escaped characters between double quotes.
pub open spec fn quoted_text(s: Seq<char>) -> Seq<char> {
    seq!['"'] + escape_text(s) + seq!['"']
}

/// The stable insertion of entry index `j` into `order`: after every entry
/// whose key is not greater than the key of entry `j`.
pub open spec fn insert_by_key(
    order: Seq<usize>,
    j: usize,
    es: Seq<(Seq<char>, Json)>,
) -> Seq<usize>
    decreases order.len(),
{
    if order.len() == 0 {
        seq![j]
    } else if text_lt(es[j as int].0, es[order[0] as int].0) {
        seq![j] + order
    } else {
        seq![order[0]] + insert_by_key(order.subrange(1, order.len() as int), j, es)
    }
}

/// The first `n` entry indices, stably sorted by key.
pub open spec fn key_order_upto(es: Seq<(Seq<char>, Json)>, n: nat) -> Seq<usize>
    decreases n,
{
    if n == 0 {
        Seq::empty()
    } else {
        insert_by_key(key_order_upto(es, (n - 1) as nat), (n - 1) as usize, es)
    }
}

/// The entry indices of an object, stably sorted by key.
pub open spec fn key_order(es: Seq<(Seq<char>, Json)>) -> Seq<usize> {
    key_order_upto(es, es.len())
}

/// The canonical text of a JSON value.
pub open spec fn canonical_text(v: Json) -> Seq<char>
    decreases v, 0nat,
{
    match v {
        Json::Null => null_text(),
        Json::Bool(b) => if b {
            true_text()
        } else {
            false_text()
        },
        Json::Number(_, t) => t,
        Json::Str(s) => quoted_text(normalize_newlines(s)),
        Json::Array(xs) => seq!['['] + items_text(xs) + seq![']'],
        Json::Object(es) => seq!['{'] + entries_text(es, key_order(es)) + seq!['}'],
    }
}

/// The canonical texts of `xs`, separated by commas.
pub open spec fn items_text(xs: Seq<Json>) -> Seq<char>
    decreases xs, 0nat,
{
    if xs.len() == 0 {
        Seq::empty()
    } else if xs.len() == 1 {
        canonical_text(xs[0])
    } else {
        items_text(xs.subrange(0, xs.len() - 1)) + seq![','] + canonical_text(xs[xs.len() - 1])
    }
}

/// Entry `j` of an object written as `key:value`.
pub open spec fn entry_text(es: Seq<(Seq<char>, Json)>, j: usize) -> Seq<char>
    decreases es, 0nat,
{
    if j < es.len() {
        quoted_text(es[j as int].0) + seq![':'] + canonical_text(es[j as int].1)
    } else {
        Seq::empty()
    }
}

/// The entries of an object in the given index order, separated by commas.
pub open spec fn entries_text(es: Seq<(Seq<char>, Json)>, order: Seq<usize>) -> Seq<char>
    decreases es, order.len() + 1,
{
    if order.len() == 0 {
        Seq::empty()
    } else if order.len() == 1 {
        entry_text(es, order[0])
    } else {
        entries_text(es, order.subrange(0, order.len() - 1)) + seq![','] + entry_text(
            es,
            order[order.len() - 1],
        )
    }
}

/// Appends the escaped form of `c`.
fn push_escaped_char(out: &mut String, c: char)
    ensures
        final(out)@ == old(out)@ + escape_char(c),
{
    let v = c as u32;
    if c == '"' {
        out.push('\\');
        out.push('"');
    } else if c == '\\' {
        out.push('\\');
        out.push('\\');
    } else if c == '\n' {
        out.push('\\');
        out.push('n');
    } else if c == '\r' {
        out.push('\\');
        out.push('r');
    } else if c == '\t' {
        out.push('\\');
        out.push('t');
    } else if v < 0x20 || (0x7f <= v && v <= 0x9f) {
        out.push('\\');
        out.push('u');
        out.push(hex_digit_char((v / 4096) % 16));
        out.push(hex_digit_char((v / 256) % 16));
        out.push(hex_digit_char((v / 16) % 16));
        out.push(hex_digit_char(v % 16));
    } else {
        out.push(c);
    }
    assert(final(out)@ =~= old(out)@ + escape_char(c));
}

/// Appends `s` as a quoted, escaped string literal.
fn push_quoted(out: &mut String, s: &Vec<char>)
    ensures
        final(out)@ == old(out)@ + quoted_text(s@),
{
    out.push('"');
    let ghost start = out@;
    let mut i: usize = 0;
    while i < s.len()
        invariant
            i <= s@.len(),
            out@ == start + escape_text(s@.subrange(0, i as int)),
        decreases s@.len() - i,
    {
        let ghost pre = s@.subrange(0, i as int + 1);
        assert(pre.subrange(0, pre.len() - 1) =~= s@.subrange(0, i as int));
        push_escaped_char(out, s[i]);
        i += 1;
    }
    assert(s@.subrange(0, s@.len() as int) =~= s@);
    out.push('"');
    assert(out@ =~= old(out)@ + quoted_text(s@));
}

/// `s` with line endings made uniform.
fn normalized_newlines(s: &Vec<char>) -> (r: Vec<char>)
    ensures
        r@ == normalize_newlines(s@),
{
    let mut out: Vec<char> = Vec::new();
    let n = s.len();
    let mut i: usize = 0;
    assert(s@.subrange(0, n as int) =~= s@);
    while i < n
        invariant
            n == s@.len(),
            i <= n,
            out@ + normalize_newlines(s@.subrange(i as int, n as int)) == normalize_newlines(s@),
        decreases n - i,
    {
        let ghost rest = s@.subrange(i as int, n as int);
        if s[i] == '\r' {
            out.push('\n');
            if i + 1 < n && s[i + 1] == '\n' {
                assert(rest.subrange(2, rest.len() as int) =~= s@.subrange(i + 2, n as int));
                i += 2;
            } else {
                assert(rest.subrange(1, rest.len() as int) =~= s@.subrange(i + 1, n as int));
                i += 1;
            }
        } else {
            out.push(s[i]);
            assert(rest.subrange(1, rest.len() as int) =~= s@.subrange(i + 1, n as int));
            i += 1;
        }
        assert(out@ + normalize_newlines(s@.subrange(i as int, n as int)) =~= normalize_newlines(s@));
    }
    assert(normalize_newlines(s@.subrange(n as int, n as int)) =~= Seq::empty());
    assert(out@ =~= normalize_newlines(s@));
    out
}

proof fn lemma_insert_at(order: Seq<usize>, j: usize, es: Seq<(Seq<char>, Json)>, p: int)
    requires
        0 <= p <= order.len(),
        forall|k: int| 0 <= k < p ==> !text_lt(es[j as int].0, #[trigger] es[order[k] as int].0),
        p < order.len() ==> text_lt(es[j as int].0, es[order[p] as int].0),
    ensures
        insert_by_key(order, j, es) == order.subrange(0, p).push(j) + order.subrange(
            p,
            order.len() as int,
        ),
    decreases order.len(),
{
    if order.len() == 0 {
        assert(order.subrange(0, p).push(j) + order.subrange(p, order.len() as int) =~= seq![j]);
    } else if p == 0 {
        assert(order.subrange(0, p).push(j) + order.subrange(p, order.len() as int) =~= seq![j]
            + order);
    } else {
        let tail = order.subrange(1, order.len() as int);
        assert forall|k: int| 0 <= k < p - 1 implies !text_lt(
            es[j as int].0,
            #[trigger] es[tail[k] as int].0,
        ) by {
            assert(tail[k] == order[k + 1]);
        }
        lemma_insert_at(tail, j, es, p - 1);
        assert(seq![order[0]] + (tail.subrange(0, p - 1).push(j) + tail.subrange(
            p - 1,
            tail.len() as int,
        )) =~= order.subrange(0, p).push(j) + order.subrange(p, order.len() as int));
    }
}

/// The entry indices of an object, stably sorted by key; `keys` holds the
/// characters of each key.
fn sorted_key_order(entries: &Vec<(String, JsonValue)>, keys: &Vec<Vec<char>>) -> (r: Vec<usize>)
    requires
        keys@.len() == entries@.len(),
        forall|k: int| 0 <= k < keys@.len() ==> #[trigger] keys@[k]@ == entries@[k].0@,
    ensures
        r@ == key_order(entries_view(entries@)),
        forall|k: int| 0 <= k < r@.len() ==> #[trigger] r@[k] < entries@.len(),
        r@.len() == entries@.len(),
{
    let ghost es = entries_view(entries@);
    let n = entries.len();
    let mut order: Vec<usize> = Vec::new();
    let mut i: usize = 0;
    while i < n
        invariant
            n == entries@.len(),
            es == entries_view(entries@),
            keys@.len() == n,
            forall|k: int| 0 <= k < n ==> #[trigger] keys@[k]@ == entries@[k].0@,
            i <= n,
            order@ == key_order_upto(es, i as nat),
            order@.len() == i,
            forall|k: int| 0 <= k < order@.len() ==> #[trigger] order@[k] < i,
        decreases n - i,
    {
        let mut p: usize = 0;
        while p < order.len() && !text_less(&keys[i], &keys[order[p]])
            invariant
                n == entries@.len(),
                es == entries_view(entries@),
                keys@.len() == n,
                forall|k: int| 0 <= k < n ==> #[trigger] keys@[k]@ == entries@[k].0@,
                i < n,
                order@.len() == i,
                forall|k: int| 0 <= k < order@.len() ==> #[trigger] order@[k] < i,
                p <= order@.len(),
                forall|k: int|
                    0 <= k < p ==> !text_lt(es[i as int].0, #[trigger] es[order@[k] as int].0),
            decreases order@.len() - p,
        {
            p += 1;
        }
        proof {
            lemma_insert_at(order@, i, es, p as int);
        }
        order.insert(p, i);
        assert(order@ =~= key_order_upto(es, (i + 1) as nat));
        i += 1;
    }
    order
}

/// Appends the canonical text of `v`.
#[verifier::loop_isolation(false)]
fn write_canonical(out: &mut String, v: &JsonValue)
    ensures
        final(out)@ == old(out)@ + canonical_text(v@),
    decreases v,
{
    match v {
        JsonValue::Null => {
            out.append("null");
            proof {
                reveal_strlit("null");
            }
            assert(final(out)@ =~= old(out)@ + canonical_text(v@));
        },
        JsonValue::Bool(b) => {
            if *b {
                out.append("true");
                proof {
                    reveal_strlit("true");
                }
            } else {
                out.append("false");
                proof {
                    reveal_strlit("false");
                }
            }
            assert(final(out)@ =~= old(out)@ + canonical_text(v@));
        },
        JsonValue::Number(n) => {
            out.append(n.text.as_str());
        },
        JsonValue::String(s) => {
            let cs = chars_of(s.as_str());
            let normalized = normalized_newlines(&cs);
            push_quoted(out, &normalized);
        },
        JsonValue::Array(items) => write_array(out, items),
        JsonValue::Object(entries) => write_object(out, entries),
    }
}

/// Appends the canonical text of an array with the given elements.
#[verifier::loop_isolation(false)]
fn write_array(out: &mut String, items: &Vec<JsonValue>)
    ensures
        final(out)@ == old(out)@ + seq!['['] + items_text(items_view(items@)) + seq![']'],
    decreases items,
{
    let ghost xs = items_view(items@);
    let ghost start = out@;
    out.push('[');
    let mut i: usize = 0;
    while i < items.len()
        invariant
            i <= items@.len(),
            out@ == start + seq!['['] + items_text(xs.subrange(0, i as int)),
        decreases items@.len() - i,
    {
        assert(decreases_to!(items => items@));
        let ghost pre = xs.subrange(0, i as int + 1);
        assert(pre.subrange(0, pre.len() - 1) =~= xs.subrange(0, i as int));
        assert(xs[i as int] == items@[i as int]@);
        if i > 0 {
            out.push(',');
        }
        write_canonical(out, &items[i]);
        i += 1;
        assert(out@ =~= start + seq!['['] + items_text(xs.subrange(0, i as int)));
    }
    assert(xs.subrange(0, items@.len() as int) =~= xs);
    out.push(']');
    assert(out@ =~= start + seq!['['] + items_text(items_view(items@)) + seq![']']);
}

/// Appends the canonical text of an object with the given entries.
#[verifier::loop_isolation(false)]
fn write_object(out: &mut String, entries: &Vec<(String, JsonValue)>)
    ensures
        final(out)@ == old(out)@ + seq!['{'] + entries_text(
            entries_view(entries@),
            key_order(entries_view(entries@)),
        ) + seq!['}'],
    decreases entries,
{
    let ghost es = entries_view(entries@);
    let ghost start = out@;
    let n = entries.len();
    let mut keys: Vec<Vec<char>> = Vec::new();
    let mut k: usize = 0;
    while k < n
        invariant
            n == entries@.len(),
            k <= n,
            keys@.len() == k,
            forall|q: int| 0 <= q < k ==> #[trigger] keys@[q]@ == entries@[q].0@,
        decreases n - k,
    {
        keys.push(chars_of(entries[k].0.as_str()));
        k += 1;
    }
    let order = sorted_key_order(entries, &keys);
    let ghost ord = order@;
    out.push('{');
    let mut i: usize = 0;
    while i < n
        invariant
            n == entries@.len(),
            ord == order@,
            ord == key_order(es),
            ord.len() == n,
            forall|q: int| 0 <= q < ord.len() ==> #[trigger] ord[q] < n,
            forall|q: int| 0 <= q < n ==> #[trigger] keys@[q]@ == entries@[q].0@,
            i <= n,
            out@ == start + seq!['{'] + entries_text(es, ord.subrange(0, i as int)),
        decreases n - i,
    {
        assert(decreases_to!(entries => entries@));
        let idx = order[i];
        let ghost pre = ord.subrange(0, i as int + 1);
        assert(pre.subrange(0, pre.len() - 1) =~= ord.subrange(0, i as int));
        assert(es[idx as int] == (entries@[idx as int].0@, entries@[idx as int].1@));
        assert(es.len() == n);
        assert(pre[pre.len() - 1] == idx);
        assert(entry_text(es, idx) == quoted_text(keys@[idx as int]@) + seq![':']
            + canonical_text(entries@[idx as int].1@));
        let ghost before = out@;
        if i > 0 {
            out.push(',');
        }
        push_quoted(out, &keys[idx]);
        out.push(':');
        write_canonical(out, &entries[idx].1);
        assert(i > 0 ==> out@ =~= before + seq![','] + entry_text(es, idx));
        assert(i == 0 ==> out@ =~= before + entry_text(es, idx));
        i += 1;
        assert(out@ =~= start + seq!['{'] + entries_text(es, ord.subrange(0, i as int)));
    }
    assert(ord.subrange(0, n as int) =~= ord);
    out.push('}');
    assert(out@ =~= start + seq!['{'] + entries_text(entries_view(entries@), key_order(entries_view(entries@))) + seq!['}']);
}

/// The canonical text of `value`: no insignificant whitespace, object
/// entries ordered by key, strings escaped after their line endings are made
/// uniform, numbers as the parser rendered them.
pub fn canonicalize(value: &JsonValue) -> (r: Result<String, PolicyError>)
    ensures
        r matches Ok(s) && s@ == canonical_text(value@),
{
    let mut out = String::new();
    write_canonical(&mut out, value);
    Ok(out)
}

/// The SHA-256 hex digest of the canonical text of `value`.
pub fn canonical_hash(value: &JsonValue) -> (r: Result<String, PolicyError>)
    ensures
        r matches Ok(s) && s@ == sha256_text(canonical_text(value@)),
{
    let canonical = canonicalize(value)?;
    Ok(sha256_str(canonical.as_str()))
}

/// The entries of an object without those whose key is `key`.
pub open spec fn without_key(es: Seq<(Seq<char>, Json)>, key: Seq<char>) -> Seq<(Seq<char>, Json)>
    decreases es.len(),
{
    if es.len() == 0 {
        es
    } else {
        let rest = without_key(es.subrange(0, es.len() - 1), key);
        if es.last().0 == key {
            rest
        } else {
            rest.push(es.last())
        }
    }
}

/// `value` without the entry named `field` when it is an object; otherwise
/// `value` unchanged.
pub fn remove_field(value: &JsonValue, field: &str) -> (r: JsonValue)
    ensures
        r@ == match value@ {
            Json::Object(es) => Json::Object(without_key(es, field@)),
            _ => value@,
        },
{
    match value {
        JsonValue::Object(entries) => {
            let ghost es = entries_view(entries@);
            let key = String::from_str(field);
            let mut out: Vec<(String, JsonValue)> = Vec::new();
            let mut i: usize = 0;
            while i < entries.len()
                invariant
                    es == entries_view(entries@),
                    i <= entries@.len(),
                    entries_view(out@) == without_key(es.subrange(0, i as int), field@),
                    key@ == field@,
                decreases entries@.len() - i,
            {
                let ghost pre = es.subrange(0, i as int + 1);
                assert(pre.subrange(0, pre.len() - 1) =~= es.subrange(0, i as int));
                assert(pre.last() == (entries@[i as int].0@, entries@[i as int].1@));
                if entries[i].0 != key {
                    let ghost old_out = out@;
                    let copy = entries[i].1.deep_copy();
                    out.push((entries[i].0.clone(), copy));
                    assert(entries_view(out@) =~= entries_view(old_out).push(pre.last()));
                }
                i += 1;
            }
            assert(es.subrange(0, entries@.len() as int) =~= es);
            JsonValue::Object(out)
        },
        _ => value.deep_copy(),
    }
}

/// No two entries share a key, as in every JSON object.
pub open spec fn distinct_keys(es: Seq<(Seq<char>, Json)>) -> bool {
    forall|a: int, b: int| 0 <= a < b < es.len() ==> es[a].0 != es[b].0
}

/// The indices of `order` name entries whose keys never decrease.
pub open spec fn keys_ascending(es: Seq<(Seq<char>, Json)>, order: Seq<usize>) -> bool {
    forall|a: int, b: int|
        0 <= a < b < order.len() ==> !text_lt(
            #[trigger] es[order[b] as int].0,
            #[trigger] es[order[a] as int].0,
        )
}

/// The entries of an object in canonical order.
pub open spec fn ordered_entries(es: Seq<(Seq<char>, Json)>) -> Seq<(Seq<char>, Json)> {
    let order = key_order(es);
    Seq::new(order.len(), |k: int| es[order[k] as int])
}

proof fn lemma_insert_shape(order: Seq<usize>, j: usize, es: Seq<(Seq<char>, Json)>) -> (p: int)
    ensures
        0 <= p <= order.len(),
        forall|k: int| 0 <= k < p ==> !text_lt(es[j as int].0, #[trigger] es[order[k] as int].0),
        p < order.len() ==> text_lt(es[j as int].0, es[order[p] as int].0),
        insert_by_key(order, j, es) == order.subrange(0, p).push(j) + order.subrange(
            p,
            order.len() as int,
        ),
    decreases order.len(),
{
    if order.len() == 0 || text_lt(es[j as int].0, es[order[0] as int].0) {
        lemma_insert_at(order, j, es, 0);
        0
    } else {
        let tail = order.subrange(1, order.len() as int);
        let q = lemma_insert_shape(tail, j, es);
        assert forall|k: int| 0 <= k < q + 1 implies !text_lt(
            es[j as int].0,
            #[trigger] es[order[k] as int].0,
        ) by {
            if k > 0 {
                assert(tail[k - 1] == order[k]);
            }
        }
        if q + 1 < order.len() {
            assert(tail[q] == order[q + 1]);
        }
        lemma_insert_at(order, j, es, q + 1);
        q + 1
    }
}

proof fn lemma_key_order_upto(es: Seq<(Seq<char>, Json)>, n: nat)
    requires
        n <= es.len(),
        es.len() <= usize::MAX,
    ensures
        key_order_upto(es, n).len() == n,
        forall|k: int| 0 <= k < n ==> #[trigger] key_order_upto(es, n)[k] < n,
        forall|i: usize| i < n ==> #[trigger] key_order_upto(es, n).contains(i),
        forall|a: int, b: int|
            0 <= a < b < n ==> key_order_upto(es, n)[a] != key_order_upto(es, n)[b],
        keys_ascending(es, key_order_upto(es, n)),
    decreases n,
{
    if n > 0 {
        let m = (n - 1) as nat;
        lemma_key_order_upto(es, m);
        let prev = key_order_upto(es, m);
        let j = m as usize;
        let p = lemma_insert_shape(prev, j, es);
        let o = key_order_upto(es, n);
        assert(o == prev.subrange(0, p).push(j) + prev.subrange(p, prev.len() as int));
        assert forall|k: int| 0 <= k < n implies #[trigger] o[k] == (if k < p {
            prev[k]
        } else if k == p {
            j
        } else {
            prev[k - 1]
        }) by {}
        assert forall|k: int| 0 <= k < n implies #[trigger] o[k] < n by {
            if k < p {
                assert(prev[k] < m);
            } else if k > p {
                assert(prev[k - 1] < m);
            }
        }
        assert forall|i: usize| i < n implies #[trigger] o.contains(i) by {
            if i == m {
                assert(o[p] == i);
            } else {
                assert(prev.contains(i));
                let k0 = choose|k: int| 0 <= k < m && #[trigger] prev[k] == i;
                if k0 < p {
                    assert(o[k0] == i);
                } else {
                    assert(o[k0 + 1] == i);
                }
            }
        }
        assert forall|a: int, b: int| 0 <= a < b < n implies o[a] != o[b] by {
            if a < p && b < p {
                assert(o[a] == prev[a] && o[b] == prev[b]);
                assert(prev[a] != prev[b]);
            } else if a < p && b == p {
                assert(o[a] == prev[a] && o[b] == j);
                assert(prev[a] < m);
            } else if a < p {
                assert(o[a] == prev[a] && o[b] == prev[b - 1]);
                assert(prev[a] != prev[b - 1]);
            } else if a == p {
                assert(o[a] == j && o[b] == prev[b - 1]);
                assert(prev[b - 1] < m);
            } else {
                assert(o[a] == prev[a - 1] && o[b] == prev[b - 1]);
                assert(prev[a - 1] != prev[b - 1]);
            }
        }
        let kj = es[j as int].0;
        assert forall|a: int, b: int| 0 <= a < b < o.len() implies !text_lt(
            #[trigger] es[o[b] as int].0,
            #[trigger] es[o[a] as int].0,
        ) by {
            if b < p {
                assert(!text_lt(es[prev[b] as int].0, es[prev[a] as int].0));
            } else if b == p {
                assert(!text_lt(kj, es[prev[a] as int].0));
            } else if a == p {
                let kp = es[prev[p] as int].0;
                let kb = es[prev[b - 1] as int].0;
                assert(text_lt(kj, kp));
                if text_lt(kb, kj) {
                    lemma_text_lt_transitive(kb, kj, kp);
                    if b - 1 == p {
                        lemma_text_lt_irreflexive(kp);
                    } else {
                        assert(!text_lt(kb, kp));
                    }
                }
            } else if a < p {
                assert(!text_lt(es[prev[b - 1] as int].0, es[prev[a] as int].0));
            } else {
                assert(!text_lt(es[prev[b - 1] as int].0, es[prev[a - 1] as int].0));
            }
        }
    }
}

/// Strictly ascending keys.
pub open spec fn keys_strictly_ascending(xs: Seq<(Seq<char>, Json)>) -> bool {
    forall|a: int, b: int| 0 <= a < b < xs.len() ==> text_lt(#[trigger] xs[a].0, #[trigger] xs[b].0)
}

proof fn lemma_ordered_entries(es: Seq<(Seq<char>, Json)>)
    requires
        distinct_keys(es),
        es.len() <= usize::MAX,
    ensures
        keys_strictly_ascending(ordered_entries(es)),
        forall|e: (Seq<char>, Json)| ordered_entries(es).contains(e) <==> es.contains(e),
        ordered_entries(es).len() == es.len(),
{
    lemma_key_order_upto(es, es.len());
    let o = key_order(es);
    let xs = ordered_entries(es);
    assert forall|a: int, b: int| 0 <= a < b < xs.len() implies text_lt(
        #[trigger] xs[a].0,
        #[trigger] xs[b].0,
    ) by {
        assert(!text_lt(es[o[b] as int].0, es[o[a] as int].0));
        assert(o[a] != o[b]);
        if o[a] < o[b] {
            assert(es[o[a] as int].0 != es[o[b] as int].0);
        } else {
            assert(es[o[b] as int].0 != es[o[a] as int].0);
        }
        lemma_text_lt_total(es[o[a] as int].0, es[o[b] as int].0);
    }
    assert forall|e: (Seq<char>, Json)| xs.contains(e) <==> es.contains(e) by {
        if xs.contains(e) {
            let k = choose|k: int| 0 <= k < xs.len() && xs[k] == e;
            assert(es[o[k] as int] == e);
        }
        if es.contains(e) {
            let i = choose|i: int| 0 <= i < es.len() && es[i] == e;
            assert(o.contains(i as usize));
            let k = choose|k: int| 0 <= k < es.len() && #[trigger] o[k] == i as usize;
            assert(xs[k] == e);
        }
    }
}

proof fn lemma_strictly_ascending_unique(xs: Seq<(Seq<char>, Json)>, ys: Seq<(Seq<char>, Json)>)
    requires
        keys_strictly_ascending(xs),
        keys_strictly_ascending(ys),
        forall|e: (Seq<char>, Json)| xs.contains(e) <==> ys.contains(e),
    ensures
        xs == ys,
    decreases xs.len(),
{
    if xs.len() == 0 {
        if ys.len() > 0 {
            assert(ys.contains(ys[0]));
        }
        assert(xs =~= ys);
    } else {
        assert(xs.contains(xs[0]));
        if ys.len() == 0 {
            assert(false);
        }
        assert(ys.contains(ys[0]));
        let i = choose|i: int| 0 <= i < ys.len() && ys[i] == xs[0];
        let j = choose|j: int| 0 <= j < xs.len() && xs[j] == ys[0];
        if i > 0 {
            assert(text_lt(ys[0].0, ys[i].0));
            if j > 0 {
                assert(text_lt(xs[0].0, xs[j].0));
                lemma_text_lt_transitive(xs[0].0, xs[j].0, xs[0].0);
            }
            lemma_text_lt_irreflexive(xs[0].0);
        }
        let xt = xs.subrange(1, xs.len() as int);
        let yt = ys.subrange(1, ys.len() as int);
        assert forall|e: (Seq<char>, Json)| xt.contains(e) <==> yt.contains(e) by {
            if xt.contains(e) {
                let k = choose|k: int| 0 <= k < xt.len() && xt[k] == e;
                assert(xs[k + 1] == e);
                assert(text_lt(xs[0].0, xs[k + 1].0));
                assert(ys.contains(e));
                let m = choose|m: int| 0 <= m < ys.len() && ys[m] == e;
                if m == 0 {
                    lemma_text_lt_irreflexive(xs[0].0);
                }
                assert(yt[m - 1] == e);
            }
            if yt.contains(e) {
                let k = choose|k: int| 0 <= k < yt.len() && yt[k] == e;
                assert(ys[k + 1] == e);
                assert(text_lt(ys[0].0, ys[k + 1].0));
                assert(xs.contains(e));
                let m = choose|m: int| 0 <= m < xs.len() && xs[m] == e;
                if m == 0 {
                    lemma_text_lt_irreflexive(ys[0].0);
                }
                assert(xt[m - 1] == e);
            }
        }
        lemma_strictly_ascending_unique(xt, yt);
        assert(xs =~= seq![xs[0]] + xt);
        assert(ys =~= seq![ys[0]] + yt);
    }
}

proof fn lemma_entries_text_same(
    es1: Seq<(Seq<char>, Json)>,
    o1: Seq<usize>,
    es2: Seq<(Seq<char>, Json)>,
    o2: Seq<usize>,
)
    requires
        o1.len() == o2.len(),
        forall|k: int| #![trigger o1[k]] 0 <= k < o1.len() ==> o1[k] < es1.len(),
        forall|k: int| #![trigger o2[k]] 0 <= k < o2.len() ==> o2[k] < es2.len(),
        forall|k: int|
            #![trigger o1[k]]
            0 <= k < o1.len() ==> es1[o1[k] as int] == es2[o2[k] as int],
    ensures
        entries_text(es1, o1) == entries_text(es2, o2),
    decreases o1.len(),
{
    if o1.len() > 0 {
        let last = o1.len() - 1;
        assert(o1[last] < es1.len() && o2[last] < es2.len());
        assert(es1[o1[last] as int] == es2[o2[last] as int]);
        assert(entry_text(es1, o1[last]) == entry_text(es2, o2[last]));
    }
    if o1.len() > 1 {
        let p1 = o1.subrange(0, o1.len() - 1);
        let p2 = o2.subrange(0, o2.len() - 1);
        assert forall|k: int| 0 <= k < p1.len() implies #[trigger] p1[k] < es1.len() by {
            assert(p1[k] == o1[k]);
        }
        assert forall|k: int| 0 <= k < p2.len() implies #[trigger] p2[k] < es2.len() by {
            assert(p2[k] == o2[k]);
        }
        assert forall|k: int| 0 <= k < p1.len() implies es1[#[trigger] p1[k] as int]
            == es2[p2[k] as int] by {
            assert(p1[k] == o1[k] && p2[k] == o2[k]);
        }
        lemma_entries_text_same(es1, p1, es2, p2);
    }
}

/// The canonical text of an object does not depend on the order of its
/// entries: two objects whose entries are permutations of each other, each
/// with distinct keys as JSON objects have, have the same canonical text.
pub proof fn lemma_key_order_independent(es1: Seq<(Seq<char>, Json)>, es2: Seq<(Seq<char>, Json)>)
    requires
        distinct_keys(es1),
        distinct_keys(es2),
        es1.to_multiset() == es2.to_multiset(),
        es1.len() <= usize::MAX,
        es2.len() <= usize::MAX,
    ensures
        canonical_text(Json::Object(es1)) == canonical_text(Json::Object(es2)),
{
    lemma_ordered_entries(es1);
    lemma_ordered_entries(es2);
    assert forall|e: (Seq<char>, Json)| es1.contains(e) <==> es2.contains(e) by {
        vstd::seq_lib::to_multiset_contains(es1, e);
        vstd::seq_lib::to_multiset_contains(es2, e);
    }
    let x1 = ordered_entries(es1);
    let x2 = ordered_entries(es2);
    assert forall|e: (Seq<char>, Json)| x1.contains(e) <==> x2.contains(e) by {
        assert(x1.contains(e) == es1.contains(e));
        assert(x2.contains(e) == es2.contains(e));
    }
    lemma_strictly_ascending_unique(x1, x2);
    lemma_key_order_upto(es1, es1.len());
    lemma_key_order_upto(es2, es2.len());
    let o1 = key_order(es1);
    let o2 = key_order(es2);
    assert forall|k: int| 0 <= k < o1.len() implies es1[#[trigger] o1[k] as int] == es2[o2[k] as int] by {
        assert(x1[k] == x2[k]);
    }
    lemma_entries_text_same(es1, o1, es2, o2);
}

/// A JSON value that parsing can produce: every object has distinct keys
/// and fits in memory.
pub open spec fn well_formed(v: Json) -> bool
    decreases v, 0nat,
{
    match v {
        Json::Array(xs) => items_well_formed(xs),
        Json::Object(es) => distinct_keys(es) && es.len() <= usize::MAX && entries_well_formed(
            es,
            es.len(),
        ),
        _ => true,
    }
}

pub open spec fn items_well_formed(xs: Seq<Json>) -> bool
    decreases xs, 0nat,
{
    xs.len() == 0 || (items_well_formed(xs.subrange(0, xs.len() - 1)) && well_formed(
        xs[xs.len() - 1],
    ))
}

pub open spec fn entries_well_formed(es: Seq<(Seq<char>, Json)>, n: nat) -> bool
    decreases es, n,
{
    n == 0 || n > es.len() || (entries_well_formed(es, (n - 1) as nat) && well_formed(
        es[n - 1].1,
    ))
}

/// The value that the canonical text of `v` denotes: strings with uniform
/// line endings, object entries in key order.
pub open spec fn canonical_form(v: Json) -> Json
    decreases v, 0nat,
{
    match v {
        Json::Str(s) => Json::Str(normalize_newlines(s)),
        Json::Array(xs) => Json::Array(item_forms(xs)),
        Json::Object(es) => Json::Object(entry_forms(es, key_order(es))),
        _ => v,
    }
}

pub open spec fn item_forms(xs: Seq<Json>) -> Seq<Json>
    decreases xs, 0nat,
{
    Seq::new(xs.len(), |i: int| if 0 <= i < xs.len() { canonical_form(xs[i]) } else { Json::Null })
}

pub open spec fn entry_forms(es: Seq<(Seq<char>, Json)>, order: Seq<usize>) -> Seq<(Seq<char>, Json)>
    decreases es, 0nat,
{
    Seq::new(
        order.len(),
        |k: int|
            if 0 <= k < order.len() && order[k] < es.len() {
                (es[order[k] as int].0, canonical_form(es[order[k] as int].1))
            } else {
                (Seq::empty(), Json::Null)
            },
    )
}

proof fn lemma_normalized_has_no_cr(s: Seq<char>)
    ensures
        !normalize_newlines(s).contains('\r'),
    decreases s.len(),
{
    if s.len() > 0 {
        if s[0] == '\r' && s.len() > 1 && s[1] == '\n' {
            lemma_normalized_has_no_cr(s.subrange(2, s.len() as int));
        } else {
            lemma_normalized_has_no_cr(s.subrange(1, s.len() as int));
        }
        let r = normalize_newlines(s);
        if r.contains('\r') {
            let k = choose|k: int| 0 <= k < r.len() && r[k] == '\r';
            if k > 0 {
                if s[0] == '\r' && s.len() > 1 && s[1] == '\n' {
                    assert(normalize_newlines(s.subrange(2, s.len() as int))[k - 1] == '\r');
                } else {
                    assert(normalize_newlines(s.subrange(1, s.len() as int))[k - 1] == '\r');
                }
            }
        }
    }
}

proof fn lemma_normalize_without_cr(s: Seq<char>)
    requires
        !s.contains('\r'),
    ensures
        normalize_newlines(s) == s,
    decreases s.len(),
{
    if s.len() > 0 {
        let t = s.subrange(1, s.len() as int);
        assert(!t.contains('\r')) by {
            if t.contains('\r') {
                let k = choose|k: int| 0 <= k < t.len() && t[k] == '\r';
                assert(s[k + 1] == '\r');
            }
        }
        assert(s[0] != '\r');
        lemma_normalize_without_cr(t);
        assert(seq![s[0]] + t =~= s);
    }
}

proof fn lemma_keys_ascending_order(es: Seq<(Seq<char>, Json)>, n: nat)
    requires
        n <= es.len(),
        es.len() <= usize::MAX,
        keys_strictly_ascending(es),
    ensures
        key_order_upto(es, n) == Seq::new(n, |k: int| k as usize),
    decreases n,
{
    if n > 0 {
        let m = (n - 1) as nat;
        lemma_key_order_upto(es, m);
        lemma_keys_ascending_order(es, m);
        let prev = key_order_upto(es, m);
        let j = m as usize;
        assert forall|k: int| 0 <= k < m implies !text_lt(
            es[j as int].0,
            #[trigger] es[prev[k] as int].0,
        ) by {
            assert(prev[k] == k as usize);
            assert(text_lt(es[k].0, es[m as int].0));
            if text_lt(es[m as int].0, es[k].0) {
                lemma_text_lt_transitive(es[k].0, es[m as int].0, es[k].0);
                lemma_text_lt_irreflexive(es[k].0);
            }
        }
        lemma_insert_at(prev, j, es, m as int);
        assert(prev.subrange(0, m as int).push(j) + prev.subrange(m as int, m as int) =~= Seq::new(
            n,
            |k: int| k as usize,
        ));
    }
}

proof fn lemma_entries_text_by_entry(
    es1: Seq<(Seq<char>, Json)>,
    o1: Seq<usize>,
    es2: Seq<(Seq<char>, Json)>,
    o2: Seq<usize>,
)
    requires
        o1.len() == o2.len(),
        forall|k: int|
            #![trigger o1[k]]
            0 <= k < o1.len() ==> entry_text(es1, o1[k]) == entry_text(es2, o2[k]),
    ensures
        entries_text(es1, o1) == entries_text(es2, o2),
    decreases o1.len(),
{
    if o1.len() > 0 {
        let last = o1.len() - 1;
        assert(entry_text(es1, o1[last]) == entry_text(es2, o2[last]));
    }
    if o1.len() > 1 {
        let p1 = o1.subrange(0, o1.len() - 1);
        let p2 = o2.subrange(0, o2.len() - 1);
        assert forall|k: int| 0 <= k < p1.len() implies entry_text(es1, #[trigger] p1[k])
            == entry_text(es2, p2[k]) by {
            assert(p1[k] == o1[k] && p2[k] == o2[k]);
        }
        lemma_entries_text_by_entry(es1, p1, es2, p2);
    }
}

proof fn lemma_entries_well_formed_at(es: Seq<(Seq<char>, Json)>, n: nat, j: int)
    requires
        n <= es.len(),
        entries_well_formed(es, n),
        0 <= j < n,
    ensures
        well_formed(es[j].1),
    decreases n,
{
    if j < n - 1 {
        lemma_entries_well_formed_at(es, (n - 1) as nat, j);
    }
}

proof fn lemma_items_form_text(xs: Seq<Json>)
    requires
        items_well_formed(xs),
    ensures
        items_text(item_forms(xs)) == items_text(xs),
    decreases xs, 0nat,
{
    let ys = item_forms(xs);
    if xs.len() > 0 {
        let n = xs.len();
        lemma_canonical_form_text(xs[n - 1]);
        assert(ys[n - 1] == canonical_form(xs[n - 1]));
        if n > 1 {
            let init = xs.subrange(0, n - 1);
            lemma_items_form_text(init);
            assert(ys.subrange(0, n - 1) =~= item_forms(init));
        }
    }
}

proof fn lemma_entry_forms_text(es: Seq<(Seq<char>, Json)>, o: Seq<usize>, m: nat)
    requires
        m <= o.len(),
        o.len() <= usize::MAX,
        forall|k: int| 0 <= k < o.len() ==> #[trigger] o[k] < es.len(),
        entries_well_formed(es, es.len()),
    ensures
        forall|k: int|
            0 <= k < m ==> entry_text(entry_forms(es, o), k as usize) == entry_text(
                es,
                #[trigger] o[k],
            ),
    decreases es, m,
{
    if m > 0 {
        lemma_entry_forms_text(es, o, (m - 1) as nat);
        let k = m - 1;
        let j = o[k];
        lemma_entries_well_formed_at(es, es.len(), j as int);
        assert(decreases_to!(es => es[j as int]));
        lemma_canonical_form_text(es[j as int].1);
        let fs = entry_forms(es, o);
        assert(fs[k as int] == (es[j as int].0, canonical_form(es[j as int].1)));
        assert(entry_text(fs, k as usize) == entry_text(es, j));
    }
}

/// Canonical determinism: re-canonicalizing the value that a canonical
/// text denotes gives that text again. `canonical_form(v)` is that value:
/// what reading the canonical text of `v` back yields, strings with uniform
/// line endings and entries in key order.
pub proof fn lemma_canonical_form_text(v: Json)
    requires
        well_formed(v),
    ensures
        canonical_text(canonical_form(v)) == canonical_text(v),
    decreases v, 0nat,
{
    match v {
        Json::Str(s) => {
            lemma_normalized_has_no_cr(s);
            lemma_normalize_without_cr(normalize_newlines(s));
        },
        Json::Array(xs) => {
            lemma_items_form_text(xs);
        },
        Json::Object(es) => {
            lemma_ordered_entries(es);
            lemma_key_order_upto(es, es.len());
            let o = key_order(es);
            let fs = entry_forms(es, o);
            let xs = ordered_entries(es);
            assert forall|a: int, b: int| 0 <= a < b < fs.len() implies text_lt(
                #[trigger] fs[a].0,
                #[trigger] fs[b].0,
            ) by {
                assert(fs[a].0 == xs[a].0 && fs[b].0 == xs[b].0);
            }
            lemma_keys_ascending_order(fs, fs.len());
            let id = key_order(fs);
            lemma_entry_forms_text(es, o, o.len());
            assert forall|k: int| 0 <= k < id.len() implies entry_text(fs, #[trigger] id[k])
                == entry_text(es, o[k]) by {
                assert(id[k] == k as usize);
            }
            lemma_entries_text_by_entry(fs, id, es, o);
        },
        _ => {},
    }
}

} // verus!