//! The dynamic value tree that policies and contexts carry: a JSON value.
use vstd::prelude::*;

verus! {

/// The mathematical form of a JSON value.
///
/// A number is its IEEE-754 binary64 bit pattern together with the text that
/// the parser produced for it.
pub enum Json {
    Null,
    Bool(bool),
    Number(u64, Seq<char>),
    Str(Seq<char>),
    Array(Seq<Json>),
    Object(Seq<(Seq<char>, Json)>),
}

/// A JSON number: its binary64 value, as bits, and its text as parsed.
#[derive(Debug)]
pub struct JsonNumber {
    /// The IEEE-754 binary64 bit pattern of the number's value.
    pub bits: u64,
    /// The number as the parser rendered it; canonical output keeps it as is.
    pub text: String,
}

/// A JSON value.
#[derive(Debug)]
pub enum JsonValue {
    Null,
    Bool(bool),
    Number(JsonNumber),
    String(String),
    Array(Vec<JsonValue>),
    Object(Vec<(String, JsonValue)>),
}

pub open spec fn items_view(items: Seq<JsonValue>) -> Seq<Json>
    decreases items,
{
    Seq::new(items.len(), |i: int| if 0 <= i < items.len() { items[i].view() } else { Json::Null })
}

pub open spec fn entries_view(entries: Seq<(String, JsonValue)>) -> Seq<(Seq<char>, Json)>
    decreases entries,
{
    Seq::new(
        entries.len(),
        |i: int|
            if 0 <= i < entries.len() {
                (entries[i].0@, entries[i].1.view())
            } else {
                (Seq::empty(), Json::Null)
            },
    )
}

impl View for JsonValue {
    type V = Json;

    open spec fn view(&self) -> Json
        decreases self,
    {
        match self {
            JsonValue::Null => Json::Null,
            JsonValue::Bool(b) => Json::Bool(*b),
            JsonValue::Number(n) => Json::Number(n.bits, n.text@),
            JsonValue::String(s) => Json::Str(s@),
            JsonValue::Array(items) => Json::Array(items_view(items@)),
            JsonValue::Object(entries) => Json::Object(entries_view(entries@)),
        }
    }
}

pub const SIGN_BIT: u64 = 0x8000_0000_0000_0000;

pub const INFINITY_MAGNITUDE: u64 = 0x7ff0_0000_0000_0000;

/// The magnitude part (all bits but the sign) of a binary64 pattern.
pub open spec fn magnitude_bits(bits: u64) -> int {
    (bits % SIGN_BIT) as int
}

/// Whether a binary64 pattern is a NaN: all exponent bits set, nonzero fraction.
pub open spec fn is_nan_bits(bits: u64) -> bool {
    magnitude_bits(bits) > INFINITY_MAGNITUDE
}

/// An integer that orders binary64 values (other than NaN) exactly as their
/// numeric values are ordered: the magnitude bits grow with the magnitude, and
/// the sign flips them. Both zeros get key 0.
pub open spec fn float_order_key(bits: u64) -> int {
    if bits < SIGN_BIT {
        magnitude_bits(bits)
    } else {
        -magnitude_bits(bits)
    }
}

/// Numeric equality of two binary64 values; a NaN equals nothing.
pub open spec fn number_eq(a: u64, b: u64) -> bool {
    !is_nan_bits(a) && !is_nan_bits(b) && float_order_key(a) == float_order_key(b)
}

/// JSON value equality: same kind and recursively equal; numbers compare by
/// value, arrays element by element, objects as sets of entries.
pub open spec fn json_eq(a: Json, b: Json) -> bool
    decreases a, 0nat,
{
    match a {
        Json::Null => b is Null,
        Json::Bool(x) => b == Json::Bool(x),
        Json::Number(x, _) => match b {
            Json::Number(y, _) => number_eq(x, y),
            _ => false,
        },
        Json::Str(s) => b == Json::Str(s),
        Json::Array(xs) => match b {
            Json::Array(ys) => arrays_eq(xs, ys),
            _ => false,
        },
        Json::Object(xs) => match b {
            Json::Object(ys) => entries_within(xs, ys) && entries_cover(xs, ys),
            _ => false,
        },
    }
}

/// Element-wise equality of two arrays.
pub open spec fn arrays_eq(xs: Seq<Json>, ys: Seq<Json>) -> bool
    decreases xs, 0nat,
{
    if xs.len() == 0 {
        ys.len() == 0
    } else {
        ys.len() != 0 && json_eq(xs[0], ys[0]) && arrays_eq(
            xs.subrange(1, xs.len() as int),
            ys.subrange(1, ys.len() as int),
        )
    }
}

proof fn lemma_arrays_eq_len(xs: Seq<Json>, ys: Seq<Json>)
    requires
        arrays_eq(xs, ys),
    ensures
        xs.len() == ys.len(),
    decreases xs.len(),
{
    if xs.len() > 0 {
        lemma_arrays_eq_len(xs.subrange(1, xs.len() as int), ys.subrange(1, ys.len() as int));
    }
}

/// Every entry of `xs` has an entry of `ys` with the same key and an equal value.
pub open spec fn entries_within(xs: Seq<(Seq<char>, Json)>, ys: Seq<(Seq<char>, Json)>) -> bool
    decreases xs, 0nat,
{
    if xs.len() == 0 {
        true
    } else {
        entry_found(xs[0], ys) && entries_within(xs.subrange(1, xs.len() as int), ys)
    }
}

/// `ys` holds an entry with the key of `e` and a value equal to that of `e`.
pub open spec fn entry_found(e: (Seq<char>, Json), ys: Seq<(Seq<char>, Json)>) -> bool
    decreases e, ys.len(),
{
    if ys.len() == 0 {
        false
    } else {
        (ys[0].0 == e.0 && json_eq(e.1, ys[0].1)) || entry_found(e, ys.subrange(1, ys.len() as int))
    }
}

/// Every entry of `ys` has an entry of `xs` with the same key and an equal value.
pub open spec fn entries_cover(xs: Seq<(Seq<char>, Json)>, ys: Seq<(Seq<char>, Json)>) -> bool
    decreases xs, ys.len() + 1,
{
    if ys.len() == 0 {
        true
    } else {
        entry_matched(xs, ys[0]) && entries_cover(xs, ys.subrange(1, ys.len() as int))
    }
}

/// `xs` holds an entry with the key of `e` and a value equal to that of `e`.
pub open spec fn entry_matched(xs: Seq<(Seq<char>, Json)>, e: (Seq<char>, Json)) -> bool
    decreases xs, 0nat,
{
    if xs.len() == 0 {
        false
    } else {
        (xs[0].0 == e.0 && json_eq(xs[0].1, e.1)) || entry_matched(xs.subrange(1, xs.len() as int), e)
    }
}

impl JsonNumber {
    /// The ordering key of this number's binary64 value.
    pub fn order_key(&self) -> (r: i64)
        ensures
            r == float_order_key(self.bits),
    {
        let magnitude = self.bits % SIGN_BIT;
        if self.bits < SIGN_BIT {
            magnitude as i64
        } else {
            -(magnitude as i64)
        }
    }

    /// Whether this number's binary64 value is a NaN.
    pub fn is_nan(&self) -> (r: bool)
        ensures
            r == is_nan_bits(self.bits),
    {
        self.bits % SIGN_BIT > INFINITY_MAGNITUDE
    }

    /// Numeric equality with another number.
    pub fn same_value(&self, other: &JsonNumber) -> (r: bool)
        ensures
            r == number_eq(self.bits, other.bits),
    {
        !self.is_nan() && !other.is_nan() && self.order_key() == other.order_key()
    }
}

impl JsonValue {
    /// A copy of this value, with the same model.
    #[verifier::loop_isolation(false)]
    pub fn deep_copy(&self) -> (r: JsonValue)
        ensures
            r@ == self@,
        decreases self,
    {
        match self {
            JsonValue::Null => JsonValue::Null,
            JsonValue::Bool(b) => JsonValue::Bool(*b),
            JsonValue::Number(n) => JsonValue::Number(
                JsonNumber { bits: n.bits, text: n.text.clone() },
            ),
            JsonValue::String(s) => JsonValue::String(s.clone()),
            JsonValue::Array(items) => {
                let mut out: Vec<JsonValue> = Vec::new();
                let mut i: usize = 0;
                while i < items.len()
                    invariant
                        i <= items@.len(),
                        out@.len() == i,
                        forall|k: int| 0 <= k < i ==> #[trigger] out@[k]@ == items@[k]@,
                    decreases items@.len() - i,
                {
                    assert(decreases_to!(self => items));
                    let c = items[i].deep_copy();
                    out.push(c);
                    i += 1;
                }
                let r = JsonValue::Array(out);
                assert(r@ == self@) by {
                    assert forall|k: int| 0 <= k < out@.len() implies items_view(out@)[k]
                        == items_view(items@)[k] by {
                        assert(out@[k]@ == items@[k]@);
                    }
                    assert(items_view(out@) =~= items_view(items@));
                }
                r
            },
            JsonValue::Object(entries) => {
                let mut out: Vec<(String, JsonValue)> = Vec::new();
                let mut i: usize = 0;
                while i < entries.len()
                    invariant
                        i <= entries@.len(),
                        out@.len() == i,
                        forall|k: int|
                            0 <= k < i ==> #[trigger] out@[k].0@ == entries@[k].0@ && out@[k].1@
                                == entries@[k].1@,
                    decreases entries@.len() - i,
                {
                    assert(decreases_to!(self => entries));
                    let c = entries[i].1.deep_copy();
                    out.push((entries[i].0.clone(), c));
                    i += 1;
                }
                let r = JsonValue::Object(out);
                assert(r@ == self@) by {
                    assert(entries_view(out@) =~= entries_view(entries@));
                }
                r
            },
        }
    }
}

/// JSON value equality, as `json_eq` states it.
#[verifier::loop_isolation(false)]
pub fn json_equal(a: &JsonValue, b: &JsonValue) -> (r: bool)
    ensures
        r == json_eq(a@, b@),
    decreases a,
{
    match a {
        JsonValue::Null => match b {
            JsonValue::Null => true,
            _ => false,
        },
        JsonValue::Bool(x) => match b {
            JsonValue::Bool(y) => *x == *y,
            _ => false,
        },
        JsonValue::Number(x) => match b {
            JsonValue::Number(y) => x.same_value(y),
            _ => false,
        },
        JsonValue::String(x) => match b {
            JsonValue::String(y) => *x == *y,
            _ => false,
        },
        JsonValue::Array(xs) => match b {
            JsonValue::Array(ys) => {
                let ghost av = items_view(xs@);
                let ghost bv = items_view(ys@);
                assert(av.subrange(0, av.len() as int) =~= av);
                assert(bv.subrange(0, bv.len() as int) =~= bv);
                if xs.len() != ys.len() {
                    proof {
                        if arrays_eq(av, bv) {
                            lemma_arrays_eq_len(av, bv);
                        }
                    }
                    return false;
                }
                let n = xs.len();
                let mut i: usize = 0;
                while i < n
                    invariant
                        i <= n,
                        json_eq(a@, b@) == arrays_eq(
                            av.subrange(i as int, n as int),
                            bv.subrange(i as int, n as int),
                        ),
                    decreases n - i,
                {
                    assert(decreases_to!(a => xs));
                    let ghost sa = av.subrange(i as int, n as int);
                    let ghost sb = bv.subrange(i as int, n as int);
                    assert(sa.subrange(1, sa.len() as int) =~= av.subrange(i + 1, n as int));
                    assert(sb.subrange(1, sb.len() as int) =~= bv.subrange(i + 1, n as int));
                    assert(sa[0] == xs@[i as int]@);
                    assert(sb[0] == ys@[i as int]@);
                    if !json_equal(&xs[i], &ys[i]) {
                        return false;
                    }
                    i += 1;
                }
                true
            },
            _ => false,
        },
        JsonValue::Object(xs) => match b {
            JsonValue::Object(ys) => {
                let ghost ex = entries_view(xs@);
                let ghost ey = entries_view(ys@);
                let n = xs.len();
                let m = ys.len();
                assert(ex.subrange(0, n as int) =~= ex);
                assert(ey.subrange(0, m as int) =~= ey);
                let mut i: usize = 0;
                while i < n
                    invariant
                        i <= n,
                        entries_within(ex, ey) == entries_within(ex.subrange(i as int, n as int), ey),
                    decreases n - i,
                {
                    let ghost e = ex[i as int];
                    let mut found = false;
                    let mut j: usize = 0;
                    while j < m && !found
                        invariant
                            j <= m,
                            entry_found(e, ey) == (found || entry_found(e, ey.subrange(j as int, m as int))),
                        decreases m - j,
                    {
                        assert(decreases_to!(a => xs));
                        let ghost t = ey.subrange(j as int, m as int);
                        assert(t.subrange(1, t.len() as int) =~= ey.subrange(j + 1, m as int));
                        if xs[i].0 == ys[j].0 && json_equal(&xs[i].1, &ys[j].1) {
                            found = true;
                        }
                        j += 1;
                    }
                    let ghost w = ex.subrange(i as int, n as int);
                    assert(w.subrange(1, w.len() as int) =~= ex.subrange(i + 1, n as int));
                    if !found {
                        return false;
                    }
                    i += 1;
                }
                let mut j: usize = 0;
                while j < m
                    invariant
                        j <= m,
                        entries_within(ex, ey),
                        entries_cover(ex, ey) == entries_cover(ex, ey.subrange(j as int, m as int)),
                    decreases m - j,
                {
                    let ghost e = ey[j as int];
                    let mut found = false;
                    let mut i: usize = 0;
                    while i < n && !found
                        invariant
                            i <= n,
                            entry_matched(ex, e) == (found || entry_matched(ex.subrange(i as int, n as int), e)),
                        decreases n - i,
                    {
                        assert(decreases_to!(a => xs));
                        let ghost t = ex.subrange(i as int, n as int);
                        assert(t.subrange(1, t.len() as int) =~= ex.subrange(i + 1, n as int));
                        if xs[i].0 == ys[j].0 && json_equal(&xs[i].1, &ys[j].1) {
                            found = true;
                        }
                        i += 1;
                    }
                    let ghost w = ey.subrange(j as int, m as int);
                    assert(w.subrange(1, w.len() as int) =~= ey.subrange(j + 1, m as int));
                    if !found {
                        return false;
                    }
                    j += 1;
                }
                true
            },
            _ => false,
        },
    }
}

} // verus!
