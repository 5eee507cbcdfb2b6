//! JSON documents, read and written by `serde_json`.
//!
//! A document is a tree. A field of an object is looked up by name; what is
//! not there reads as null.
use vstd::prelude::*;

use vstd::arithmetic::power::lemma_pow_increases;
use vstd::arithmetic::power::lemma_pow_positive;
use vstd::arithmetic::power2::lemma2_to64;
use vstd::arithmetic::power2::lemma2_to64_rest;
use vstd::arithmetic::power2::lemma_pow2_adds;
use vstd::arithmetic::power2::lemma_pow2_unfold;
use vstd::arithmetic::power2::pow2;

use crate::number::lemma_width;
use crate::number::width;
use crate::number::Real32;
use crate::seqs::first_index;
use crate::seqs::is_first;
use crate::seqs::lemma_first_index;
use crate::seqs::lemma_first_index_found;
use crate::seqs::is_last;
use crate::seqs::last_index;
use crate::seqs::lemma_last_index;
use crate::text::same;

verus! {

#[verifier::external_type_specification]
#[verifier::external_body]
pub struct ExValue(serde_json::Value);

#[verifier::external_type_specification]
#[verifier::external_body]
pub struct ExError(serde_json::Error);

/// A number of a document: whole and not negative, whole and negative, or
/// the bits of a 64-bit floating-point value.
#[derive(Debug, Clone, Copy, PartialEq, Eq, Structural)]
pub enum JsonNumber {
    Unsigned(u64),
    Signed(i64),
    Real(u64),
}

/// A document.
#[derive(Debug)]
pub enum Json {
    Null,
    Bool(bool),
    /// A number. A real one that is not finite stands for null.
    Number(JsonNumber),
    Text(String),
    Array(Vec<Json>),
    /// Fields, set one after the other.
    Object(Vec<(String, Json)>),
}

/// The tree of a document.
#[verifier::ext_equal]
pub enum JsonTree {
    Null,
    Bool(bool),
    Number(JsonNumber),
    Text(Seq<char>),
    Array(Seq<JsonTree>),
    Object(Seq<(Seq<char>, JsonTree)>),
}

/// The 64-bit value with these bits is neither infinite nor not a number.
pub open spec fn finite_bits(bits: u64) -> bool {
    (bits as int / 0x10_0000_0000_0000) % 0x800 != 0x7ff
}

/// The tree of a number.
pub open spec fn number_tree(n: JsonNumber) -> JsonTree {
    match n {
        JsonNumber::Signed(i) => if i >= 0 {
            JsonTree::Number(JsonNumber::Unsigned(i as u64))
        } else {
            JsonTree::Number(n)
        },
        JsonNumber::Real(bits) => if finite_bits(bits) {
            JsonTree::Number(n)
        } else {
            JsonTree::Null
        },
        _ => JsonTree::Number(n),
    }
}

pub open spec fn json_view(j: Json) -> JsonTree
    decreases j, 0nat,
{
    match j {
        Json::Null => JsonTree::Null,
        Json::Bool(b) => JsonTree::Bool(b),
        Json::Number(n) => number_tree(n),
        Json::Text(s) => JsonTree::Text(s@),
        Json::Array(v) => JsonTree::Array(
            Seq::new(
                v@.len(),
                |i: int|
                    if 0 <= i < v@.len() {
                        json_view(v@[i])
                    } else {
                        JsonTree::Null
                    },
            ),
        ),
        Json::Object(v) => fields_view(v@, v@.len()),
    }
}

/// The first `n` fields set one after the other.
pub open spec fn fields_view(s: Seq<(String, Json)>, n: nat) -> JsonTree
    decreases s, n,
{
    if n == 0 || n > s.len() {
        JsonTree::Object(Seq::empty())
    } else {
        fields_view(s, (n - 1) as nat).with(s[n - 1].0@, json_view(s[n - 1].1))
    }
}

impl View for Json {
    type V = JsonTree;

    open spec fn view(&self) -> JsonTree {
        json_view(*self)
    }
}

/// The trees of documents.
pub open spec fn trees(s: Seq<Json>) -> Seq<JsonTree> {
    Seq::new(s.len(), |i: int| s[i]@)
}

/// The trees of named documents.
pub open spec fn field_trees(s: Seq<(String, Json)>) -> Seq<(Seq<char>, JsonTree)> {
    Seq::new(s.len(), |i: int| (s[i].0@, s[i].1@))
}

pub open spec fn named(key: Seq<char>) -> spec_fn((Seq<char>, JsonTree)) -> bool {
    |f: (Seq<char>, JsonTree)| f.0 == key
}

/// The object with these fields set one after the other.
pub open spec fn chain(s: Seq<(Seq<char>, JsonTree)>) -> JsonTree
    decreases s.len(),
{
    if s.len() == 0 {
        JsonTree::Object(Seq::empty())
    } else {
        chain(s.drop_last()).with(s.last().0, s.last().1)
    }
}

/// No two fields have the same name.
pub open spec fn distinct_names(s: Seq<(Seq<char>, JsonTree)>) -> bool {
    forall|i: int, j: int| 0 <= i < j < s.len() ==> (#[trigger] s[i]).0 != (#[trigger] s[j]).0
}

/// The tree that a `serde_json::Value` holds.
pub uninterp spec fn value_tree(v: serde_json::Value) -> JsonTree;

/// The 64-bit bits of the value that has the given 32-bit ones: the same sign
/// and number, the exponent counted from 1023 in place of 127. A value below
/// the least exponent, `m` times 2 to the power of -149, has one of its own
/// in 64 bits. All bits are set for what is not finite.
pub open spec fn widened(bits: u32) -> u64 {
    let sign = bits as int / 0x8000_0000 * 0x8000_0000_0000_0000;
    let e = bits as int / 0x80_0000 % 0x100;
    let m = bits as int % 0x80_0000;
    let k = width(m);
    if e == 0xff {
        u64::MAX
    } else if e > 0 {
        (sign + (e + 896) * 0x10_0000_0000_0000 + m * 0x2000_0000) as u64
    } else if m == 0 {
        sign as u64
    } else {
        (sign + (873 + k) * 0x10_0000_0000_0000 + (m - pow2((k - 1) as nat)) * pow2(
            (53 - k) as nat,
        )) as u64
    }
}

/// The 32-bit value nearest to a number, as `serde_json::Value::as_f64` and a
/// narrowing give it.
pub uninterp spec fn narrowed(n: JsonNumber) -> Real32;

/// The tree that `serde_json::from_str` reads from a text, or the text of its
/// error.
pub uninterp spec fn json_tree(text: Seq<char>) -> Result<JsonTree, Seq<char>>;

/// The text that `serde_json::to_string_pretty` writes for a tree.
pub uninterp spec fn pretty_text(tree: JsonTree) -> Seq<char>;

/// What a `serde_json::Error` says of itself.
pub uninterp spec fn error_text(e: serde_json::Error) -> Seq<char>;

impl JsonTree {
    /// The field `key`, or null where there is none.
    pub open spec fn field(self, key: Seq<char>) -> JsonTree {
        match self {
            JsonTree::Object(fields) => match first_index(fields, named(key)) {
                Some(i) => fields[i].1,
                None => JsonTree::Null,
            },
            _ => JsonTree::Null,
        }
    }

    /// The object with the field `key` set to `x`: at its place where it was
    /// there, else at the end.
    pub open spec fn with(self, key: Seq<char>, x: JsonTree) -> JsonTree {
        match self {
            JsonTree::Object(fields) => match first_index(fields, named(key)) {
                Some(i) => JsonTree::Object(fields.update(i, (key, x))),
                None => JsonTree::Object(fields.push((key, x))),
            },
            _ => self,
        }
    }

    /// The object has a field `key`.
    pub open spec fn has(self, key: Seq<char>) -> bool {
        self matches JsonTree::Object(fields) && first_index(
            fields,
            named(key),
        ) is Some
    }

    /// The elements of an array; none of anything else.
    pub open spec fn items(self) -> Seq<JsonTree> {
        match self {
            JsonTree::Array(s) => s,
            _ => Seq::empty(),
        }
    }

    /// The text, where it is one.
    pub open spec fn text(self) -> Option<Seq<char>> {
        match self {
            JsonTree::Text(s) => Some(s),
            _ => None,
        }
    }

    /// The text, or an empty one.
    pub open spec fn text_or_empty(self) -> Seq<char> {
        match self {
            JsonTree::Text(s) => s,
            _ => Seq::empty(),
        }
    }

    /// The whole number, or zero.
    pub open spec fn whole_or_zero(self) -> u64 {
        match self {
            JsonTree::Number(JsonNumber::Unsigned(n)) => n,
            _ => 0,
        }
    }

    /// The number as a 32-bit value, or `other` where it is none.
    pub open spec fn real_or(self, other: Real32) -> Real32 {
        match self {
            JsonTree::Number(n) => narrowed(n),
            _ => other,
        }
    }
}

impl Real32 {
    /// Neither infinite nor not a number.
    pub open spec fn finite(self) -> bool {
        self.bits % 0x8000_0000 < 0x7f80_0000
    }
}

/// An object without fields.
pub open spec fn empty_object() -> JsonTree {
    JsonTree::Object(Seq::empty())
}

/// The tree of a whole number.
pub open spec fn whole_tree(n: u64) -> JsonTree {
    JsonTree::Number(JsonNumber::Unsigned(n))
}

/// The tree of a 32-bit value: a number, or null where it is not finite.
pub open spec fn real_tree(x: Real32) -> JsonTree {
    if x.finite() {
        JsonTree::Number(JsonNumber::Real(widened(x.bits)))
    } else {
        JsonTree::Null
    }
}

/// The text reads as the tree.
pub open spec fn reads_as(text: Seq<char>, tree: JsonTree) -> bool {
    json_tree(text) == Ok::<JsonTree, Seq<char>>(tree)
}

/// A finite value narrows back from the number that stands for it.
pub open spec fn kept(x: Real32) -> bool {
    x.finite() ==> narrowed(JsonNumber::Real(widened(x.bits))) == x
}

/// Arrays and objects are nested in each other at most `n` levels deep.
pub open spec fn nested(t: JsonTree, n: nat) -> bool
    decreases n,
{
    match t {
        JsonTree::Array(s) => n > 0 && forall|i: int|
            0 <= i < s.len() ==> nested(#[trigger] s[i], (n - 1) as nat),
        JsonTree::Object(s) => n > 0 && forall|i: int|
            0 <= i < s.len() ==> nested((#[trigger] s[i]).1, (n - 1) as nat),
        _ => true,
    }
}

/// What is nested no deeper than `n` is nested no deeper than any more.
pub proof fn lemma_nested_more(t: JsonTree, n: nat, m: nat)
    requires
        nested(t, n),
        n <= m,
    ensures
        nested(t, m),
    decreases n,
{
    match t {
        JsonTree::Array(s) => {
            assert forall|i: int| 0 <= i < s.len() implies nested(
                #[trigger] s[i],
                (m - 1) as nat,
            ) by {
                lemma_nested_more(s[i], (n - 1) as nat, (m - 1) as nat);
            }
        },
        JsonTree::Object(s) => {
            assert forall|i: int| 0 <= i < s.len() implies nested(
                (#[trigger] s[i]).1,
                (m - 1) as nat,
            ) by {
                lemma_nested_more(s[i].1, (n - 1) as nat, (m - 1) as nat);
            }
        },
        _ => {},
    }
}

/// Setting a field nests what was set one level deeper.
pub proof fn lemma_nested_with(t: JsonTree, key: Seq<char>, x: JsonTree, n: nat)
    requires
        t is Object,
        nested(t, n),
        nested(x, (n - 1) as nat),
    ensures
        t.with(key, x) is Object,
        nested(t.with(key, x), n),
{
    lemma_first_index_found(t->Object_0, named(key));
    let fields = t->Object_0;
    let after = t.with(key, x)->Object_0;
    assert forall|i: int| 0 <= i < after.len() implies nested(
        (#[trigger] after[i]).1,
        (n - 1) as nat,
    ) by {
        if i < fields.len() {
            assert(nested(fields[i].1, (n - 1) as nat));
        }
    }
}

/// One level of a `serde_json::Value`.
enum Level {
    Null,
    Bool(bool),
    Number(JsonNumber),
    Text(String),
    Array(Vec<serde_json::Value>),
    Object(Vec<(String, serde_json::Value)>),
}

spec fn level_tree(o: Level) -> JsonTree {
    match o {
        Level::Null => JsonTree::Null,
        Level::Bool(b) => JsonTree::Bool(b),
        Level::Number(n) => number_tree(n),
        Level::Text(s) => JsonTree::Text(s@),
        Level::Array(v) => JsonTree::Array(Seq::new(v@.len(), |i: int| value_tree(v@[i]))),
        Level::Object(v) => JsonTree::Object(
            Seq::new(v@.len(), |i: int| (v@[i].0@, value_tree(v@[i].1))),
        ),
    }
}

/// `serde_json::from_str` into a `Value`: the document, or an error. Of both
/// only the named result is said.
#[verifier::external_body]
fn parse_value(text: &str) -> (r: Result<serde_json::Value, serde_json::Error>)
    ensures
        match r {
            Ok(v) => json_tree(text@) == Ok::<JsonTree, Seq<char>>(value_tree(v)),
            Err(e) => json_tree(text@) == Err::<JsonTree, Seq<char>>(error_text(e)),
        },
{
    serde_json::from_str(text)
}

/// `serde_json::Error::to_string`.
#[verifier::external_body]
fn describe(e: &serde_json::Error) -> (r: String)
    ensures
        r@ == error_text(*e),
{
    e.to_string()
}

/// `serde_json::to_string_pretty` of a `Value`, which never fails. With the
/// feature `float_roundtrip`, `serde_json::from_str` reads the text as what
/// was written; it takes at most 127 levels of nesting.
#[verifier::external_body]
fn pretty_value(v: &serde_json::Value) -> (r: String)
    ensures
        r@ == pretty_text(value_tree(*v)),
        nested(value_tree(*v), 127) ==> reads_as(r@, value_tree(*v)),
{
    serde_json::to_string_pretty(v).unwrap_or_default()
}

/// The variant of a `serde_json::Value` with what it holds. A map has no two
/// fields with the same name.
#[verifier::external_body]
fn open_value(v: serde_json::Value) -> (r: Level)
    ensures
        level_tree(r) == value_tree(v),
        level_tree(r) matches JsonTree::Object(fields) ==> distinct_names(fields),
{
    match v {
        serde_json::Value::Null => Level::Null,
        serde_json::Value::Bool(b) => Level::Bool(b),
        serde_json::Value::Number(n) => Level::Number(match (n.as_u64(), n.as_i64()) {
            (Some(u), _) => JsonNumber::Unsigned(u),
            (None, Some(i)) => JsonNumber::Signed(i),
            (None, None) => JsonNumber::Real(n.as_f64().map_or(u64::MAX, |x| x.to_bits())),
        }),
        serde_json::Value::String(s) => Level::Text(s),
        serde_json::Value::Array(a) => Level::Array(a),
        serde_json::Value::Object(m) => Level::Object(m.into_iter().collect()),
    }
}

/// The `serde_json::Value` of a variant with what it holds, by its `From`
/// and `FromIterator` impls. Fields are set one after the other.
#[verifier::external_body]
fn close_value(o: Level) -> (r: serde_json::Value)
    ensures
        value_tree(r) == match level_tree(o) {
            JsonTree::Object(fields) => chain(fields),
            t => t,
        },
{
    match o {
        Level::Null => serde_json::Value::Null,
        Level::Bool(b) => serde_json::Value::from(b),
        Level::Number(JsonNumber::Unsigned(n)) => serde_json::Value::from(n),
        Level::Number(JsonNumber::Signed(n)) => serde_json::Value::from(n),
        Level::Number(JsonNumber::Real(bits)) => serde_json::Value::from(
            <byteorder::BigEndian as byteorder::ByteOrder>::read_f64(&bits.to_be_bytes()),
        ),
        Level::Text(s) => serde_json::Value::from(s),
        Level::Array(a) => serde_json::Value::from(a),
        Level::Object(fields) => fields.into_iter().collect(),
    }
}

/// A value is finite in 64 bits where it is in 32.
proof fn lemma_widened(bits: u32)
    ensures
        finite_bits(widened(bits)) == (Real32 { bits }).finite(),
{
    let s = bits as int / 0x8000_0000;
    let e = bits as int / 0x80_0000 % 0x100;
    let m = bits as int % 0x80_0000;
    let k = width(m);
    if 0 < e < 0xff {
        lemma_exponent(s, e + 896, m * 0x2000_0000);
    } else if e == 0 && m == 0 {
        lemma_exponent(s, 0, 0);
    } else if e == 0 {
        lemma_width(m);
        lemma2_to64();
        if k >= 24 {
            lemma_pow_increases(2, 23, (k - 1) as nat);
            lemma_pow_positive(2, 23);
        }
        assert(k <= 23);
        lemma_pow_positive(2, (53 - k) as nat);
        let a = m - pow2((k - 1) as nat);
        let f = a * pow2((53 - k) as nat);
        lemma_pow2_unfold(k);
        lemma_pow2_adds((k - 1) as nat, (53 - k) as nat);
        lemma2_to64_rest();
        assert(0 <= f < pow2((k - 1) as nat) * pow2((53 - k) as nat)) by (nonlinear_arith)
            requires
                0 <= a < pow2((k - 1) as nat),
                pow2((53 - k) as nat) > 0,
                f == a * pow2((53 - k) as nat),
        ;
        lemma_exponent(s, 873int + k, f);
    }
}

/// The exponent of a 64-bit value is where it was put.
proof fn lemma_exponent(s: int, e: int, f: int)
    requires
        0 <= s <= 1,
        0 <= e < 0x7ff,
        0 <= f < 0x10_0000_0000_0000,
    ensures
        ({
            let n = s * 0x8000_0000_0000_0000 + e * 0x10_0000_0000_0000 + f;
            0 <= n <= u64::MAX && n / 0x10_0000_0000_0000 % 0x800 == e
        }),
{
}

/// `serde_json::Value::from` a 32-bit floating-point value, as a number: the
/// same value in 64 bits, which narrows back to the one given. One that is not
/// finite gives null, for which bits stand that are not finite.
#[verifier::external_body]
fn widen(x: Real32) -> (r: JsonNumber)
    ensures
        r == JsonNumber::Real(widened(x.bits)),
        x.finite() ==> narrowed(r) == x,
{
    let x = <byteorder::BigEndian as byteorder::ByteOrder>::read_f32(&x.bits.to_be_bytes());
    JsonNumber::Real(serde_json::Value::from(x).as_f64().map_or(u64::MAX, |d| d.to_bits()))
}

/// `serde_json::Value::as_f64` of a number, narrowed to 32 bits: some value,
/// which is only named here.
#[verifier::external_body]
fn narrow(n: JsonNumber) -> (r: Real32)
    ensures
        r == narrowed(n),
{
    let v = match n {
        JsonNumber::Unsigned(n) => serde_json::Value::from(n),
        JsonNumber::Signed(n) => serde_json::Value::from(n),
        JsonNumber::Real(bits) => serde_json::Value::from(
            <byteorder::BigEndian as byteorder::ByteOrder>::read_f64(&bits.to_be_bytes()),
        ),
    };
    let mut out = [0u8; 4];
    <byteorder::BigEndian as byteorder::ByteOrder>::write_f32(&mut out, v.as_f64().unwrap_or_default() as _);
    Real32 { bits: u32::from_be_bytes(out) }
}

/// The elements in reverse order.
fn reversed<T>(v: Vec<T>) -> (r: Vec<T>)
    ensures
        r@ == v@.reverse(),
{
    let ghost all = v@;
    let mut rest = v;
    let mut out: Vec<T> = Vec::new();
    while rest.len() > 0
        invariant
            out@ + rest@.reverse() =~= all.reverse(),
        decreases rest@.len(),
    {
        let ghost b = rest@;
        if let Some(x) = rest.pop() {
            assert(b =~= rest@.push(x));
            out.push(x);
        }
    }
    out
}

/// The document that a value holds.
fn from_value(v: serde_json::Value) -> (r: Json)
    ensures
        r@ == value_tree(v),
    decreases value_tree(v),
{
    let ghost t = value_tree(v);
    match open_value(v) {
        Level::Null => Json::Null,
        Level::Bool(b) => Json::Bool(b),
        Level::Number(n) => Json::Number(n),
        Level::Text(s) => Json::Text(s),
        Level::Array(a) => {
            let ghost all = a@;
            let mut rest = a;
            let mut out: Vec<Json> = Vec::new();
            while rest.len() > 0
                invariant
                    t == value_tree(v),
                    rest@.len() + out@.len() == all.len(),
                    rest@ == all.take(rest@.len() as int),
                    t == JsonTree::Array(Seq::new(all.len(), |i: int| value_tree(all[i]))),
                    forall|i: int|
                        0 <= i < out@.len() ==> (#[trigger] out@[i])@
                            == t->Array_0[all.len() - 1 - i],
                decreases rest@.len(),
            {
                let ghost n = rest@.len() - 1;
                if let Some(x) = rest.pop() {
                    assert(x == all[n]);
                    assert(decreases_to!(t => t->Array_0));
                    assert(decreases_to!(t->Array_0 => t->Array_0[n]));
                    out.push(from_value(x));
                }
            }
            let items = reversed(out);
            let r = Json::Array(items);
            assert(r@->Array_0 =~= t->Array_0);
            r
        },
        Level::Object(a) => {
            let ghost all = a@;
            let mut rest = a;
            let mut out: Vec<(String, Json)> = Vec::new();
            while rest.len() > 0
                invariant
                    t == value_tree(v),
                    rest@.len() + out@.len() == all.len(),
                    rest@ == all.take(rest@.len() as int),
                    t == JsonTree::Object(
                        Seq::new(all.len(), |i: int| (all[i].0@, value_tree(all[i].1))),
                    ),
                    forall|i: int|
                        #![trigger out@[i]]
                        0 <= i < out@.len() ==> (out@[i].0@, out@[i].1@)
                            == t->Object_0[all.len() - 1 - i],
                decreases rest@.len(),
            {
                let ghost n = rest@.len() - 1;
                if let Some((k, x)) = rest.pop() {
                    assert((k, x) == all[n]);
                    assert(decreases_to!(t => t->Object_0));
                    assert(decreases_to!(t->Object_0 => t->Object_0[n]));
                    assert(decreases_to!(t->Object_0[n] => t->Object_0[n].1));
                    out.push((k, from_value(x)));
                }
            }
            let fields = reversed(out);
            let r = Json::Object(fields);
            proof {
                lemma_object_view(fields);
                assert(field_trees(fields@) =~= t->Object_0);
                lemma_chain_distinct(t->Object_0);
            }
            r
        },
    }
}

/// The value that holds a document.
fn to_value(j: Json) -> (r: serde_json::Value)
    ensures
        value_tree(r) == j@,
    decreases j,
{
    match j {
        Json::Null => close_value(Level::Null),
        Json::Bool(b) => close_value(Level::Bool(b)),
        Json::Number(n) => close_value(Level::Number(n)),
        Json::Text(s) => close_value(Level::Text(s)),
        Json::Array(a) => {
            let ghost all = a@;
            let mut rest = a;
            let mut out: Vec<serde_json::Value> = Vec::new();
            while rest.len() > 0
                invariant
                    decreases_to!(j => all),
                    rest@.len() + out@.len() == all.len(),
                    rest@ == all.take(rest@.len() as int),
                    forall|i: int|
                        0 <= i < out@.len() ==> value_tree(#[trigger] out@[i]) == all[all.len() - 1
                            - i]@,
                decreases rest@.len(),
            {
                let ghost n = rest@.len() - 1;
                if let Some(x) = rest.pop() {
                    assert(x == all[n]);
                    assert(decreases_to!(all => all[n]));
                    out.push(to_value(x));
                }
            }
            let items = reversed(out);
            let r = Level::Array(items);
            assert(level_tree(r)->Array_0 =~= j@->Array_0);
            close_value(r)
        },
        Json::Object(a) => {
            let ghost all = a@;
            let mut rest = a;
            let mut out: Vec<(String, serde_json::Value)> = Vec::new();
            while rest.len() > 0
                invariant
                    decreases_to!(j => all),
                    rest@.len() + out@.len() == all.len(),
                    rest@ == all.take(rest@.len() as int),
                    forall|i: int|
                        #![trigger out@[i]]
                        0 <= i < out@.len() ==> out@[i].0 == all[all.len() - 1 - i].0
                            && value_tree(out@[i].1) == all[all.len() - 1 - i].1@,
                decreases rest@.len(),
            {
                let ghost n = rest@.len() - 1;
                if let Some((k, x)) = rest.pop() {
                    assert((k, x) == all[n]);
                    assert(decreases_to!(all => all[n]));
                    assert(decreases_to!(all[n] => all[n].1));
                    out.push((k, to_value(x)));
                }
            }
            let fields = reversed(out);
            let r = Level::Object(fields);
            proof {
                lemma_object_view(a);
                assert(level_tree(r)->Object_0 =~= field_trees(all));
            }
            close_value(r)
        },
    }
}

/// The view of an object is its fields set one after the other.
proof fn lemma_object_view(v: Vec<(String, Json)>)
    ensures
        Json::Object(v)@ == chain(field_trees(v@)),
{
    lemma_fields_view(v@, v@.len());
    assert(field_trees(v@).take(v@.len() as int) =~= field_trees(v@));
}

proof fn lemma_fields_view(s: Seq<(String, Json)>, n: nat)
    requires
        n <= s.len(),
    ensures
        fields_view(s, n) == chain(field_trees(s).take(n as int)),
    decreases n,
{
    if n > 0 {
        lemma_fields_view(s, (n - 1) as nat);
        assert(field_trees(s).take(n as int).drop_last() =~= field_trees(s).take(n - 1));
    }
}

/// Fields with distinct names stand as they were set.
proof fn lemma_chain_distinct(s: Seq<(Seq<char>, JsonTree)>)
    requires
        distinct_names(s),
    ensures
        chain(s) == JsonTree::Object(s),
    decreases s.len(),
{
    if s.len() == 0 {
        assert(s =~= Seq::empty());
    } else {
        let t = s.drop_last();
        assert forall|i: int, j: int| 0 <= i < j < t.len() implies (#[trigger] t[i]).0 != (
        #[trigger] t[j]).0 by {
            assert(s[i].0 != s[j].0);
        }
        lemma_chain_distinct(t);
        let f = named(s.last().0);
        lemma_first_index_found(t, f);
        if let Some(i) = first_index(t, f) {
            assert(s[i].0 != s[s.len() - 1].0);
        }
        assert(t.push(s.last()) =~= s);
    }
}

/// A chain is an object, and a field reads as it was set last.
proof fn lemma_chain_field(s: Seq<(Seq<char>, JsonTree)>, key: Seq<char>)
    ensures
        chain(s) is Object,
        match last_index(s, named(key)) {
            Some(i) => 0 <= i < s.len() && chain(s).has(key) && chain(s).field(key) == s[i].1,
            None => !chain(s).has(key),
        },
    decreases s.len(),
{
    let f = named(key);
    if s.len() == 0 {
        lemma_first_index_found(Seq::<(Seq<char>, JsonTree)>::empty(), f);
        if let Some(i) = last_index(s, f) {
            assert(is_last(s, f, i));
        }
    } else {
        let t = s.drop_last();
        let x = s.last();
        lemma_chain_field(t, key);
        if x.0 == key {
            lemma_with_same(chain(t), key, x.1);
            lemma_last_index(s, f, s.len() - 1);
        } else {
            lemma_with_other(chain(t), x.0, x.1, key);
            match last_index(t, f) {
                Some(i) => {
                    assert(is_last(t, f, i));
                    assert forall|j: int| i < j < s.len() implies !f(#[trigger] s[j]) by {
                        if j < t.len() {
                            assert(!f(t[j]));
                        }
                    }
                    assert(is_last(s, f, i));
                    lemma_last_index(s, f, i);
                },
                None => {
                    if let Some(i) = last_index(s, f) {
                        assert(is_last(s, f, i));
                        assert(is_last(t, f, i)) by {
                            assert forall|j: int| i < j < t.len() implies !f(#[trigger] t[j]) by {
                                assert(!f(s[j]));
                            }
                        }
                    }
                },
            }
        }
    }
}

impl Json {
    /// The document that a text describes, or what is wrong with it.
    pub fn parse(text: &str) -> (r: Result<Json, String>)
        ensures
            match r {
                Ok(j) => json_tree(text@) == Ok::<JsonTree, Seq<char>>(j@),
                Err(e) => json_tree(text@) == Err::<JsonTree, Seq<char>>(e@),
            },
    {
        match parse_value(text) {
            Ok(v) => Ok(from_value(v)),
            Err(e) => Err(describe(&e)),
        }
    }

    /// The text of the document, indented.
    pub fn pretty(self) -> (r: String)
        ensures
            r@ == pretty_text(self@),
            nested(self@, 127) ==> reads_as(r@, self@),
    {
        let v = to_value(self);
        pretty_value(&v)
    }

    /// An object without fields.
    pub fn object() -> (r: Json)
        ensures
            r@ == empty_object(),
            r is Object,
    {
        let fields: Vec<(String, Json)> = Vec::new();
        proof {
            lemma_object_view(fields);
            assert(field_trees(fields@) =~= Seq::empty());
        }
        Json::Object(fields)
    }

    /// Set a field of an object.
    pub fn put(&mut self, key: &str, x: Json)
        requires
            *old(self) is Object,
        ensures
            *final(self) is Object,
            final(self)@ == old(self)@.with(key@, x@),
    {
        let ghost o = *self;
        let ghost t = x@;
        if let Json::Object(fields) = self {
            let ghost before = fields@;
            proof {
                lemma_object_view(o->Object_0);
            }
            fields.push((key.to_owned(), x));
            proof {
                lemma_object_view(*fields);
                assert(field_trees(fields@) =~= field_trees(before).push((key@, t)));
                assert(field_trees(fields@).drop_last() =~= field_trees(before));
            }
        }
    }

    /// A whole number.
    pub fn whole(n: u64) -> (r: Json)
        ensures
            r@ == whole_tree(n),
    {
        Json::Number(JsonNumber::Unsigned(n))
    }

    /// A 32-bit value; null where it is not finite.
    pub fn real32(x: Real32) -> (r: Json)
        ensures
            r@ == real_tree(x),
            kept(x),
    {
        proof {
            lemma_widened(x.bits);
        }
        Json::Number(widen(x))
    }

    /// A text.
    pub fn text(s: &str) -> (r: Json)
        ensures
            r@ == JsonTree::Text(s@),
    {
        Json::Text(s.to_owned())
    }

    /// An array.
    pub fn array(items: Vec<Json>) -> (r: Json)
        ensures
            r@ == JsonTree::Array(trees(items@)),
    {
        let r = Json::Array(items);
        assert(r@->Array_0 =~= trees(items@));
        r
    }

    /// The field `key`; none where there is none.
    pub fn get(&self, key: &str) -> (r: Option<&Json>)
        ensures
            match r {
                Some(x) => self@.has(key@) && x@ == self@.field(key@),
                None => !self@.has(key@) && self@.field(key@) == JsonTree::Null,
            },
    {
        match self {
            Json::Object(fields) => {
                let ghost s = field_trees(fields@);
                let ghost f = named(key@);
                let mut i: usize = fields.len();
                while i > 0
                    invariant
                        0 <= i <= fields@.len(),
                        *self == Json::Object(*fields),
                        s == field_trees(fields@),
                        f == named(key@),
                        forall|j: int| i <= j < s.len() ==> !f(#[trigger] s[j]),
                    decreases i,
                {
                    i -= 1;
                    assert(s[i as int] == (fields@[i as int].0@, fields@[i as int].1@));
                    if same(fields[i].0.as_str(), key) {
                        proof {
                            assert(is_last(s, f, i as int));
                            lemma_last_index(s, f, i as int);
                            lemma_object_view(*fields);
                            lemma_chain_field(s, key@);
                        }
                        return Some(&fields[i].1);
                    }
                }
                proof {
                    lemma_object_view(*fields);
                    lemma_chain_field(s, key@);
                    if let Some(k) = last_index(s, f) {
                        assert(is_last(s, f, k));
                    }
                }
                None
            },
            _ => None,
        }
    }

    /// Whether it is an object.
    pub fn is_object(&self) -> (r: bool)
        ensures
            r == (self@ is Object),
    {
        match self {
            Json::Object(fields) => {
                proof {
                    lemma_object_view(*fields);
                    lemma_chain_field(field_trees(fields@), Seq::empty());
                }
                true
            },
            _ => false,
        }
    }

    /// The elements, where it is an array.
    pub fn as_array(&self) -> (r: Option<&Vec<Json>>)
        ensures
            match r {
                Some(a) => self@ == JsonTree::Array(trees(a@)),
                None => !(self@ is Array),
            },
    {
        match self {
            Json::Array(a) => {
                assert(self@->Array_0 =~= trees(a@));
                Some(a)
            },
            Json::Object(fields) => {
                proof {
                    lemma_object_view(*fields);
                    lemma_chain_field(field_trees(fields@), Seq::empty());
                }
                None
            },
            _ => None,
        }
    }

    /// The text, where it is one.
    pub fn as_str(&self) -> (r: Option<&str>)
        ensures
            match r {
                Some(s) => self@ == JsonTree::Text(s@),
                None => !(self@ is Text),
            },
    {
        match self {
            Json::Text(s) => Some(s.as_str()),
            Json::Object(fields) => {
                proof {
                    lemma_object_view(*fields);
                    lemma_chain_field(field_trees(fields@), Seq::empty());
                }
                None
            },
            _ => None,
        }
    }

    /// The text of the field `key`, where it is one.
    pub fn text_field(&self, key: &str) -> (r: Option<&str>)
        ensures
            match r {
                Some(s) => self@.field(key@) == JsonTree::Text(s@),
                None => !(self@.field(key@) is Text),
            },
    {
        match self.get(key) {
            Some(x) => x.as_str(),
            None => None,
        }
    }

    /// The elements of the field `key`, where it is an array.
    pub fn array_field(&self, key: &str) -> (r: Option<&Vec<Json>>)
        ensures
            match r {
                Some(a) => self@.field(key@) == JsonTree::Array(trees(a@)),
                None => !(self@.field(key@) is Array),
            },
    {
        match self.get(key) {
            Some(x) => x.as_array(),
            None => None,
        }
    }

    /// The whole number in the field `key`, or zero.
    pub fn whole_field(&self, key: &str) -> (r: u64)
        ensures
            r == self@.field(key@).whole_or_zero(),
    {
        match self.get(key) {
            Some(x) => x.whole_or_zero(),
            None => 0,
        }
    }

    fn whole_or_zero(&self) -> (r: u64)
        ensures
            r == self@.whole_or_zero(),
    {
        match self {
            Json::Number(JsonNumber::Unsigned(n)) => *n,
            Json::Number(JsonNumber::Signed(n)) => if *n >= 0 {
                *n as u64
            } else {
                0
            },
            Json::Object(fields) => {
                proof {
                    lemma_object_view(*fields);
                    lemma_chain_field(field_trees(fields@), Seq::empty());
                }
                0
            },
            _ => 0,
        }
    }

    /// The number in the field `key` as a 32-bit value, or `other`.
    pub fn real_field(&self, key: &str, other: Real32) -> (r: Real32)
        ensures
            r == self@.field(key@).real_or(other),
    {
        match self.get(key) {
            Some(x) => x.real_or(other),
            None => other,
        }
    }

    fn real_or(&self, other: Real32) -> (r: Real32)
        ensures
            r == self@.real_or(other),
    {
        match self {
            Json::Number(JsonNumber::Unsigned(n)) => narrow(JsonNumber::Unsigned(*n)),
            Json::Number(JsonNumber::Signed(n)) => if *n >= 0 {
                narrow(JsonNumber::Unsigned(*n as u64))
            } else {
                narrow(JsonNumber::Signed(*n))
            },
            Json::Number(JsonNumber::Real(bits)) => if is_finite_bits(*bits) {
                narrow(JsonNumber::Real(*bits))
            } else {
                other
            },
            Json::Object(fields) => {
                proof {
                    lemma_object_view(*fields);
                    lemma_chain_field(field_trees(fields@), Seq::empty());
                }
                other
            },
            _ => other,
        }
    }
}

fn is_finite_bits(bits: u64) -> (r: bool)
    ensures
        r == finite_bits(bits),
{
    (bits / 0x10_0000_0000_0000) % 0x800 != 0x7ff
}

/// The field that was set reads as it was set.
pub proof fn lemma_with_same(t: JsonTree, key: Seq<char>, x: JsonTree)
    requires
        t is Object,
    ensures
        t.with(key, x) is Object,
        t.with(key, x).has(key),
        t.with(key, x).field(key) == x,
{
    let fields = t->Object_0;
    let f = named(key);
    lemma_first_index_found(fields, f);
    match first_index(fields, f) {
        Some(i) => {
            let after = fields.update(i, (key, x));
            assert(is_first(after, f, i)) by {
                assert forall|j: int| 0 <= j < i implies !f(#[trigger] after[j]) by {
                    assert(!f(fields[j]));
                }
            }
            lemma_first_index(after, f, i);
        },
        None => {
            let n = fields.len() as int;
            let after = fields.push((key, x));
            assert(is_first(after, f, n)) by {
                assert forall|j: int| 0 <= j < n implies !f(#[trigger] after[j]) by {
                    assert(!f(fields[j]));
                }
            }
            lemma_first_index(after, f, n);
        },
    }
}

/// What a field reads as after one was set.
pub broadcast proof fn lemma_with_field(
    t: JsonTree,
    key: Seq<char>,
    x: JsonTree,
    other: Seq<char>,
)
    requires
        t is Object,
    ensures
        #[trigger] t.with(key, x).field(other) == if other == key {
            x
        } else {
            t.field(other)
        },
{
    if other == key {
        lemma_with_same(t, key, x);
    } else {
        lemma_with_other(t, key, x, other);
    }
}

/// Setting a field of an object gives an object.
pub broadcast proof fn lemma_with_object(t: JsonTree, key: Seq<char>, x: JsonTree)
    requires
        t is Object,
    ensures
        #[trigger] t.with(key, x) is Object,
{
}

/// Every other field reads as before.
pub proof fn lemma_with_other(t: JsonTree, key: Seq<char>, x: JsonTree, other: Seq<char>)
    requires
        t is Object,
        other != key,
    ensures
        t.with(key, x) is Object,
        t.with(key, x).has(other) == t.has(other),
        t.with(key, x).field(other) == t.field(other),
{
    let fields = t->Object_0;
    let f = named(key);
    let g = named(other);
    lemma_first_index_found(fields, f);
    lemma_first_index_found(fields, g);
    let after = t.with(key, x)->Object_0;
    lemma_first_index_found(after, g);
    match first_index(fields, g) {
        Some(i) => {
            assert(is_first(after, g, i)) by {
                assert forall|j: int| 0 <= j < i implies !g(#[trigger] after[j]) by {
                    assert(!g(fields[j]));
                }
            }
            lemma_first_index(after, g, i);
        },
        None => {
            if let Some(k) = first_index(after, g) {
                if k < fields.len() {
                    assert(!g(fields[k]));
                }
            }
        },
    }
}

} // verus!
