//! Between JSON text and JSON values.
//!
//! Reading and writing text is the work of the `serde_json` crate. Its values are
//! turned into the values of [`Json`] and back here, member by member.

use vstd::prelude::*;
use vstd::utf8::encode_utf8;

use crate::json::{Json, JsonView, integer_of, items_view, members_view, number_view};
use crate::text::same;

verus! {

/// A value of the `serde_json` crate.
#[verifier::external_type_specification]
#[verifier::external_body]
pub struct ExValue(serde_json::Value);

/// What a value of the `serde_json` crate holds.
pub uninterp spec fn json_of(v: serde_json::Value) -> JsonView;

/// What `serde_json::from_str` reads in a text: a value, or the message of its
/// error.
pub uninterp spec fn json_text(text: Seq<char>) -> Result<JsonView, Seq<char>>;

/// What `serde_json::from_slice` reads in bytes: a value, or the message of its
/// error.
pub uninterp spec fn json_bytes(bytes: Seq<u8>) -> Result<JsonView, Seq<char>>;

/// What `serde_json::to_string_pretty` writes for a value.
pub uninterp spec fn json_pretty(v: JsonView) -> Seq<char>;

/// The key of raw JSON text in the `serde_json` crate. An object that starts with it is
/// not read as an object: what is read in its place is the text under the key.
pub open spec fn raw_key() -> Seq<char> {
    "$serde_json::private::RawValue"@
}

/// Whether a value nests no deeper than `depth` and holds no number but integers, and no
/// object with the key of raw text.
pub open spec fn storable(v: JsonView, depth: nat) -> bool
    decreases depth,
{
    match v {
        JsonView::Float(_) => false,
        JsonView::Array(items) => {
            &&& depth > 0
            &&& forall|i: int|
                0 <= i < items.len() ==> storable(#[trigger] items[i], (depth - 1) as nat)
        },
        JsonView::Object(m) => {
            &&& depth > 0
            &&& !m.contains_key(raw_key())
            &&& forall|k: Seq<char>| #[trigger]
                m.contains_key(k) ==> storable(m[k], (depth - 1) as nat)
        },
        _ => true,
    }
}

/// Whether a text is read as this value.
pub open spec fn reads_as(text: Seq<char>, v: JsonView) -> bool {
    json_text(text) matches Ok(j) && j == v
}

/// Whether bytes are read as this value.
pub open spec fn bytes_read_as(bytes: Seq<u8>, v: JsonView) -> bool {
    json_bytes(bytes) matches Ok(j) && j == v
}

/// Whether a text is what a value is stored as. It is read as the value, and so are its
/// bytes, where the value is storable.
pub open spec fn stored_as(text: Seq<char>, v: JsonView) -> bool {
    &&& text == json_pretty(v)
    &&& storable(v, depth_limit()) ==> reads_as(text, v) && bytes_read_as(encode_utf8(text), v)
}

/// How deep the values may nest that the `serde_json` crate reads.
pub open spec fn depth_limit() -> nat {
    127
}

/// `serde_json::from_str`, for a value. Its outcome is named: the value read, or
/// the message of the error.
#[verifier::external_body]
fn from_str(text: &str) -> (r: Result<serde_json::Value, String>)
    ensures
        match r {
            Ok(v) => reads_as(text@, json_of(v)),
            Err(m) => json_text(text@) matches Err(e) && e == m@,
        },
{
    serde_json::from_str::<serde_json::Value>(text).map_err(|e| e.to_string())
}

/// `serde_json::from_slice`, for a value. Its outcome is named: the value read, or
/// the message of the error.
#[verifier::external_body]
fn from_slice(bytes: &[u8]) -> (r: Result<serde_json::Value, String>)
    ensures
        match r {
            Ok(v) => json_bytes(bytes@) matches Ok(j) && j == json_of(v),
            Err(m) => json_bytes(bytes@) matches Err(e) && e == m@,
        },
{
    serde_json::from_slice::<serde_json::Value>(bytes).map_err(|e| e.to_string())
}

/// `serde_json::to_string_pretty`, of a value. It does not fail on a value, whose
/// keys are texts and whose numbers are finite. Its text is named, and
/// `serde_json::from_str` reads in it the value that was written, as does
/// `serde_json::from_slice` in its bytes, where three things hold. The value nests no
/// deeper than the reader allows. Its numbers are integers: of other numbers the reader
/// may miss the last digit. And none of its objects has the key by which the crate marks
/// raw text, where it is built with that feature: such an object is read as what the
/// text under the key stands for, or refused.
#[verifier::external_body]
fn to_string_pretty(v: &serde_json::Value) -> (r: Result<String, String>)
    ensures
        r is Ok,
        r matches Ok(text) ==> text@ == json_pretty(json_of(*v)),
        r matches Ok(text) ==> (storable(json_of(*v), depth_limit()) ==> reads_as(
            text@,
            json_of(*v),
        )),
        r matches Ok(text) ==> (storable(json_of(*v), depth_limit()) ==> bytes_read_as(
            encode_utf8(text@),
            json_of(*v),
        )),
{
    serde_json::to_string_pretty(v).map_err(|e| e.to_string())
}

/// One level of a value of the `serde_json` crate.
enum Node {
    Null,
    Bool(bool),
    Unsigned(u64),
    Signed(i64),
    Float(serde_json::Number),
    Text(String),
    Array(Vec<serde_json::Value>),
    Object(Vec<(String, serde_json::Value)>),
}

/// What a list of members holds: each key with the last value given for it.
spec fn entries_view(entries: Seq<(String, serde_json::Value)>) -> Map<Seq<char>, JsonView>
    decreases entries.len(),
{
    if entries.len() == 0 {
        Map::empty()
    } else {
        entries_view(entries.drop_last()).insert(entries.last().0@, json_of(entries.last().1))
    }
}

/// No key occurs twice.
spec fn distinct_keys(entries: Seq<(String, serde_json::Value)>) -> bool {
    forall|i: int, j: int|
        0 <= i < j < entries.len() ==> (#[trigger] entries[i]).0@ != (#[trigger] entries[j]).0@
}

impl Node {
    spec fn model(self) -> JsonView {
        match self {
            Node::Null => JsonView::Null,
            Node::Bool(b) => JsonView::Bool(b),
            Node::Unsigned(n) => JsonView::Integer(n as int),
            Node::Signed(n) => JsonView::Integer(n as int),
            Node::Float(n) => number_view(n),
            Node::Text(s) => JsonView::Text(s@),
            Node::Array(items) => JsonView::Array(
                items@.map_values(|v: serde_json::Value| json_of(v)),
            ),
            Node::Object(entries) => JsonView::Object(entries_view(entries@)),
        }
    }
}

/// Takes a `serde_json::Value` apart by one level: which kind of value it is, and
/// its parts. A number comes out as an integer where `as_u64` or `as_i64` gives one,
/// and otherwise as it is. The members of a `serde_json::Map` come out with each key
/// once.
#[verifier::external_body]
fn open_value(v: serde_json::Value) -> (r: Node)
    ensures
        r.model() == json_of(v),
        r matches Node::Float(n) ==> integer_of(n) is None,
        r matches Node::Object(entries) ==> distinct_keys(entries@),
{
    match v {
        serde_json::Value::Null => Node::Null,
        serde_json::Value::Bool(b) => Node::Bool(b),
        serde_json::Value::Number(n) => match (n.as_u64(), n.as_i64()) {
            (Some(u), _) => Node::Unsigned(u),
            (None, Some(i)) => Node::Signed(i),
            (None, None) => Node::Float(n),
        },
        serde_json::Value::String(s) => Node::Text(s),
        serde_json::Value::Array(items) => Node::Array(items),
        serde_json::Value::Object(members) => Node::Object(members.into_iter().collect()),
    }
}

/// Puts a `serde_json::Value` together from its parts, by one level. A number that is
/// put in as it is says what it said before, which may be an integer. The members go
/// into a `serde_json::Map`.
#[verifier::external_body]
fn close_value(n: Node) -> (r: serde_json::Value)
    requires
        n matches Node::Object(entries) ==> distinct_keys(entries@),
    ensures
        json_of(r) == n.model(),
{
    match n {
        Node::Null => serde_json::Value::Null,
        Node::Bool(b) => serde_json::Value::Bool(b),
        Node::Unsigned(u) => serde_json::Value::Number(serde_json::Number::from(u)),
        Node::Signed(i) => serde_json::Value::Number(serde_json::Number::from(i)),
        Node::Float(f) => serde_json::Value::Number(f),
        Node::Text(s) => serde_json::Value::String(s),
        Node::Array(items) => serde_json::Value::Array(items),
        Node::Object(entries) => serde_json::Value::Object(entries.into_iter().collect()),
    }
}

proof fn lemma_entries_finite(entries: Seq<(String, serde_json::Value)>)
    ensures
        entries_view(entries).dom().finite(),
    decreases entries.len(),
{
    if entries.len() > 0 {
        lemma_entries_finite(entries.drop_last());
    }
}

proof fn lemma_entry(entries: Seq<(String, serde_json::Value)>, i: int)
    requires
        distinct_keys(entries),
        0 <= i < entries.len(),
    ensures
        entries_view(entries).contains_key(entries[i].0@),
        entries_view(entries)[entries[i].0@] == json_of(entries[i].1),
    decreases entries.len(),
{
    if i < entries.len() - 1 {
        let head = entries.drop_last();
        assert(distinct_keys(head)) by {
            assert forall|a: int, b: int| 0 <= a < b < head.len() implies (#[trigger] head[a]).0@
                != (#[trigger] head[b]).0@ by {
                assert(head[a] == entries[a]);
                assert(head[b] == entries[b]);
            }
        }
        lemma_entry(head, i);
        assert(entries[i].0@ != entries[entries.len() - 1].0@);
    }
}

/// The value of this library that says the same as one of the `serde_json` crate.
pub fn decode(v: serde_json::Value) -> (r: Json)
    ensures
        r@ == json_of(v),
    decreases json_of(v),
{
    let ghost m = json_of(v);
    match open_value(v) {
        Node::Null => Json::Null,
        Node::Bool(b) => Json::Bool(b),
        Node::Unsigned(n) => Json::Unsigned(n),
        Node::Signed(n) => Json::Signed(n),
        Node::Float(n) => Json::Float(n),
        Node::Text(s) => Json::Text(s),
        Node::Array(items) => {
            let mut out: Vec<Json> = Vec::new();
            let ghost all = items@.map_values(|v: serde_json::Value| json_of(v));
            for item in it: items.into_iter()
                invariant
                    it.seq() == items@,
                    m == JsonView::Array(all),
                    m == json_of(v),
                    all == items@.map_values(|v: serde_json::Value| json_of(v)),
                    items_view(out@) == all.take(it.index()),
            {
                assert(json_of(item) == all[it.index()]);
                assert(decreases_to!(m => m->Array_0));
                assert(decreases_to!(all => all[it.index()]));
                let ghost before = out@;
                out.push(decode(item));
                assert(out@.drop_last() =~= before);
                assert(all.take(it.index() + 1) =~= all.take(it.index()).push(all[it.index()]));
            }
            assert(all.take(all.len() as int) =~= all);
            Json::Array(out)
        },
        Node::Object(entries) => {
            let mut out: Vec<(String, Json)> = Vec::new();
            let ghost map = entries_view(entries@);
            for entry in it: entries.into_iter()
                invariant
                    it.seq() == entries@,
                    distinct_keys(entries@),
                    m == JsonView::Object(map),
                    m == json_of(v),
                    map == entries_view(entries@),
                    members_view(out@) == entries_view(entries@.take(it.index())),
            {
                proof {
                    lemma_entry(entries@, it.index());
                    lemma_entries_finite(entries@);
                    assert(decreases_to!(m => m->Object_0));
                    assert(decreases_to!(map => map[entry.0@]));
                }
                let ghost before = out@;
                out.push((entry.0, decode(entry.1)));
                assert(out@.drop_last() =~= before);
                assert(entries@.take(it.index() + 1).drop_last() =~= entries@.take(it.index()));
            }
            assert(entries@.take(entries@.len() as int) =~= entries@);
            Json::Object(out)
        },
    }
}

proof fn lemma_entries_remove(entries: Seq<(String, serde_json::Value)>, i: int)
    requires
        distinct_keys(entries),
        0 <= i < entries.len(),
    ensures
        entries_view(entries.remove(i)) == entries_view(entries).remove(entries[i].0@),
        distinct_keys(entries.remove(i)),
    decreases entries.len(),
{
    let rest = entries.remove(i);
    let key = entries[i].0@;
    assert forall|a: int, b: int| 0 <= a < b < rest.len() implies (#[trigger] rest[a]).0@ != (
    #[trigger] rest[b]).0@ by {
        let x = if a < i {
            a
        } else {
            a + 1
        };
        let y = if b < i {
            b
        } else {
            b + 1
        };
        assert(rest[a] == entries[x]);
        assert(rest[b] == entries[y]);
    }
    if i == entries.len() - 1 {
        assert(rest =~= entries.drop_last());
        lemma_entries_absent(rest, key);
        assert(entries_view(rest) =~= entries_view(entries).remove(key));
    } else {
        let head = entries.drop_last();
        assert(distinct_keys(head)) by {
            assert forall|a: int, b: int| 0 <= a < b < head.len() implies (#[trigger] head[a]).0@
                != (#[trigger] head[b]).0@ by {
                assert(head[a] == entries[a]);
                assert(head[b] == entries[b]);
            }
        }
        lemma_entries_remove(head, i);
        assert(rest.drop_last() =~= head.remove(i));
        assert(rest.last() == entries.last());
        assert(entries[i].0@ != entries[entries.len() - 1].0@);
        assert(entries_view(rest) =~= entries_view(entries).remove(key));
    }
}

proof fn lemma_entries_absent(entries: Seq<(String, serde_json::Value)>, key: Seq<char>)
    requires
        forall|j: int| 0 <= j < entries.len() ==> (#[trigger] entries[j]).0@ != key,
    ensures
        !entries_view(entries).contains_key(key),
    decreases entries.len(),
{
    if entries.len() > 0 {
        let head = entries.drop_last();
        assert(entries[entries.len() - 1].0@ != key);
        assert forall|j: int| 0 <= j < head.len() implies (#[trigger] head[j]).0@ != key by {
            assert(head[j] == entries[j]);
        }
        lemma_entries_absent(head, key);
    }
}

/// Adds a member in place of one with the same key.
fn put_entry(entries: &mut Vec<(String, serde_json::Value)>, key: String, value: serde_json::Value)
    requires
        distinct_keys(old(entries)@),
    ensures
        distinct_keys(final(entries)@),
        entries_view(final(entries)@) == entries_view(old(entries)@).insert(key@, json_of(value)),
{
    let ghost all = entries@;
    let mut i: usize = 0;
    while i < entries.len() && !same(entries[i].0.as_str(), key.as_str())
        invariant
            i <= entries.len(),
            entries@ == all,
            forall|j: int| 0 <= j < i ==> (#[trigger] entries@[j]).0@ != key@,
        decreases entries.len() - i,
    {
        i = i + 1;
    }
    if i < entries.len() {
        proof {
            lemma_entries_remove(all, i as int);
        }
        entries.remove(i);
        assert forall|j: int| 0 <= j < entries@.len() implies (#[trigger] entries@[j]).0@
            != key@ by {
            if j < i {
                assert(entries@[j] == all[j]);
            } else {
                assert(entries@[j] == all[j + 1]);
                assert(all[i as int].0@ != all[j + 1].0@);
            }
        }
    }
    let ghost rest = entries@;
    entries.push((key, value));
    assert(entries@.drop_last() =~= rest);
    assert(entries_view(entries@) =~= entries_view(all).insert(key@, json_of(value)));
}

/// The value of the `serde_json` crate that says the same as one of this library.
pub fn encode(j: Json) -> (r: serde_json::Value)
    ensures
        json_of(r) == j@,
    decreases j,
{
    match j {
        Json::Null => close_value(Node::Null),
        Json::Bool(b) => close_value(Node::Bool(b)),
        Json::Unsigned(n) => close_value(Node::Unsigned(n)),
        Json::Signed(n) => close_value(Node::Signed(n)),
        Json::Float(n) => close_value(Node::Float(n)),
        Json::Text(s) => close_value(Node::Text(s)),
        Json::Array(items) => {
            let mut out: Vec<serde_json::Value> = Vec::new();
            for item in it: items.into_iter()
                invariant
                    it.seq() == items@,
                    j == Json::Array(items),
                    out@.map_values(|v: serde_json::Value| json_of(v)) == items_view(
                        items@.take(it.index()),
                    ),
            {
                assert(decreases_to!(j => j->Array_0));
                assert(decreases_to!(items => items@));
                assert(decreases_to!(items@ => items@[it.index()]));
                let ghost before = out@.map_values(|v: serde_json::Value| json_of(v));
                let v = encode(item);
                out.push(v);
                assert(items@.take(it.index() + 1).drop_last() =~= items@.take(it.index()));
                assert(out@.map_values(|v: serde_json::Value| json_of(v)) =~= before.push(
                    json_of(v),
                ));
            }
            assert(items@.take(items@.len() as int) =~= items@);
            close_value(Node::Array(out))
        },
        Json::Object(members) => {
            let mut out: Vec<(String, serde_json::Value)> = Vec::new();
            for entry in it: members.into_iter()
                invariant
                    it.seq() == members@,
                    j == Json::Object(members),
                    distinct_keys(out@),
                    entries_view(out@) == members_view(members@.take(it.index())),
            {
                assert(decreases_to!(j => j->Object_0));
                assert(decreases_to!(members => members@));
                assert(decreases_to!(members@ => members@[it.index()]));
                assert(decreases_to!(members@[it.index()] => members@[it.index()].1));
                put_entry(&mut out, entry.0, encode(entry.1));
                assert(members@.take(it.index() + 1).drop_last() =~= members@.take(it.index()));
            }
            assert(members@.take(members@.len() as int) =~= members@);
            close_value(Node::Object(out))
        },
    }
}

/// The value that a JSON text stands for, or the message that says why it stands
/// for none.
pub fn parse(text: &str) -> (r: Result<Json, String>)
    ensures
        match r {
            Ok(j) => reads_as(text@, j@),
            Err(m) => json_text(text@) matches Err(e) && e == m@,
        },
{
    match from_str(text) {
        Ok(v) => Ok(decode(v)),
        Err(m) => Err(m),
    }
}

/// The value that the bytes of a JSON text stand for, or the message that says why
/// they stand for none.
pub fn parse_bytes(bytes: &[u8]) -> (r: Result<Json, String>)
    ensures
        match r {
            Ok(j) => json_bytes(bytes@) matches Ok(v) && v == j@,
            Err(m) => json_bytes(bytes@) matches Err(e) && e == m@,
        },
{
    match from_slice(bytes) {
        Ok(v) => Ok(decode(v)),
        Err(m) => Err(m),
    }
}

/// The JSON text of a value, with line breaks and indents. Where the value is
/// storable, reading the text gives it back.
pub fn pretty(j: Json) -> (r: String)
    ensures
        stored_as(r@, j@),
{
    let v = encode(j);
    match to_string_pretty(&v) {
        Ok(text) => text,
        Err(m) => m,
    }
}

} // verus!
