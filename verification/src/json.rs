//! JSON values as the shop reads and edits them.

use vstd::prelude::*;

use crate::text::{same, texts};

verus! {

/// A number as the JSON library keeps it. Numbers that are read and are no integers of
/// 64 bits are carried in this form, and they are carried through unread.
#[verifier::external_type_specification]
#[verifier::external_body]
pub struct ExNumber(serde_json::Number);

/// The integer of 64 bits, with or without a sign, that a `serde_json::Number` holds:
/// what its `as_u64` or its `as_i64` hands back.
pub uninterp spec fn integer_of(n: serde_json::Number) -> Option<int>;

/// What a `serde_json::Number` says: an integer of 64 bits, or a number that is none.
pub open spec fn number_view(n: serde_json::Number) -> JsonView {
    match integer_of(n) {
        Some(i) => JsonView::Integer(i),
        None => JsonView::Float(n),
    }
}

/// The derived `Clone` of `serde_json::Number` gives the same number.
pub assume_specification[ <serde_json::Number as Clone>::clone ](n: &serde_json::Number) -> (r:
    serde_json::Number)
    ensures
        r == *n,
;

/// A JSON value.
#[derive(Debug)]
pub enum Json {
    Null,
    Bool(bool),
    /// An integer that is not negative.
    Unsigned(u64),
    /// An integer of 64 bits with a sign.
    Signed(i64),
    /// A number as the JSON library keeps it: mostly one with a fraction or an exponent.
    Float(serde_json::Number),
    Text(String),
    Array(Vec<Json>),
    /// The members of an object. Of two members with one key the later counts.
    Object(Vec<(String, Json)>),
}

/// What a JSON value says.
pub enum JsonView {
    Null,
    Bool(bool),
    Integer(int),
    Float(serde_json::Number),
    Text(Seq<char>),
    Array(Seq<JsonView>),
    Object(Map<Seq<char>, JsonView>),
}

/// What a list of JSON values says.
pub open spec fn items_view(items: Seq<Json>) -> Seq<JsonView>
    decreases items,
{
    if items.len() == 0 {
        Seq::empty()
    } else {
        items_view(items.drop_last()).push(items.last().model())
    }
}

/// What a list of members says: each key with the last value given for it.
pub open spec fn members_view(members: Seq<(String, Json)>) -> Map<Seq<char>, JsonView>
    decreases members,
{
    if members.len() == 0 {
        Map::empty()
    } else {
        members_view(members.drop_last()).insert(members.last().0@, members.last().1.model())
    }
}

impl Json {
    /// What the value says.
    pub open spec fn model(&self) -> JsonView
        decreases self,
    {
        match self {
            Json::Null => JsonView::Null,
            Json::Bool(b) => JsonView::Bool(*b),
            Json::Unsigned(n) => JsonView::Integer(*n as int),
            Json::Signed(n) => JsonView::Integer(*n as int),
            Json::Float(n) => number_view(*n),
            Json::Text(s) => JsonView::Text(s@),
            Json::Array(items) => JsonView::Array(items_view(items@)),
            Json::Object(members) => JsonView::Object(members_view(members@)),
        }
    }
}

impl View for Json {
    type V = JsonView;

    open spec fn view(&self) -> JsonView {
        self.model()
    }
}

impl JsonView {
    /// The member of an object with this key.
    pub open spec fn get(self, key: Seq<char>) -> Option<JsonView> {
        match self {
            JsonView::Object(m) => if m.contains_key(key) {
                Some(m[key])
            } else {
                None
            },
            _ => None,
        }
    }

    /// The text of a text value.
    pub open spec fn text(self) -> Option<Seq<char>> {
        match self {
            JsonView::Text(s) => Some(s),
            _ => None,
        }
    }

    /// The members of an object.
    pub open spec fn members(self) -> Option<Map<Seq<char>, JsonView>> {
        match self {
            JsonView::Object(m) => Some(m),
            _ => None,
        }
    }

    /// The items of an array.
    pub open spec fn items(self) -> Option<Seq<JsonView>> {
        match self {
            JsonView::Array(s) => Some(s),
            _ => None,
        }
    }

    /// Whether members can be assigned: to an object, or to a null, which is
    /// then an object.
    pub open spec fn assignable(self) -> bool {
        self is Object || self is Null
    }

    /// The value after `value` was assigned to the member `key`.
    pub open spec fn with(self, key: Seq<char>, value: JsonView) -> JsonView {
        match self {
            JsonView::Object(m) => JsonView::Object(m.insert(key, value)),
            _ => JsonView::Object(Map::empty().insert(key, value)),
        }
    }

    /// The value without the member `key`.
    pub open spec fn without(self, key: Seq<char>) -> JsonView {
        match self {
            JsonView::Object(m) => JsonView::Object(m.remove(key)),
            other => other,
        }
    }
}

/// The member `key` of a value that may be missing.
pub open spec fn member(v: Option<JsonView>, key: Seq<char>) -> Option<JsonView> {
    match v {
        Some(j) => j.get(key),
        None => None,
    }
}

/// The text of a value that may be missing.
pub open spec fn text_of_value(v: Option<JsonView>) -> Option<Seq<char>> {
    match v {
        Some(j) => j.text(),
        None => None,
    }
}

/// What a value that may be missing says.
pub open spec fn seen(v: Option<Json>) -> Option<JsonView> {
    match v {
        Some(j) => Some(j@),
        None => None,
    }
}

/// What a borrowed value that may be missing says.
pub open spec fn seen_ref(v: Option<&Json>) -> Option<JsonView> {
    match v {
        Some(j) => Some(j@),
        None => None,
    }
}

pub proof fn lemma_items_len(items: Seq<Json>)
    ensures
        items_view(items).len() == items.len(),
    decreases items.len(),
{
    if items.len() > 0 {
        lemma_items_len(items.drop_last());
    }
}

pub proof fn lemma_item(items: Seq<Json>, i: int)
    requires
        0 <= i < items.len(),
    ensures
        items_view(items)[i] == items[i]@,
    decreases items.len(),
{
    lemma_items_len(items);
    lemma_items_len(items.drop_last());
    if i < items.len() - 1 {
        lemma_item(items.drop_last(), i);
    }
}

// ---------------------------------------------------------------------------
// Lists of members
// ---------------------------------------------------------------------------

/// An index is the last one of its key.
pub open spec fn last_of_key(members: Seq<(String, Json)>, key: Seq<char>, i: int) -> bool {
    &&& 0 <= i < members.len()
    &&& members[i].0@ == key
    &&& forall|j: int| i < j < members.len() ==> (#[trigger] members[j]).0@ != key
}

pub proof fn lemma_members_present(members: Seq<(String, Json)>, key: Seq<char>, i: int)
    requires
        last_of_key(members, key, i),
    ensures
        members_view(members).contains_key(key),
        members_view(members)[key] == members[i].1@,
    decreases members.len(),
{
    if i < members.len() - 1 {
        let head = members.drop_last();
        assert(members[members.len() - 1].0@ != key);
        assert forall|j: int| i < j < head.len() implies (#[trigger] head[j]).0@ != key by {
            assert(head[j] == members[j]);
        }
        lemma_members_present(head, key, i);
    }
}

pub proof fn lemma_members_absent(members: Seq<(String, Json)>, key: Seq<char>)
    requires
        forall|j: int| 0 <= j < members.len() ==> (#[trigger] members[j]).0@ != key,
    ensures
        !members_view(members).contains_key(key),
    decreases members.len(),
{
    if members.len() > 0 {
        let head = members.drop_last();
        assert(members[members.len() - 1].0@ != key);
        assert forall|j: int| 0 <= j < head.len() implies (#[trigger] head[j]).0@ != key by {
            assert(head[j] == members[j]);
        }
        lemma_members_absent(head, key);
    }
}

/// Every key of the view is the key of a member.
pub proof fn lemma_members_key(members: Seq<(String, Json)>, key: Seq<char>) -> (i: int)
    requires
        members_view(members).contains_key(key),
    ensures
        last_of_key(members, key, i),
        members_view(members)[key] == members[i].1@,
    decreases members.len(),
{
    let head = members.drop_last();
    if members.last().0@ == key {
        members.len() - 1
    } else {
        let i = lemma_members_key(head, key);
        assert forall|j: int| i < j < members.len() implies (#[trigger] members[j]).0@ != key by {
            if j < head.len() {
                assert(head[j] == members[j]);
            }
        }
        i
    }
}

/// The key of every member is a key of the view.
pub proof fn lemma_member_key(members: Seq<(String, Json)>, i: int)
    requires
        0 <= i < members.len(),
    ensures
        members_view(members).contains_key(members[i].0@),
    decreases members.len(),
{
    if i < members.len() - 1 {
        lemma_member_key(members.drop_last(), i);
    }
}

pub proof fn lemma_members_remove(members: Seq<(String, Json)>, i: int)
    requires
        0 <= i < members.len(),
    ensures
        members_view(members.remove(i)).remove(members[i].0@) == members_view(members).remove(
            members[i].0@,
        ),
    decreases members.len(),
{
    let key = members[i].0@;
    let rest = members.remove(i);
    if i == members.len() - 1 {
        assert(rest =~= members.drop_last());
        assert(members_view(rest).remove(key) =~= members_view(members).remove(key));
    } else {
        let head = members.drop_last();
        lemma_members_remove(head, i);
        assert(rest.drop_last() =~= head.remove(i));
        assert(rest.last() == members.last());
        let a = members_view(head.remove(i));
        let b = members_view(head);
        let k = members.last().0@;
        let v = members.last().1@;
        let x = a.insert(k, v).remove(key);
        let y = b.insert(k, v).remove(key);
        assert forall|q: Seq<char>|
            #![trigger x.dom().contains(q)]
            #![trigger y.dom().contains(q)]
            x.dom().contains(q) == y.dom().contains(q) && (x.dom().contains(q) ==> x[q] == y[q]) by {
            assert(a.remove(key).contains_key(q) == b.remove(key).contains_key(q));
            if q != key && q != k && x.contains_key(q) {
                assert(a.remove(key)[q] == a[q]);
                assert(b.remove(key)[q] == b[q]);
            }
        }
        assert(x.dom() =~= y.dom());
        assert(x =~= y);
    }
}

/// The last member with this key.
fn find_member(members: &Vec<(String, Json)>, key: &str) -> (r: Option<usize>)
    ensures
        match r {
            Some(i) => last_of_key(members@, key@, i as int),
            None => forall|j: int| 0 <= j < members@.len() ==> (#[trigger] members@[j]).0@ != key@,
        },
{
    let mut i: usize = members.len();
    while i > 0
        invariant
            i <= members.len(),
            forall|j: int| i <= j < members@.len() ==> (#[trigger] members@[j]).0@ != key@,
        decreases i,
    {
        i = i - 1;
        if same(members[i].0.as_str(), key) {
            return Some(i);
        }
    }
    None
}

/// Takes every member with this key out, and hands back the value that counted.
fn remove_member(members: &mut Vec<(String, Json)>, key: &str) -> (r: Option<Json>)
    ensures
        members_view(final(members)@) == members_view(old(members)@).remove(key@),
        seen(r) == JsonView::Object(members_view(old(members)@)).get(key@),
{
    let ghost all = members@;
    let mut value: Option<Json> = None;
    match find_member(members, key) {
        Some(i) => {
            proof {
                lemma_members_present(members@, key@, i as int);
                lemma_members_remove(members@, i as int);
            }
            let (_, v) = members.remove(i);
            value = Some(v);
        },
        None => {
            proof {
                lemma_members_absent(members@, key@);
                assert(members_view(all).remove(key@) =~= members_view(all));
            }
            return None;
        },
    }
    loop
        invariant
            members_view(members@).remove(key@) == members_view(all).remove(key@),
            value is Some,
            seen(value) == JsonView::Object(members_view(all)).get(key@),
        ensures
            members_view(members@) == members_view(all).remove(key@),
        decreases members.len(),
    {
        match find_member(members, key) {
            Some(i) => {
                proof {
                    lemma_members_remove(members@, i as int);
                }
                members.remove(i);
            },
            None => {
                proof {
                    lemma_members_absent(members@, key@);
                    assert(members_view(members@).remove(key@) =~= members_view(members@));
                }
                break ;
            },
        }
    }
    value
}

impl Clone for Json {
    fn clone(&self) -> (r: Self)
        ensures
            r@ == self@,
        decreases self,
    {
        match self {
            Json::Null => Json::Null,
            Json::Bool(b) => Json::Bool(*b),
            Json::Unsigned(n) => Json::Unsigned(*n),
            Json::Signed(n) => Json::Signed(*n),
            Json::Float(n) => Json::Float(n.clone()),
            Json::Text(s) => Json::Text(s.clone()),
            Json::Array(items) => {
                let mut out: Vec<Json> = Vec::new();
                let mut i: usize = 0;
                while i < items.len()
                    invariant
                        i <= items.len(),
                        *self == Json::Array(*items),
                        items_view(out@) == items_view(items@.take(i as int)),
                    decreases items.len() - i,
                {
                    assert(decreases_to!(self => items@[i as int])) by {
                        assert(decreases_to!(*self => self->Array_0));
                        assert(decreases_to!(*items => items@));
                        assert(decreases_to!(items@ => items@[i as int]));
                    }
                    let v = items[i].clone();
                    assert(items@.take(i + 1).drop_last() =~= items@.take(i as int));
                    let ghost before = out@;
                    out.push(v);
                    assert(out@.drop_last() =~= before);
                    i = i + 1;
                }
                assert(items@.take(i as int) =~= items@);
                Json::Array(out)
            },
            Json::Object(members) => {
                let mut out: Vec<(String, Json)> = Vec::new();
                let mut i: usize = 0;
                while i < members.len()
                    invariant
                        i <= members.len(),
                        *self == Json::Object(*members),
                        members_view(out@) == members_view(members@.take(i as int)),
                    decreases members.len() - i,
                {
                    assert(decreases_to!(self => members@[i as int].1)) by {
                        assert(decreases_to!(*self => self->Object_0));
                        assert(decreases_to!(*members => members@));
                        assert(decreases_to!(members@ => members@[i as int]));
                        assert(decreases_to!(members@[i as int] => members@[i as int].1));
                    }
                    let v = members[i].1.clone();
                    let k = members[i].0.clone();
                    assert(members@.take(i + 1).drop_last() =~= members@.take(i as int));
                    let ghost before = out@;
                    out.push((k, v));
                    assert(out@.drop_last() =~= before);
                    i = i + 1;
                }
                assert(members@.take(i as int) =~= members@);
                Json::Object(out)
            },
        }
    }
}

impl Json {
    /// An object without members.
    pub fn object() -> (r: Json)
        ensures
            r@ == JsonView::Object(Map::empty()),
    {
        Json::Object(Vec::new())
    }

    /// A text value.
    pub fn of_text(s: &str) -> (r: Json)
        ensures
            r@ == JsonView::Text(s@),
    {
        Json::Text(s.to_string())
    }

    /// The member of an object with this key; nothing of another value.
    pub fn get(&self, key: &str) -> (r: Option<&Json>)
        ensures
            seen_ref(r) == self@.get(key@),
    {
        match self {
            Json::Object(members) => {
                match find_member(members, key) {
                    Some(i) => {
                        proof {
                            lemma_members_present(members@, key@, i as int);
                        }
                        Some(&members[i].1)
                    },
                    None => {
                        proof {
                            lemma_members_absent(members@, key@);
                        }
                        None
                    },
                }
            },
            _ => None,
        }
    }

    /// Whether the value is an object with this key.
    pub fn has(&self, key: &str) -> (r: bool)
        ensures
            r == (self@.get(key@) is Some),
    {
        self.get(key).is_some()
    }

    /// The text of a text value.
    pub fn as_str(&self) -> (r: Option<&str>)
        ensures
            match r {
                Some(s) => self@.text() == Some(s@),
                None => self@.text() is None,
            },
    {
        match self {
            Json::Text(s) => Some(s.as_str()),
            _ => None,
        }
    }

    /// The text of the member with this key.
    pub fn text_at(&self, key: &str) -> (r: Option<&str>)
        ensures
            match r {
                Some(s) => text_of_value(self@.get(key@)) == Some(s@),
                None => text_of_value(self@.get(key@)) is None,
            },
    {
        match self.get(key) {
            Some(v) => v.as_str(),
            None => None,
        }
    }

    /// Whether the value is an object.
    pub fn is_object(&self) -> (r: bool)
        ensures
            r == (self@ is Object),
    {
        match self {
            Json::Object(_) => true,
            _ => false,
        }
    }

    /// Whether the value is an array.
    pub fn is_array(&self) -> (r: bool)
        ensures
            r == (self@ is Array),
    {
        match self {
            Json::Array(_) => true,
            _ => false,
        }
    }

    /// Whether the value is an array that holds something.
    pub fn has_items(&self) -> (r: bool)
        ensures
            r == (self@.items() matches Some(s) && s.len() > 0),
    {
        match self {
            Json::Array(items) => {
                proof {
                    lemma_items_len(items@);
                }
                items.len() > 0
            },
            _ => false,
        }
    }

    /// Whether members can be assigned.
    pub fn is_assignable(&self) -> (r: bool)
        ensures
            r == self@.assignable(),
    {
        match self {
            Json::Object(_) => true,
            Json::Null => true,
            _ => false,
        }
    }

    /// The keys of an object; none of another value.
    pub fn keys(&self) -> (r: Vec<String>)
        ensures
            forall|k: Seq<char>|
                #![trigger texts(r@).contains(k)]
                #![trigger self@.get(k)]
                texts(r@).contains(k) <==> self@.get(k) is Some,
    {
        let mut out: Vec<String> = Vec::new();
        match self {
            Json::Object(members) => {
                let mut i: usize = 0;
                while i < members.len()
                    invariant
                        i <= members.len(),
                        out.len() == i,
                        forall|j: int| 0 <= j < i ==> (#[trigger] out@[j])@ == members@[j].0@,
                    decreases members.len() - i,
                {
                    out.push(members[i].0.clone());
                    i = i + 1;
                }
                assert forall|k: Seq<char>|
                    #![trigger texts(out@).contains(k)]
                    #![trigger self@.get(k)]
                    texts(out@).contains(k) <==> self@.get(k) is Some by {
                    if texts(out@).contains(k) {
                        let j = choose|j: int|
                            0 <= j < texts(out@).len() && texts(out@)[j] == k;
                        assert(out@[j]@ == k);
                        lemma_member_key(members@, j);
                    }
                    if self@.get(k) is Some {
                        let j = lemma_members_key(members@, k);
                        assert(texts(out@)[j] == out@[j]@);
                    }
                }
            },
            _ => {
                assert(texts(out@) =~= Seq::<Seq<char>>::empty());
            },
        }
        out
    }

    /// Assigns `value` to the member `key`; a null becomes an object first.
    pub fn set(&mut self, key: &str, value: Json)
        requires
            old(self)@.assignable(),
        ensures
            final(self)@ == old(self)@.with(key@, value@),
    {
        let mut members: Vec<(String, Json)> = Vec::new();
        let ghost before = self@;
        match self {
            Json::Object(m) => {
                std::mem::swap(&mut members, m);
            },
            _ => {},
        }
        let ghost had = members_view(members@);
        remove_member(&mut members, key);
        let ghost cleared = members@;
        members.push((key.to_string(), value));
        assert(members@.drop_last() =~= cleared);
        assert(had.remove(key@).insert(key@, value@) =~= had.insert(key@, value@));
        *self = Json::Object(members);
    }

    /// Takes the member `key` out of an object.
    pub fn take(&mut self, key: &str) -> (r: Option<Json>)
        ensures
            seen(r) == old(self)@.get(key@),
            final(self)@ == old(self)@.without(key@),
    {
        match self {
            Json::Object(members) => remove_member(members, key),
            _ => None,
        }
    }
}

} // verus!
