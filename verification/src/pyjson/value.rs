//! JSON values, and the mathematical values they stand for.
use super::float::{Float, Real};
use crate::text;
use crate::text::{find, same_text, str_chars};
use vstd::prelude::*;

verus! {

/// A JSON value as mathematics sees it: texts are character sequences, and an object is
/// the sequence of its members in the order they were written in.
#[verifier::ext_equal]
pub enum Json {
    Null,
    Bool(bool),
    Int(int),
    Float(Real),
    Str(Seq<char>),
    Array(Seq<Json>),
    Object(Seq<(Seq<char>, Json)>),
}

/// A JSON value that remembers the order its object keys were written in.
#[derive(Debug, PartialEq)]
pub enum Value {
    Null,
    Bool(bool),
    /// Integers are kept separately from floats because Python's `str(1)` is `1`
    /// while `str(1.0)` is `1.0`, and a `<parameter>` renders a bare `str`.
    Int(i128),
    Float(Float),
    Str(String),
    Array(Vec<Value>),
    Object(Vec<(String, Value)>),
}

/// What `v` stands for.
pub open spec fn json_of(v: Value) -> Json
    decreases v,
{
    match v {
        Value::Null => Json::Null,
        Value::Bool(b) => Json::Bool(b),
        Value::Int(i) => Json::Int(i as int),
        Value::Float(f) => Json::Float(f@),
        Value::Str(s) => Json::Str(s@),
        Value::Array(a) => Json::Array(
            Seq::new(
                a@.len(),
                |i: int|
                    if 0 <= i < a@.len() {
                        json_of(a@[i])
                    } else {
                        Json::Null
                    },
            ),
        ),
        Value::Object(kv) => Json::Object(
            Seq::new(
                kv@.len(),
                |i: int|
                    if 0 <= i < kv@.len() {
                        (kv@[i].0@, json_of(kv@[i].1))
                    } else {
                        (seq![], Json::Null)
                    },
            ),
        ),
    }
}

impl View for Value {
    type V = Json;

    open spec fn view(&self) -> Json {
        json_of(*self)
    }
}

/// What a list of values stands for.
pub open spec fn json_items(a: Seq<Value>) -> Seq<Json> {
    Seq::new(a.len(), |i: int| a[i]@)
}

/// What a list of object members stands for.
pub open spec fn json_members(kv: Seq<(String, Value)>) -> Seq<(Seq<char>, Json)> {
    Seq::new(kv.len(), |i: int| (kv[i].0@, kv[i].1@))
}

pub proof fn lemma_array_view(a: Vec<Value>)
    ensures
        Value::Array(a)@ == Json::Array(json_items(a@)),
{
    assert(Value::Array(a)@->Array_0 =~= json_items(a@));
}

pub proof fn lemma_object_view(kv: Vec<(String, Value)>)
    ensures
        Value::Object(kv)@ == Json::Object(json_members(kv@)),
{
    assert(Value::Object(kv)@->Object_0 =~= json_members(kv@));
}

/// An array is larger than each of its elements.
pub proof fn lemma_array_item_smaller(v: &Value, a: &Vec<Value>, i: int)
    requires
        *v == Value::Array(*a),
        0 <= i < a@.len(),
    ensures
        decreases_to!(v => a@[i]),
{
    assert(decreases_to!(v => v->Array_0));
    assert(decreases_to!(a => a@));
}

/// An object is larger than each of its members.
pub proof fn lemma_object_item_smaller(v: &Value, kv: &Vec<(String, Value)>, i: int)
    requires
        *v == Value::Object(*kv),
        0 <= i < kv@.len(),
    ensures
        decreases_to!(v => kv@[i].1),
{
    assert(decreases_to!(v => v->Object_0));
    assert(decreases_to!(kv => kv@));
    assert(decreases_to!(kv@ => kv@[i]));
}

impl Clone for Value {
    fn clone(&self) -> (r: Self)
        ensures
            r@ == self@,
        decreases self,
    {
        match self {
            Value::Null => Value::Null,
            Value::Bool(b) => Value::Bool(*b),
            Value::Int(i) => Value::Int(*i),
            Value::Float(f) => Value::Float(f.clone()),
            Value::Str(s) => Value::Str(s.clone()),
            Value::Array(a) => {
                let mut out: Vec<Value> = Vec::new();
                let mut i: usize = 0;
                while i < a.len()
                    invariant
                        self == Value::Array(*a),
                        i <= a@.len(),
                        json_items(out@) == json_items(a@).take(i as int),
                    decreases a.len() - i,
                {
                    proof {
                        lemma_array_item_smaller(self, a, i as int);
                    }
                    let item = a[i].clone();
                    let ghost before = out@;
                    out.push(item);
                    assert(json_items(out@) =~= json_items(before).push(item@));
                    i += 1;
                    assert(json_items(out@) =~= json_items(a@).take(i as int));
                }
                proof {
                    lemma_array_view(*a);
                    lemma_array_view(out);
                    assert(json_items(out@) =~= json_items(a@));
                }
                Value::Array(out)
            },
            Value::Object(kv) => {
                let mut out: Vec<(String, Value)> = Vec::new();
                let mut i: usize = 0;
                while i < kv.len()
                    invariant
                        self == Value::Object(*kv),
                        i <= kv@.len(),
                        json_members(out@) == json_members(kv@).take(i as int),
                    decreases kv.len() - i,
                {
                    proof {
                        lemma_object_item_smaller(self, kv, i as int);
                    }
                    let key = kv[i].0.clone();
                    let item = kv[i].1.clone();
                    let ghost before = out@;
                    out.push((key, item));
                    assert(json_members(out@) =~= json_members(before).push((key@, item@)));
                    i += 1;
                    assert(json_members(out@) =~= json_members(kv@).take(i as int));
                }
                proof {
                    lemma_object_view(*kv);
                    lemma_object_view(out);
                    assert(json_members(out@) =~= json_members(kv@));
                }
                Value::Object(out)
            },
        }
    }
}

/// The first index at which `members` holds `key`, and their number where none does.
pub open spec fn member_index(members: Seq<(Seq<char>, Json)>, key: Seq<char>) -> int
    decreases members.len(),
{
    if members.len() == 0 {
        0
    } else if members[0].0 == key {
        0
    } else {
        1 + member_index(members.drop_first(), key)
    }
}

/// Whether some member is named `key`.
pub open spec fn has_member(members: Seq<(Seq<char>, Json)>, key: Seq<char>) -> bool {
    exists|i: int| 0 <= i < members.len() && #[trigger] members[i].0 == key
}

/// Whether `part` occurs in `whole`.
pub open spec fn occurs_in(part: Seq<char>, whole: Seq<char>) -> bool {
    exists|i: int| #[trigger] text::matches_at(whole, part, i)
}

pub proof fn lemma_member_index(members: Seq<(Seq<char>, Json)>, key: Seq<char>)
    ensures
        0 <= member_index(members, key) <= members.len(),
        has_member(members, key) <==> member_index(members, key) < members.len(),
        member_index(members, key) < members.len() ==> members[member_index(members, key)].0 == key,
        forall|j: int| 0 <= j < member_index(members, key) ==> #[trigger] members[j].0 != key,
    decreases members.len(),
{
    if members.len() > 0 && members[0].0 != key {
        let rest = members.drop_first();
        lemma_member_index(rest, key);
        assert forall|j: int| 0 <= j < member_index(members, key) implies #[trigger] members[j].0
            != key by {
            if j > 0 {
                assert(rest[j - 1].0 != key);
            }
        }
        if has_member(members, key) {
            let i = choose|i: int| 0 <= i < members.len() && #[trigger] members[i].0 == key;
            assert(rest[i - 1].0 == key);
        }
    }
}

/// Where the first occurrence is, `member_index` is.
proof fn lemma_member_index_is(members: Seq<(Seq<char>, Json)>, key: Seq<char>, at: int)
    requires
        0 <= at <= members.len(),
        forall|j: int| 0 <= j < at ==> #[trigger] members[j].0 != key,
        at < members.len() ==> members[at].0 == key,
    ensures
        member_index(members, key) == at,
{
    lemma_member_index(members, key);
}

impl Json {
    /// The member named `key`: that of the first occurrence, and `None` for an absent
    /// key or anything that is not an object.
    pub open spec fn member(self, key: Seq<char>) -> Option<Json> {
        match self {
            Json::Object(m) => if member_index(m, key) < m.len() {
                Some(m[member_index(m, key)].1)
            } else {
                None
            },
            _ => None,
        }
    }
}

/// The index of the first member named `key`, and the number of members where none is.
fn find_member(kv: &Vec<(String, Value)>, key: &str) -> (r: usize)
    ensures
        r == member_index(json_members(kv@), key@),
        r <= kv@.len(),
{
    let mut i: usize = 0;
    while i < kv.len()
        invariant
            i <= kv@.len(),
            forall|j: int| 0 <= j < i ==> #[trigger] json_members(kv@)[j].0 != key@,
        decreases kv.len() - i,
    {
        if same_text(kv[i].0.as_str(), key) {
            assert(json_members(kv@)[i as int].0 == key@);
            proof {
                lemma_member_index_is(json_members(kv@), key@, i as int);
            }
            return i;
        }
        i += 1;
    }
    proof {
        lemma_member_index_is(json_members(kv@), key@, i as int);
    }
    i
}

impl Value {
    /// Look up an object key. `None` for anything that is not an object, and for a
    /// key that is absent -- the same `Undefined` a Jinja template would see.
    pub fn get(&self, key: &str) -> (r: Option<&Value>)
        ensures
            match r {
                Some(v) => self@.member(key@) == Some(v@),
                None => self@.member(key@) is None,
            },
    {
        match self {
            Value::Object(kv) => {
                proof {
                    lemma_object_view(*kv);
                }
                let i: usize = find_member(kv, key);
                if i < kv.len() {
                    Some(&kv[i].1)
                } else {
                    None
                }
            },
            _ => None,
        }
    }

    /// Whether an object has a key. Jinja's `'k' in obj`, which for a *string* is a
    /// substring test.
    pub fn contains_key(&self, key: &str) -> (r: bool)
        ensures
            r == match self@ {
                Json::Object(m) => has_member(m, key@),
                Json::Str(s) => occurs_in(key@, s),
                _ => false,
            },
    {
        match self {
            Value::Object(kv) => {
                proof {
                    lemma_object_view(*kv);
                    lemma_member_index(json_members(kv@), key@);
                }
                find_member(kv, key) < kv.len()
            },
            Value::Str(s) => {
                let whole = str_chars(s.as_str());
                let part = str_chars(key);
                proof {
                    text::lemma_find_from(s@, key@, 0);
                }
                find(&whole, &part, 0).is_some()
            },
            _ => false,
        }
    }

    /// The text of a string, and `None` for anything else.
    pub fn as_str(&self) -> (r: Option<&str>)
        ensures
            match r {
                Some(s) => self@ == Json::Str(s@),
                None => !(self@ is Str),
            },
    {
        match self {
            Value::Str(s) => Some(s.as_str()),
            _ => None,
        }
    }

    /// The elements of an array, and `None` for anything else.
    pub fn as_array(&self) -> (r: Option<&[Value]>)
        ensures
            match r {
                Some(a) => self@ == Json::Array(json_items(a@)),
                None => !(self@ is Array),
            },
    {
        match self {
            Value::Array(a) => {
                proof {
                    lemma_array_view(*a);
                }
                Some(a.as_slice())
            },
            _ => None,
        }
    }

    /// The truth value of a boolean, and `None` for anything else.
    pub fn as_bool(&self) -> (r: Option<bool>)
        ensures
            match r {
                Some(b) => self@ == Json::Bool(b),
                None => !(self@ is Bool),
            },
    {
        match self {
            Value::Bool(b) => Some(*b),
            _ => None,
        }
    }

    /// An integer that fits `usize`, and `None` for anything else.
    pub fn as_usize(&self) -> (r: Option<usize>)
        ensures
            match r {
                Some(n) => self@ == Json::Int(n as int),
                None => !(self@ is Int && 0 <= self@->Int_0 <= usize::MAX),
            },
    {
        match self {
            Value::Int(i) => if 0 <= *i && *i <= usize::MAX as i128 {
                Some(*i as usize)
            } else {
                None
            },
            _ => None,
        }
    }

    /// An integer that fits `u64`, and `None` for anything else.
    pub fn as_u64(&self) -> (r: Option<u64>)
        ensures
            match r {
                Some(n) => self@ == Json::Int(n as int),
                None => !(self@ is Int && 0 <= self@->Int_0 <= u64::MAX),
            },
    {
        match self {
            Value::Int(i) => if 0 <= *i && *i <= u64::MAX as i128 {
                Some(*i as u64)
            } else {
                None
            },
            _ => None,
        }
    }

    /// A non-empty array, which is what `tools and tools is iterable and tools is
    /// not mapping` amounts to. `None` when it is not an array, or empty.
    pub fn as_nonempty_array(&self) -> (r: Option<&[Value]>)
        ensures
            match r {
                Some(a) => self@ == Json::Array(json_items(a@)) && a@.len() > 0,
                None => !(self@ is Array && self@->Array_0.len() > 0),
            },
    {
        match self {
            Value::Array(a) => {
                proof {
                    lemma_array_view(*a);
                }
                if a.len() > 0 {
                    Some(a.as_slice())
                } else {
                    None
                }
            },
            _ => None,
        }
    }
}

} // verus!
