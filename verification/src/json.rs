//! JSON values as the schema converters read them: objects keep their
//! entries in order, numbers keep their decimal text.

use vstd::prelude::*;
use crate::chars::is_digit;
use crate::discovery::{all_digits, digits_value, lemma_digits_value_mono};
use crate::text::{chars_of, str_eq};

verus! {

broadcast use vstd::string::group_string_axioms;

/// A JSON value.
#[derive(Debug, PartialEq)]
pub enum JsonValue {
    Null,
    Bool(bool),
    /// A number, by its decimal text.
    Number(String),
    Str(String),
    Array(Vec<JsonValue>),
    /// An object, by its entries in order.
    Object(Vec<(String, JsonValue)>),
}

/// The value of a JSON value.
pub enum JsonView {
    Null,
    Bool(bool),
    Number(Seq<char>),
    Str(Seq<char>),
    Array(Seq<JsonView>),
    Object(Seq<(Seq<char>, JsonView)>),
}

impl JsonValue {
    /// The value of this JSON value.
    pub open spec fn view_of(self) -> JsonView
        decreases self,
    {
        match self {
            JsonValue::Null => JsonView::Null,
            JsonValue::Bool(b) => JsonView::Bool(b),
            JsonValue::Number(n) => JsonView::Number(n@),
            JsonValue::Str(s) => JsonView::Str(s@),
            JsonValue::Array(items) => JsonView::Array(json_seq_view(items@)),
            JsonValue::Object(entries) => JsonView::Object(json_entries_view(entries@)),
        }
    }
}

/// The values of a sequence of JSON values.
pub open spec fn json_seq_view(s: Seq<JsonValue>) -> Seq<JsonView>
    decreases s,
{
    if s.len() == 0 {
        Seq::empty()
    } else {
        json_seq_view(s.drop_last()).push(s.last().view_of())
    }
}

/// The values of a sequence of object entries.
pub open spec fn json_entries_view(s: Seq<(String, JsonValue)>) -> Seq<(Seq<char>, JsonView)>
    decreases s,
{
    if s.len() == 0 {
        Seq::empty()
    } else {
        json_entries_view(s.drop_last()).push((s.last().0@, s.last().1.view_of()))
    }
}

impl View for JsonValue {
    type V = JsonView;

    open spec fn view(&self) -> JsonView {
        self.view_of()
    }
}

/// The value of the first entry under `key`.
pub open spec fn entries_get(es: Seq<(Seq<char>, JsonView)>, key: Seq<char>) -> Option<JsonView>
    decreases es.len(),
{
    if es.len() == 0 {
        None
    } else if es[0].0 == key {
        Some(es[0].1)
    } else {
        entries_get(es.drop_first(), key)
    }
}

impl JsonView {
    /// The member under `key`, for an object.
    pub open spec fn get(self, key: Seq<char>) -> Option<JsonView> {
        match self {
            JsonView::Object(es) => entries_get(es, key),
            _ => None,
        }
    }

    /// The text of a string value.
    pub open spec fn as_str(self) -> Option<Seq<char>> {
        match self {
            JsonView::Str(s) => Some(s),
            _ => None,
        }
    }

    /// A boolean value.
    pub open spec fn as_bool(self) -> Option<bool> {
        match self {
            JsonView::Bool(b) => Some(b),
            _ => None,
        }
    }

    /// The items of an array value.
    pub open spec fn as_array(self) -> Option<Seq<JsonView>> {
        match self {
            JsonView::Array(items) => Some(items),
            _ => None,
        }
    }

    /// The entries of an object value.
    pub open spec fn as_object(self) -> Option<Seq<(Seq<char>, JsonView)>> {
        match self {
            JsonView::Object(es) => Some(es),
            _ => None,
        }
    }

    /// The value of a number written as a non-negative integer that fits in
    /// 64 bits (no sign, fraction or exponent).
    pub open spec fn as_u64(self) -> Option<u64> {
        match self {
            JsonView::Number(t) => if t.len() > 0 && all_digits(t) && digits_value(t) <= u64::MAX {
                Some(digits_value(t) as u64)
            } else {
                None
            },
            _ => None,
        }
    }

    /// The text of the string member under `key`.
    pub open spec fn str_member(self, key: Seq<char>) -> Option<Seq<char>> {
        match self.get(key) {
            Some(v) => v.as_str(),
            None => None,
        }
    }
}

/// The values of a sequence of JSON values, item by item.
pub proof fn lemma_json_seq_view(s: Seq<JsonValue>)
    ensures
        json_seq_view(s).len() == s.len(),
        forall|i: int| 0 <= i < s.len() ==> #[trigger] json_seq_view(s)[i] == s[i].view_of(),
    decreases s.len(),
{
    if s.len() > 0 {
        lemma_json_seq_view(s.drop_last());
    }
}

/// The values of a sequence of object entries, entry by entry.
pub proof fn lemma_json_entries_view(s: Seq<(String, JsonValue)>)
    ensures
        json_entries_view(s).len() == s.len(),
        forall|i: int| 0 <= i < s.len() ==> #[trigger] json_entries_view(s)[i] == (s[i].0@, s[i].1.view_of()),
    decreases s.len(),
{
    if s.len() > 0 {
        lemma_json_entries_view(s.drop_last());
    }
}

/// Looking past entries whose key differs.
proof fn lemma_entries_get_skip(es: Seq<(Seq<char>, JsonView)>, key: Seq<char>, i: int)
    requires
        0 <= i < es.len(),
        forall|j: int| 0 <= j < i ==> #[trigger] es[j].0 != key,
    ensures
        entries_get(es, key) == entries_get(es.skip(i), key),
    decreases i,
{
    if i > 0 {
        assert(es[0].0 != key);
        let rest = es.drop_first();
        assert forall|j: int| 0 <= j < i - 1 implies #[trigger] rest[j].0 != key by {
            assert(rest[j] == es[j + 1]);
        }
        lemma_entries_get_skip(rest, key, i - 1);
        assert(rest.skip(i - 1) =~= es.skip(i));
    } else {
        assert(es.skip(0) =~= es);
    }
}

/// A member found under a key lies inside the entries.
pub proof fn lemma_entries_get_decreases(es: Seq<(Seq<char>, JsonView)>, key: Seq<char>)
    ensures
        match entries_get(es, key) {
            Some(v) => decreases_to!(es => v),
            None => true,
        },
    decreases es.len(),
{
    if es.len() > 0 {
        assert(decreases_to!(es => es[0]));
        assert(decreases_to!(es[0] => es[0].1));
        if es[0].0 != key {
            lemma_entries_get_decreases(es.drop_first(), key);
            assert(es.drop_first() =~= es.subrange(1, es.len() as int));
            assert(decreases_to!(es => es.subrange(1, es.len() as int)));
        }
    }
}

/// No entry has the key.
proof fn lemma_entries_get_none(es: Seq<(Seq<char>, JsonView)>, key: Seq<char>)
    requires
        forall|j: int| 0 <= j < es.len() ==> #[trigger] es[j].0 != key,
    ensures
        entries_get(es, key) is None,
    decreases es.len(),
{
    if es.len() > 0 {
        let rest = es.drop_first();
        assert forall|j: int| 0 <= j < rest.len() implies #[trigger] rest[j].0 != key by {
            assert(rest[j] == es[j + 1]);
        }
        lemma_entries_get_none(rest, key);
    }
}

impl JsonValue {
    /// The member under `key`, for an object: the first entry with that key.
    pub fn get(&self, key: &str) -> (r: Option<&JsonValue>)
        ensures
            match r {
                Some(v) => self@.get(key@) == Some(v@) && decreases_to!(*self => *v),
                None => self@.get(key@) is None,
            },
    {
        match self {
            JsonValue::Object(entries) => {
                let ghost es = json_entries_view(entries@);
                proof {
                    lemma_json_entries_view(entries@);
                }
                let mut i: usize = 0;
                while i < entries.len()
                    invariant
                        *self == JsonValue::Object(*entries),
                        es == json_entries_view(entries@),
                        es.len() == entries@.len(),
                        forall|j: int| 0 <= j < entries@.len() ==> #[trigger] es[j] == (entries@[j].0@, entries@[j].1.view_of()),
                        i <= entries.len(),
                        forall|j: int| 0 <= j < i ==> #[trigger] es[j].0 != key@,
                    decreases entries.len() - i,
                {
                    if str_eq(entries[i].0.as_str(), key) {
                        proof {
                            lemma_entries_get_skip(es, key@, i as int);
                            assert(es.skip(i as int)[0] == es[i as int]);
                            assert(es[i as int].0 == key@);
                            assert(entries_get(es.skip(i as int), key@) == Some(es[i as int].1));
                            assert(es[i as int].1 == entries@[i as int].1@);
                            assert(self@.get(key@) == entries_get(es, key@));
                            vstd::std_specs::vec::axiom_vec_index_decreases(*entries, i as int);
                            assert(decreases_to!(*self => (*self)->Object_0));
                            assert(decreases_to!(entries@[i as int] => entries@[i as int].1));
                        }
                        return Some(&entries[i].1);
                    }
                    i = i + 1;
                }
                proof {
                    lemma_entries_get_none(es, key@);
                }
                None
            },
            _ => None,
        }
    }

    /// The text of a string value.
    pub fn as_str(&self) -> (r: Option<&str>)
        ensures
            match r {
                Some(s) => self@.as_str() == Some(s@),
                None => self@.as_str() is None,
            },
    {
        match self {
            JsonValue::Str(s) => Some(s.as_str()),
            _ => None,
        }
    }

    /// The value of a number written as a non-negative integer that fits in
    /// 64 bits.
    pub fn as_u64(&self) -> (r: Option<u64>)
        ensures
            r == self@.as_u64(),
    {
        match self {
            JsonValue::Number(t) => {
                let cs = chars_of(t.as_str());
                if cs.len() == 0 {
                    return None;
                }
                let mut acc: u64 = 0;
                let mut j: usize = 0;
                while j < cs.len()
                    invariant
                        *self == JsonValue::Number(*t),
                        cs@ == t@,
                        j <= cs.len(),
                        all_digits(cs@.take(j as int)),
                        acc == digits_value(cs@.take(j as int)),
                    decreases cs.len() - j,
                {
                    let c = cs[j];
                    proof {
                        assert(cs@.take(j + 1).drop_last() =~= cs@.take(j as int));
                    }
                    if !is_digit(c) {
                        assert(!all_digits(t@)) by {
                            assert(!crate::chars::is_ascii_digit(t@[j as int]));
                        }
                        return None;
                    }
                    let digit = (c as u32 - '0' as u32) as u64;
                    if acc > (u64::MAX - digit) / 10 {
                        proof {
                            assert(acc * 10 + digit > u64::MAX) by (nonlinear_arith)
                                requires
                                    acc > (u64::MAX - digit) / 10,
                                    digit <= 9,
                            ;
                            assert(cs@.take(j + 1).last() == c);
                            assert(digits_value(cs@.take(j + 1)) == acc * 10 + digit);
                            if all_digits(t@) {
                                lemma_digits_value_mono(t@, j + 1);
                            }
                        }
                        return None;
                    }
                    proof {
                        assert(acc * 10 + digit <= u64::MAX) by (nonlinear_arith)
                            requires
                                acc <= (u64::MAX - digit) / 10,
                                digit <= 9,
                        ;
                    }
                    acc = acc * 10 + digit;
                    proof {
                        assert(cs@.take(j + 1).last() == c);
                    }
                    j = j + 1;
                }
                assert(cs@.take(cs.len() as int) =~= t@);
                Some(acc)
            },
            _ => None,
        }
    }

    /// A boolean value.
    pub fn as_bool(&self) -> (r: Option<bool>)
        ensures
            r == self@.as_bool(),
    {
        match self {
            JsonValue::Bool(b) => Some(*b),
            _ => None,
        }
    }

    /// The items of an array value.
    pub fn as_array(&self) -> (r: Option<&Vec<JsonValue>>)
        ensures
            match r {
                Some(v) => self@.as_array() == Some(json_seq_view(v@)) && decreases_to!(*self => *v),
                None => self@.as_array() is None,
            },
    {
        match self {
            JsonValue::Array(items) => {
                assert(decreases_to!(*self => (*self)->Array_0));
                Some(items)
            },
            _ => None,
        }
    }

    /// The entries of an object value.
    pub fn as_object(&self) -> (r: Option<&Vec<(String, JsonValue)>>)
        ensures
            match r {
                Some(v) => self@.as_object() == Some(json_entries_view(v@)) && decreases_to!(*self => *v),
                None => self@.as_object() is None,
            },
    {
        match self {
            JsonValue::Object(entries) => {
                assert(decreases_to!(*self => (*self)->Object_0));
                Some(entries)
            },
            _ => None,
        }
    }

    /// The text of the string member under `key`.
    pub fn str_member(&self, key: &str) -> (r: Option<String>)
        ensures
            match r {
                Some(s) => self@.str_member(key@) == Some(s@),
                None => self@.str_member(key@) is None,
            },
    {
        match self.get(key) {
            Some(v) => match v.as_str() {
                Some(s) => Some(s.to_owned()),
                None => None,
            },
            None => None,
        }
    }

    /// A copy with the same value.
    pub fn duplicate(&self) -> (r: JsonValue)
        ensures
            r@ == self@,
        decreases self,
    {
        match self {
            JsonValue::Null => JsonValue::Null,
            JsonValue::Bool(b) => JsonValue::Bool(*b),
            JsonValue::Number(n) => JsonValue::Number(n.clone()),
            JsonValue::Str(s) => JsonValue::Str(s.clone()),
            JsonValue::Array(items) => {
                let mut out: Vec<JsonValue> = Vec::new();
                let mut i: usize = 0;
                proof {
                    lemma_json_seq_view(items@);
                }
                while i < items.len()
                    invariant
                        *self == JsonValue::Array(*items),
                        i <= items.len(),
                        json_seq_view(out@) == json_seq_view(items@.take(i as int)),
                    decreases items.len() - i,
                {
                    proof {
                        vstd::std_specs::vec::axiom_vec_index_decreases(*items, i as int);
                        assert(*self == JsonValue::Array(*items));
                        assert(decreases_to!(*self => (*self)->Array_0));
                    }
                    let x = items[i].duplicate();
                    let ghost o0 = out@;
                    out.push(x);
                    proof {
                        assert(out@.drop_last() =~= o0);
                        assert(items@.take(i + 1).drop_last() =~= items@.take(i as int));
                    }
                    i = i + 1;
                }
                assert(items@.take(items.len() as int) =~= items@);
                JsonValue::Array(out)
            },
            JsonValue::Object(entries) => {
                let mut out: Vec<(String, JsonValue)> = Vec::new();
                let mut i: usize = 0;
                while i < entries.len()
                    invariant
                        *self == JsonValue::Object(*entries),
                        i <= entries.len(),
                        json_entries_view(out@) == json_entries_view(entries@.take(i as int)),
                    decreases entries.len() - i,
                {
                    proof {
                        vstd::std_specs::vec::axiom_vec_index_decreases(*entries, i as int);
                        assert(decreases_to!(*self => (*self)->Object_0));
                        assert(decreases_to!(entries@[i as int] => entries@[i as int].1));
                    }
                    let x = entries[i].1.duplicate();
                    let k = entries[i].0.clone();
                    let ghost o0 = out@;
                    out.push((k, x));
                    proof {
                        assert(out@.drop_last() =~= o0);
                        assert(entries@.take(i + 1).drop_last() =~= entries@.take(i as int));
                    }
                    i = i + 1;
                }
                assert(entries@.take(entries.len() as int) =~= entries@);
                JsonValue::Object(out)
            },
        }
    }
}

/// A copy of object entries.
pub fn duplicate_entries(entries: &Vec<(String, JsonValue)>) -> (r: Vec<(String, JsonValue)>)
    ensures
        json_entries_view(r@) == json_entries_view(entries@),
{
    let mut out: Vec<(String, JsonValue)> = Vec::new();
    let mut i: usize = 0;
    while i < entries.len()
        invariant
            i <= entries.len(),
            json_entries_view(out@) == json_entries_view(entries@.take(i as int)),
        decreases entries.len() - i,
    {
        let x = entries[i].1.duplicate();
        let k = entries[i].0.clone();
        let ghost o0 = out@;
        out.push((k, x));
        proof {
            assert(out@.drop_last() =~= o0);
            assert(entries@.take(i + 1).drop_last() =~= entries@.take(i as int));
        }
        i = i + 1;
    }
    assert(entries@.take(entries.len() as int) =~= entries@);
    out
}

/// Whether two JSON values are equal.
pub fn json_eq(a: &JsonValue, b: &JsonValue) -> (r: bool)
    ensures
        r == (a@ == b@),
    decreases a,
{
    match (a, b) {
        (JsonValue::Null, JsonValue::Null) => true,
        (JsonValue::Bool(x), JsonValue::Bool(y)) => *x == *y,
        (JsonValue::Number(x), JsonValue::Number(y)) => str_eq(x.as_str(), y.as_str()),
        (JsonValue::Str(x), JsonValue::Str(y)) => str_eq(x.as_str(), y.as_str()),
        (JsonValue::Array(xs), JsonValue::Array(ys)) => {
            proof {
                lemma_json_seq_view(xs@);
                lemma_json_seq_view(ys@);
            }
            if xs.len() != ys.len() {
                return false;
            }
            let mut i: usize = 0;
            while i < xs.len()
                invariant
                    *a == JsonValue::Array(*xs),
                    *b == JsonValue::Array(*ys),
                    xs.len() == ys.len(),
                    i <= xs.len(),
                    json_seq_view(xs@).len() == xs.len(),
                    json_seq_view(ys@).len() == ys.len(),
                    forall|j: int| 0 <= j < xs.len() ==> #[trigger] json_seq_view(xs@)[j] == xs@[j]@,
                    forall|j: int| 0 <= j < ys.len() ==> #[trigger] json_seq_view(ys@)[j] == ys@[j]@,
                    forall|j: int| 0 <= j < i ==> #[trigger] json_seq_view(xs@)[j] == json_seq_view(ys@)[j],
                decreases xs.len() - i,
            {
                proof {
                    vstd::std_specs::vec::axiom_vec_index_decreases(*xs, i as int);
                    assert(decreases_to!(*a => (*a)->Array_0));
                }
                if !json_eq(&xs[i], &ys[i]) {
                    assert(json_seq_view(xs@)[i as int] != json_seq_view(ys@)[i as int]);
                    return false;
                }
                i = i + 1;
            }
            assert(json_seq_view(xs@) =~= json_seq_view(ys@));
            true
        },
        (JsonValue::Object(xs), JsonValue::Object(ys)) => {
            proof {
                lemma_json_entries_view(xs@);
                lemma_json_entries_view(ys@);
            }
            if xs.len() != ys.len() {
                return false;
            }
            let mut i: usize = 0;
            while i < xs.len()
                invariant
                    *a == JsonValue::Object(*xs),
                    *b == JsonValue::Object(*ys),
                    xs.len() == ys.len(),
                    i <= xs.len(),
                    json_entries_view(xs@).len() == xs.len(),
                    json_entries_view(ys@).len() == ys.len(),
                    forall|j: int| 0 <= j < xs.len() ==> #[trigger] json_entries_view(xs@)[j] == (xs@[j].0@, xs@[j].1@),
                    forall|j: int| 0 <= j < ys.len() ==> #[trigger] json_entries_view(ys@)[j] == (ys@[j].0@, ys@[j].1@),
                    forall|j: int| 0 <= j < i ==> #[trigger] json_entries_view(xs@)[j] == json_entries_view(ys@)[j],
                decreases xs.len() - i,
            {
                proof {
                    vstd::std_specs::vec::axiom_vec_index_decreases(*xs, i as int);
                    assert(decreases_to!(*a => (*a)->Object_0));
                    assert(decreases_to!(xs@[i as int] => xs@[i as int].1));
                }
                if !str_eq(xs[i].0.as_str(), ys[i].0.as_str()) || !json_eq(&xs[i].1, &ys[i].1) {
                    assert(json_entries_view(xs@)[i as int] != json_entries_view(ys@)[i as int]);
                    return false;
                }
                i = i + 1;
            }
            assert(json_entries_view(xs@) =~= json_entries_view(ys@));
            true
        },
        _ => false,
    }
}

} // verus!
