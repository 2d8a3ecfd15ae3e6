//! The JSON document model: the values that the decoder produces and that the
//! node filter reads, held as plain values.

use vstd::prelude::*;

use crate::text::chars_of;

verus! {

/// A JSON number, as the decoder distinguishes it.
#[derive(Debug, Clone, Copy, PartialEq, Eq, Structural)]
pub enum JsonNumber {
    /// A non-negative integer.
    PosInt(u64),
    /// A negative integer.
    NegInt(i64),
    /// A floating-point number, held by its IEEE 754 bits.
    Float(u64),
}

/// A JSON value. The entries of an object stand in the order in which the
/// object is walked; a value as the decoder produces it is well formed
/// (`JsonModel::wf`): each object's keys are unique and ascending.
#[derive(Debug)]
pub enum Json {
    Null,
    Bool(bool),
    Number(JsonNumber),
    Text(String),
    Array(Vec<Json>),
    Object(Vec<(String, Json)>),
}

/// The mathematical value of a JSON document: text as character sequences,
/// arrays and objects as sequences.
pub enum JsonModel {
    Null,
    Bool(bool),
    Number(JsonNumber),
    Text(Seq<char>),
    Array(Seq<JsonModel>),
    Object(Seq<(Seq<char>, JsonModel)>),
}

/// The model of a JSON value.
pub open spec fn json_model(j: Json) -> JsonModel
    decreases j,
{
    match j {
        Json::Null => JsonModel::Null,
        Json::Bool(b) => JsonModel::Bool(b),
        Json::Number(n) => JsonModel::Number(n),
        Json::Text(s) => JsonModel::Text(s@),
        Json::Array(items) => JsonModel::Array(items_model(items@)),
        Json::Object(entries) => JsonModel::Object(entries_model(entries@)),
    }
}

/// The models of a sequence of values.
pub open spec fn items_model(s: Seq<Json>) -> Seq<JsonModel>
    decreases s,
{
    if s.len() == 0 {
        Seq::empty()
    } else {
        seq![json_model(s[0])] + items_model(s.drop_first())
    }
}

/// The models of a sequence of object entries.
pub open spec fn entries_model(s: Seq<(String, Json)>) -> Seq<(Seq<char>, JsonModel)>
    decreases s,
{
    if s.len() == 0 {
        Seq::empty()
    } else {
        seq![(s[0].0@, json_model(s[0].1))] + entries_model(s.drop_first())
    }
}

/// The value under `key` in a sequence of entries: the first entry with that key.
pub open spec fn entries_get(es: Seq<(Seq<char>, JsonModel)>, key: Seq<char>) -> Option<JsonModel>
    decreases es.len(),
{
    if es.len() == 0 {
        None
    } else if es[0].0 == key {
        Some(es[0].1)
    } else {
        entries_get(es.drop_first(), key)
    }
}

impl JsonModel {
    /// The value under `key` of an object; nothing for any other value.
    pub open spec fn get(self, key: Seq<char>) -> Option<JsonModel> {
        match self {
            JsonModel::Object(es) => entries_get(es, key),
            _ => None,
        }
    }

    /// The number, where it is a non-negative integer.
    pub open spec fn as_u64(self) -> Option<u64> {
        match self {
            JsonModel::Number(JsonNumber::PosInt(n)) => Some(n),
            _ => None,
        }
    }
}

/// Key order of the decoder's maps: `String`'s order, which compares the UTF-8
/// bytes and so the characters' code points, from the first on.
pub open spec fn key_less(a: Seq<char>, b: Seq<char>) -> bool
    decreases a.len(),
{
    if a.len() == 0 {
        b.len() > 0
    } else if b.len() == 0 {
        false
    } else if (a[0] as u32) != (b[0] as u32) {
        (a[0] as u32) < (b[0] as u32)
    } else {
        key_less(a.drop_first(), b.drop_first())
    }
}

/// The keys of `es` strictly ascend, so each occurs once.
pub open spec fn keys_ascending(es: Seq<(Seq<char>, JsonModel)>) -> bool {
    forall|i: int, j: int| 0 <= i < j < es.len() ==> key_less(#[trigger] es[i].0, #[trigger] es[j].0)
}

/// A number as the decoder holds it: a negative integer is negative, and a
/// floating-point number is finite.
pub open spec fn number_wf(n: JsonNumber) -> bool {
    match n {
        JsonNumber::PosInt(_) => true,
        JsonNumber::NegInt(i) => i < 0,
        JsonNumber::Float(bits) => (bits >> 52u64) & 0x7ffu64 != 0x7ffu64,
    }
}

impl JsonModel {
    /// A value as the decoder produces it: numbers are well formed, and every
    /// object has unique keys in ascending order, all the way down.
    pub open spec fn wf(self) -> bool
        decreases self,
    {
        match self {
            JsonModel::Number(n) => number_wf(n),
            JsonModel::Array(items) => items_wf(items),
            JsonModel::Object(es) => keys_ascending(es) && entries_wf(es),
            _ => true,
        }
    }
}

/// Every value of `s` is well formed.
pub open spec fn items_wf(s: Seq<JsonModel>) -> bool
    decreases s,
{
    s.len() == 0 || (s[0].wf() && items_wf(s.drop_first()))
}

/// Every value of the entries `s` is well formed.
pub open spec fn entries_wf(s: Seq<(Seq<char>, JsonModel)>) -> bool
    decreases s,
{
    s.len() == 0 || (s[0].1.wf() && entries_wf(s.drop_first()))
}

/// No key comes before itself.
pub proof fn lemma_key_less_irreflexive(a: Seq<char>)
    ensures
        !key_less(a, a),
    decreases a.len(),
{
    if a.len() > 0 {
        lemma_key_less_irreflexive(a.drop_first());
    }
}

/// The lookup finds the first entry with the key.
proof fn lemma_entries_get_first(es: Seq<(Seq<char>, JsonModel)>, key: Seq<char>, i: int)
    requires
        0 <= i < es.len(),
        es[i].0 == key,
        forall|j: int| 0 <= j < i ==> (#[trigger] es[j]).0 != key,
    ensures
        entries_get(es, key) == Some(es[i].1),
    decreases i,
{
    if i > 0 {
        assert(es[0].0 != key);
        assert forall|j: int| 0 <= j < i - 1 implies (#[trigger] es.drop_first()[j]).0 != key by {
            assert(es.drop_first()[j] == es[j + 1]);
        }
        lemma_entries_get_first(es.drop_first(), key, i - 1);
    }
}

/// In a well-formed object each key occurs once, and the lookup of a key gives
/// the value of its one entry.
pub proof fn lemma_get_well_formed(obj: JsonModel, key: Seq<char>)
    requires
        obj.wf(),
    ensures
        obj matches JsonModel::Object(es) ==> forall|k: int|
            0 <= k < es.len() && (#[trigger] es[k]).0 == key ==> {
                &&& obj.get(key) == Some(es[k].1)
                &&& forall|j: int| 0 <= j < es.len() && j != k ==> (#[trigger] es[j]).0 != key
            },
{
    if let JsonModel::Object(es) = obj {
        assert forall|k: int| 0 <= k < es.len() && (#[trigger] es[k]).0 == key implies {
            &&& obj.get(key) == Some(es[k].1)
            &&& forall|j: int| 0 <= j < es.len() && j != k ==> (#[trigger] es[j]).0 != key
        } by {
            lemma_key_less_irreflexive(key);
            assert forall|j: int| 0 <= j < es.len() && j != k implies (#[trigger] es[j]).0 != key by {
                if j < k {
                    assert(key_less(es[j].0, es[k].0));
                } else {
                    assert(key_less(es[k].0, es[j].0));
                }
            }
            lemma_entries_get_first(es, key, k);
        }
    }
}

impl View for Json {
    type V = JsonModel;

    open spec fn view(&self) -> JsonModel {
        json_model(*self)
    }
}

/// The models of a sequence of values, element by element.
pub proof fn lemma_items_model(s: Seq<Json>)
    ensures
        items_model(s).len() == s.len(),
        forall|i: int| 0 <= i < s.len() ==> #[trigger] items_model(s)[i] == json_model(s[i]),
    decreases s.len(),
{
    if s.len() > 0 {
        lemma_items_model(s.drop_first());
        assert forall|i: int| 0 <= i < s.len() implies #[trigger] items_model(s)[i] == json_model(
            s[i],
        ) by {
            if i > 0 {
                assert(s.drop_first()[i - 1] == s[i]);
            }
        }
    }
}

/// The models of a sequence of entries, element by element.
pub proof fn lemma_entries_model(s: Seq<(String, Json)>)
    ensures
        entries_model(s).len() == s.len(),
        forall|i: int|
            0 <= i < s.len() ==> #[trigger] entries_model(s)[i] == (s[i].0@, json_model(s[i].1)),
    decreases s.len(),
{
    if s.len() > 0 {
        lemma_entries_model(s.drop_first());
        assert forall|i: int| 0 <= i < s.len() implies #[trigger] entries_model(s)[i] == (
            s[i].0@,
            json_model(s[i].1),
        ) by {
            if i > 0 {
                assert(s.drop_first()[i - 1] == s[i]);
            }
        }
    }
}

/// Whether two texts are equal.
pub fn text_equal(a: &str, b: &str) -> (r: bool)
    ensures
        r == (a@ == b@),
{
    let x = chars_of(a);
    let y = chars_of(b);
    if x.len() != y.len() {
        return false;
    }
    let mut i: usize = 0;
    while i < x.len()
        invariant
            x@ == a@,
            y@ == b@,
            x@.len() == y@.len(),
            i <= x@.len(),
            forall|k: int| 0 <= k < i ==> x@[k] == y@[k],
        decreases x@.len() - i,
    {
        if x[i] != y[i] {
            assert(a@[i as int] != b@[i as int]);
            return false;
        }
        i = i + 1;
    }
    assert(x@ =~= y@);
    true
}

impl Json {
    /// The value under `key`, where this is an object that has that key (the
    /// first such entry); nothing for any other value.
    #[verifier::loop_isolation(false)]
    pub fn get(&self, key: &str) -> (r: Option<&Json>)
        ensures
            match self@.get(key@) {
                Some(v) => r matches Some(x) && x@ == v,
                None => r is None,
            },
            self@.wf() ==> (self@ matches JsonModel::Object(es) ==> forall|k: int|
                0 <= k < es.len() && (#[trigger] es[k]).0 == key@ ==> (r matches Some(x) && x@
                    == es[k].1)),
    {
        proof {
            if self@.wf() {
                lemma_get_well_formed(self@, key@);
            }
        }
        match self {
            Json::Object(entries) => {
                let ghost es = entries_model(entries@);
                proof {
                    lemma_entries_model(entries@);
                    assert(es.skip(0) =~= es);
                }
                let mut i: usize = 0;
                while i < entries.len()
                    invariant
                        i <= entries@.len(),
                        es == entries_model(entries@),
                        es.len() == entries@.len(),
                        forall|k: int|
                            0 <= k < entries@.len() ==> #[trigger] es[k] == (
                                entries@[k].0@,
                                json_model(entries@[k].1),
                            ),
                        entries_get(es, key@) == entries_get(es.skip(i as int), key@),
                    decreases entries@.len() - i,
                {
                    assert(es.skip(i as int)[0] == es[i as int]);
                    if text_equal(entries[i].0.as_str(), key) {
                        return Some(&entries[i].1);
                    }
                    assert(es.skip(i as int).drop_first() =~= es.skip(i + 1));
                    i = i + 1;
                }
                assert(es.skip(i as int) =~= Seq::<(Seq<char>, JsonModel)>::empty());
                None
            },
            _ => None,
        }
    }

    /// The number, where this is a non-negative integer.
    pub fn as_u64(&self) -> (r: Option<u64>)
        ensures
            r == self@.as_u64(),
    {
        match self {
            Json::Number(JsonNumber::PosInt(n)) => Some(*n),
            _ => None,
        }
    }
}

impl Clone for Json {
    /// A copy of the whole value.
    #[verifier::loop_isolation(false)]
    fn clone(&self) -> (r: Json)
        ensures
            r@ == self@,
        decreases self,
    {
        match self {
            Json::Null => Json::Null,
            Json::Bool(b) => Json::Bool(*b),
            Json::Number(n) => Json::Number(*n),
            Json::Text(s) => Json::Text(s.clone()),
            Json::Array(items) => {
                let mut out: Vec<Json> = Vec::new();
                let mut i: usize = 0;
                while i < items.len()
                    invariant
                        i <= items@.len(),
                        out@.len() == i,
                        forall|k: int| 0 <= k < i ==> json_model(#[trigger] out@[k]) == json_model(
                            items@[k],
                        ),
                    decreases items@.len() - i,
                {
                    proof {
                        assert(decreases_to!(*items => items[i as int]));
                    }
                    let item = items[i].clone();
                    out.push(item);
                    i = i + 1;
                }
                proof {
                    lemma_items_model(out@);
                    lemma_items_model(items@);
                    assert(items_model(out@) =~= items_model(items@));
                }
                Json::Array(out)
            },
            Json::Object(entries) => {
                let mut out: Vec<(String, Json)> = Vec::new();
                let mut i: usize = 0;
                while i < entries.len()
                    invariant
                        i <= entries@.len(),
                        out@.len() == i,
                        forall|k: int|
                            0 <= k < i ==> (#[trigger] out@[k]).0@ == entries@[k].0@ && json_model(
                                out@[k].1,
                            ) == json_model(entries@[k].1),
                    decreases entries@.len() - i,
                {
                    proof {
                        assert(decreases_to!(*entries => entries[i as int]));
                        assert(decreases_to!(entries[i as int] => entries[i as int].1));
                    }
                    let key = entries[i].0.clone();
                    let value = entries[i].1.clone();
                    out.push((key, value));
                    i = i + 1;
                }
                proof {
                    lemma_entries_model(out@);
                    lemma_entries_model(entries@);
                    assert(entries_model(out@) =~= entries_model(entries@));
                }
                Json::Object(out)
            },
        }
    }
}

} // verus!
