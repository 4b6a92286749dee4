//! The data model: a tagged union of JSON-like values, together with its
//! mathematical model (`SpecValue`) used by every contract of the crate.
//!
//! Numbers are held as signed 64-bit integers, which are totally ordered;
//! the data model therefore admits no non-ordered numeric value, and the
//! comparator needs no tiebreak policy for one.
//!
//! Objects are kept in canonical form: entries sorted by strictly ascending
//! key. `object_insert` maintains that form, so two objects built from the
//! same mapping in different insertion orders are structurally identical.

use vstd::prelude::*;

verus! {

broadcast use vstd::std_specs::vec::group_vec_axioms, vstd::seq::group_seq_axioms;

/// A JSON-like value: the leaf component of the interpreter core.
/// Arrays and objects are trees; each container owns its children.
#[derive(Debug, PartialEq, Eq)]
pub enum Value {
    Null,
    False,
    True,
    Number(i64),
    Str(String),
    Array(Vec<Value>),
    Object(Vec<(String, Value)>),
}

/// The mathematical model of a `Value`: integers, character sequences and
/// sequences of child models in place of the executable representations.
#[verifier::ext_equal]
pub enum SpecValue {
    Null,
    False,
    True,
    Number(int),
    Str(Seq<char>),
    Array(Seq<SpecValue>),
    Object(Seq<(Seq<char>, SpecValue)>),
}

/// The model of a value.
pub open spec fn value_model(v: Value) -> SpecValue
    decreases v,
    via value_model_via
{
    match v {
        Value::Null => SpecValue::Null,
        Value::False => SpecValue::False,
        Value::True => SpecValue::True,
        Value::Number(n) => SpecValue::Number(n as int),
        Value::Str(s) => SpecValue::Str(s@),
        Value::Array(items) => SpecValue::Array(
            Seq::new(
                items@.len(),
                |i: int|
                    if 0 <= i < items@.len() {
                        value_model(items@[i])
                    } else {
                        SpecValue::Null
                    },
            ),
        ),
        Value::Object(entries) => SpecValue::Object(
            Seq::new(
                entries@.len(),
                |i: int|
                    if 0 <= i < entries@.len() {
                        (entries@[i].0@, value_model(entries@[i].1))
                    } else {
                        (Seq::empty(), SpecValue::Null)
                    },
            ),
        ),
    }
}

#[via_fn]
proof fn value_model_via(v: Value) {
    match v {
        Value::Array(items) => {
            assert forall|i: int| 0 <= i < items@.len() implies decreases_to!(v => items@[i]) by {
                assert(decreases_to!(v => items));
                assert(decreases_to!(items => items@));
                assert(decreases_to!(items@ => items@[i]));
            }
        },
        Value::Object(entries) => {
            assert forall|i: int|
                0 <= i < entries@.len() implies decreases_to!(v => entries@[i].1) by {
                assert(decreases_to!(v => entries));
                assert(decreases_to!(entries => entries@));
                assert(decreases_to!(entries@ => entries@[i]));
                assert(decreases_to!(entries@[i] => entries@[i].1));
            }
        },
        _ => {},
    }
}

impl View for Value {
    type V = SpecValue;

    open spec fn view(&self) -> SpecValue {
        value_model(*self)
    }
}

impl Clone for Value {
    /// Duplicating a value duplicates the whole tree: the copy has the same
    /// model as the original.
    #[verifier::loop_isolation(false)]
    fn clone(&self) -> (res: Self)
        ensures
            res@ == self@,
        decreases self,
    {
        match self {
            Value::Null => Value::Null,
            Value::False => Value::False,
            Value::True => Value::True,
            Value::Number(n) => Value::Number(*n),
            Value::Str(s) => Value::Str(s.clone()),
            Value::Array(items) => {
                let n = items.len();
                let mut out: Vec<Value> = Vec::new();
                let mut i: usize = 0;
                while i < n
                    invariant
                        i <= n,
                        out@.len() == i,
                        forall|j: int| 0 <= j < i ==> out@[j]@ == #[trigger] items@[j]@,
                    decreases n - i,
                {
                    proof {
                        assert(decreases_to!(*self => *items));
                        assert(decreases_to!(*items => items@));
                        assert(decreases_to!(items@ => items@[i as int]));
                    }
                    let c = items[i].clone();
                    out.push(c);
                    i = i + 1;
                }
                let res = Value::Array(out);
                proof {
                    lemma_array_view(&res);
                    lemma_array_view(self);
                    assert forall|j: int| 0 <= j < n implies res@->Array_0[j] == #[trigger] self@->Array_0[j] by {
                        assert(res@->Array_0[j] == out@[j]@);
                        assert(self@->Array_0[j] == items@[j]@);
                    }
                    assert(res@->Array_0 =~= self@->Array_0);
                    assert(res@ =~= self@);
                }
                res
            },
            Value::Object(entries) => {
                let n = entries.len();
                let mut out: Vec<(String, Value)> = Vec::new();
                let mut i: usize = 0;
                while i < n
                    invariant
                        i <= n,
                        out@.len() == i,
                        forall|j: int|
                            0 <= j < i ==> out@[j].0@ == #[trigger] entries@[j].0@ && out@[j].1@
                                == entries@[j].1@,
                    decreases n - i,
                {
                    proof {
                        assert(decreases_to!(*self => *entries));
                        assert(decreases_to!(*entries => entries@));
                        assert(decreases_to!(entries@ => entries@[i as int]));
                        assert(decreases_to!(entries@[i as int] => entries@[i as int].1));
                    }
                    let k = entries[i].0.clone();
                    let v = entries[i].1.clone();
                    out.push((k, v));
                    proof {
                        assert(out@[i as int].0@ == entries@[i as int].0@);
                        assert(out@[i as int].1@ == entries@[i as int].1@);
                    }
                    i = i + 1;
                }
                let res = Value::Object(out);
                proof {
                    lemma_object_view(&res);
                    lemma_object_view(self);
                    assert forall|j: int| 0 <= j < n implies res@->Object_0[j] == #[trigger] self@->Object_0[j] by {
                        assert(res@->Object_0[j] == (out@[j].0@, out@[j].1@));
                        assert(self@->Object_0[j] == (entries@[j].0@, entries@[j].1@));
                    }
                    assert(res@->Object_0 =~= self@->Object_0);
                    assert(res@ =~= self@);
                }
                res
            },
        }
    }
}

/// The model of an array value indexes the models of its elements.
pub proof fn lemma_array_view(v: &Value)
    requires
        v is Array,
    ensures
        v@ is Array,
        v@->Array_0.len() == v->Array_0@.len(),
        forall|i: int|
            0 <= i < v->Array_0@.len() ==> v@->Array_0[i] == #[trigger] v->Array_0@[i]@,
{
}

/// The model of an object value indexes the models of its entries.
pub proof fn lemma_object_view(v: &Value)
    requires
        v is Object,
    ensures
        v@ is Object,
        v@->Object_0.len() == v->Object_0@.len(),
        forall|i: int|
            0 <= i < v->Object_0@.len() ==> v@->Object_0[i] == (
            #[trigger] v->Object_0@[i].0@,
            v->Object_0@[i].1@,
            ),
{
}


/// Where `key` belongs in the entries of a canonical object, scanning from
/// index `i`: the first position whose key is not below `key`.
pub open spec fn spec_insert_pos(es: Seq<(Seq<char>, SpecValue)>, key: Seq<char>, i: int) -> int
    decreases es.len() - i,
{
    if 0 <= i && i < es.len() {
        if crate::comparator::cmp_chars(key, es[i].0) == crate::comparator::Order::Greater {
            spec_insert_pos(es, key, i + 1)
        } else {
            i
        }
    } else {
        es.len() as int
    }
}

/// The entries of a canonical object after binding `key` to `value`: an
/// entry with the same key is replaced in place, a new key is inserted at
/// its ascending-key position.
pub open spec fn spec_object_insert(
    es: Seq<(Seq<char>, SpecValue)>,
    key: Seq<char>,
    value: SpecValue,
) -> Seq<(Seq<char>, SpecValue)> {
    let p = spec_insert_pos(es, key, 0);
    if p < es.len() && crate::comparator::cmp_chars(key, es[p].0) == crate::comparator::Order::Equal {
        es.update(p, (key, value))
    } else {
        es.insert(p, (key, value))
    }
}

/// An object with no entries.
pub fn empty_object() -> (r: Value)
    ensures
        r@ == SpecValue::Object(Seq::empty()),
        entries_sorted(r@->Object_0),
{
    let r = Value::Object(Vec::new());
    proof {
        lemma_object_view(&r);
        assert(r@->Object_0 =~= Seq::<(Seq<char>, SpecValue)>::empty());
        assert(r@ =~= SpecValue::Object(Seq::<(Seq<char>, SpecValue)>::empty()));
    }
    r
}

/// Bind `key` to `value` in an object, keeping the canonical ascending-key
/// form: two objects built from the same mapping in different insertion
/// orders end up structurally identical. A value that is not an object is
/// handed back unchanged.
pub fn object_insert(obj: Value, key: String, value: Value) -> (r: Value)
    ensures
        obj@ is Object ==> r@ == SpecValue::Object(
            spec_object_insert(obj@->Object_0, key@, value@),
        ),
        obj@ is Object && entries_sorted(obj@->Object_0) ==> entries_sorted(r@->Object_0),
        !(obj@ is Object) ==> r@ == obj@,
{
    let ghost gobj = obj@;
    match obj {
        Value::Object(mut entries) => {
            let ghost ges = gobj->Object_0;
            proof {
                assert(ges.len() == entries@.len());
                assert(forall|j: int|
                    0 <= j < entries@.len() ==> ges[j] == (
                    #[trigger] entries@[j].0@,
                    entries@[j].1@,
                    ));
            }
            let n = entries.len();
            let ghost gkey0 = key@;
            let mut i: usize = 0;
            loop
                invariant
                    i <= n,
                    n == entries@.len(),
                    ges.len() == n,
                    key@ == gkey0,
                    forall|j: int|
                        0 <= j < n ==> ges[j] == (#[trigger] entries@[j].0@, entries@[j].1@),
                    spec_insert_pos(ges, gkey0, 0) == spec_insert_pos(ges, gkey0, i as int),
                ensures
                    i <= n,
                    n == entries@.len(),
                    key@ == gkey0,
                    spec_insert_pos(ges, gkey0, 0) == i,
                    i < n ==> crate::comparator::cmp_chars(gkey0, ges[i as int].0)
                        != crate::comparator::Order::Greater,
                decreases n - i,
            {
                if i >= n {
                    break;
                }
                let o = crate::comparator::compare_strings(key.as_str(), entries[i].0.as_str());
                if matches!(o, crate::comparator::Order::Greater) {
                    i = i + 1;
                } else {
                    break;
                }
            }
            let ghost gkey = key@;
            let ghost gvalue = value@;
            if i < n {
                let o = crate::comparator::compare_strings(key.as_str(), entries[i].0.as_str());
                if matches!(o, crate::comparator::Order::Equal) {
                    entries[i] = (key, value);
                    let r = Value::Object(entries);
                    proof {
                        lemma_object_view(&r);
                        assert(r@->Object_0 =~= ges.update(i as int, (gkey, gvalue)));
                        assert(r@ =~= SpecValue::Object(
                            spec_object_insert(ges, gkey, gvalue),
                        ));
                        if entries_sorted(ges) {
                            lemma_object_insert_sorted(ges, gkey, gvalue);
                        }
                    }
                    return r;
                }
                entries.insert(i, (key, value));
                let r = Value::Object(entries);
                proof {
                    lemma_object_view(&r);
                    assert(r@->Object_0 =~= ges.insert(i as int, (gkey, gvalue)));
                    assert(r@ =~= SpecValue::Object(spec_object_insert(ges, gkey, gvalue)));
                    if entries_sorted(ges) {
                        lemma_object_insert_sorted(ges, gkey, gvalue);
                    }
                }
                return r;
            }
            entries.insert(i, (key, value));
            let r = Value::Object(entries);
            proof {
                lemma_object_view(&r);
                assert(r@->Object_0 =~= ges.insert(i as int, (gkey, gvalue)));
                assert(r@ =~= SpecValue::Object(spec_object_insert(ges, gkey, gvalue)));
                if entries_sorted(ges) {
                    lemma_object_insert_sorted(ges, gkey, gvalue);
                }
            }
            return r;
        },
        other => other,
    }
}


/// The canonical-form invariant of an object's entries: keys strictly
/// ascending, which makes every key unique.
pub open spec fn entries_sorted(es: Seq<(Seq<char>, SpecValue)>) -> bool {
    forall|i: int, j: int|
        0 <= i < j < es.len() ==> crate::comparator::cmp_chars(#[trigger] es[i].0, #[trigger] es[j].0)
            == crate::comparator::Order::Less
}

/// Everything below the insert position compares strictly above `key`,
/// and the entry at the position, if any, does not compare below it.
proof fn lemma_insert_pos(es: Seq<(Seq<char>, SpecValue)>, key: Seq<char>, i: int)
    requires
        0 <= i <= es.len(),
    ensures
        i <= spec_insert_pos(es, key, i) <= es.len(),
        forall|j: int|
            i <= j < spec_insert_pos(es, key, i) ==> crate::comparator::cmp_chars(
                key,
                #[trigger] es[j].0,
            ) == crate::comparator::Order::Greater,
        spec_insert_pos(es, key, i) < es.len() ==> crate::comparator::cmp_chars(
            key,
            es[spec_insert_pos(es, key, i)].0,
        ) != crate::comparator::Order::Greater,
    decreases es.len() - i,
{
    if i < es.len() {
        if crate::comparator::cmp_chars(key, es[i].0) == crate::comparator::Order::Greater {
            lemma_insert_pos(es, key, i + 1);
        }
    }
}

/// Binding a key in a canonical object keeps the canonical form.
pub proof fn lemma_object_insert_sorted(
    es: Seq<(Seq<char>, SpecValue)>,
    key: Seq<char>,
    value: SpecValue,
)
    requires
        entries_sorted(es),
    ensures
        entries_sorted(spec_object_insert(es, key, value)),
{
    lemma_insert_pos(es, key, 0);
    let p = spec_insert_pos(es, key, 0);
    assert forall|j: int| 0 <= j < p implies crate::comparator::cmp_chars(#[trigger] es[j].0, key) == crate::comparator::Order::Less by {
        crate::laws::lemma_compare_mirror(SpecValue::Str(es[j].0), SpecValue::Str(key));
    }
    let res = spec_object_insert(es, key, value);
    if p < es.len() && crate::comparator::cmp_chars(key, es[p].0) == crate::comparator::Order::Equal {
        crate::laws::lemma_compare_equal(SpecValue::Str(key), SpecValue::Str(es[p].0));
        assert(key == es[p].0);
        assert forall|i: int, j: int|
            0 <= i < j < res.len() implies crate::comparator::cmp_chars(#[trigger] res[i].0, #[trigger] res[j].0)
            == crate::comparator::Order::Less by {
            assert(crate::comparator::cmp_chars(es[i].0, es[j].0) == crate::comparator::Order::Less);
        }
    } else {
        assert(p < es.len() ==> crate::comparator::cmp_chars(key, es[p].0) == crate::comparator::Order::Less);
        assert forall|i: int, j: int|
            0 <= i < j < res.len() implies crate::comparator::cmp_chars(#[trigger] res[i].0, #[trigger] res[j].0)
            == crate::comparator::Order::Less by {
            if j < p {
                assert(res[i].0 == es[i].0 && res[j].0 == es[j].0);
            } else if i > p {
                assert(res[i].0 == es[i - 1].0 && res[j].0 == es[j - 1].0);
            } else if i < p && j == p {
                assert(res[i].0 == es[i].0 && res[j].0 == key);
            } else if i == p && j > p {
                assert(res[i].0 == key && res[j].0 == es[j - 1].0);
                if j - 1 > p {
                    assert(crate::comparator::cmp_chars(es[p].0, es[j - 1].0) == crate::comparator::Order::Less);
                    crate::laws::lemma_compare_transitive(
                        SpecValue::Str(key),
                        SpecValue::Str(es[p].0),
                        SpecValue::Str(es[j - 1].0),
                    );
                }
            } else {
                assert(i < p && j > p);
                assert(res[i].0 == es[i].0 && res[j].0 == es[j - 1].0);
                if j - 1 > p || crate::comparator::cmp_chars(key, es[j - 1].0) == crate::comparator::Order::Less {
                    assert(j - 1 >= p);
                    assert(crate::comparator::cmp_chars(es[i].0, es[j - 1].0) == crate::comparator::Order::Less);
                } else {
                    assert(crate::comparator::cmp_chars(es[i].0, es[j - 1].0) == crate::comparator::Order::Less);
                }
            }
        }
    }
}

} // verus!
