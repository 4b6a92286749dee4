//! The laws of the total-order comparator: for any two values exactly one
//! relation holds, comparison in one direction is the mirror of the other,
//! comparing equal is the same as being the same model, and the strict
//! order is transitive. Together these make `cmp_value` a total order on
//! value models.

use vstd::prelude::*;
use crate::comparator::{
    cmp_char, cmp_chars_from, cmp_entries_from, cmp_key_seq_from, cmp_value, cmp_values_from,
    entry_keys, flip, rank, Order,
};
use crate::value::SpecValue;

verus! {

// ---------------------------------------------------------------------------
// Character sequences
// ---------------------------------------------------------------------------

proof fn lemma_chars_eq(a: Seq<char>, b: Seq<char>, i: int)
    requires
        0 <= i <= a.len(),
        i <= b.len(),
    ensures
        (cmp_chars_from(a, b, i) == Order::Equal) <==> (a.len() == b.len() && forall|j: int|
            i <= j < a.len() ==> a[j] == b[j]),
    decreases a.len() - i,
{
    if i < a.len() && i < b.len() {
        lemma_chars_eq(a, b, i + 1);
        if cmp_char(a[i], b[i]) == Order::Equal {
            assert(a[i] as u32 == b[i] as u32);
            vstd::utf8::char_u32_cast(a[i], a[i] as u32);
            vstd::utf8::char_u32_cast(b[i], b[i] as u32);
            assert(a[i] == b[i]);
        }
    }
}

proof fn lemma_chars_mirror(a: Seq<char>, b: Seq<char>, i: int)
    requires
        0 <= i,
    ensures
        cmp_chars_from(a, b, i) == flip(cmp_chars_from(b, a, i)),
    decreases a.len() - i,
{
    if i < a.len() && i < b.len() {
        if cmp_char(a[i], b[i]) == Order::Equal {
            lemma_chars_mirror(a, b, i + 1);
        }
    }
}

proof fn lemma_chars_trans(a: Seq<char>, b: Seq<char>, c: Seq<char>, i: int)
    requires
        0 <= i,
        cmp_chars_from(a, b, i) == Order::Less,
        cmp_chars_from(b, c, i) == Order::Less,
    ensures
        cmp_chars_from(a, c, i) == Order::Less,
    decreases a.len() - i,
{
    if i < a.len() && i < b.len() && i < c.len() {
        if cmp_char(a[i], b[i]) == Order::Equal && cmp_char(b[i], c[i]) == Order::Equal {
            lemma_chars_trans(a, b, c, i + 1);
        }
    }
}

// ---------------------------------------------------------------------------
// Key lists (sequences of character sequences)
// ---------------------------------------------------------------------------

proof fn lemma_keys_eq(a: Seq<Seq<char>>, b: Seq<Seq<char>>, i: int)
    requires
        0 <= i <= a.len(),
        i <= b.len(),
    ensures
        (cmp_key_seq_from(a, b, i) == Order::Equal) <==> (a.len() == b.len() && forall|j: int|
            i <= j < a.len() ==> a[j] == b[j]),
    decreases a.len() - i,
{
    if i < a.len() && i < b.len() {
        lemma_keys_eq(a, b, i + 1);
        lemma_chars_eq(a[i], b[i], 0);
        if cmp_chars_from(a[i], b[i], 0) == Order::Equal {
            assert(a[i] =~= b[i]);
        }
    }
}

proof fn lemma_keys_mirror(a: Seq<Seq<char>>, b: Seq<Seq<char>>, i: int)
    requires
        0 <= i,
    ensures
        cmp_key_seq_from(a, b, i) == flip(cmp_key_seq_from(b, a, i)),
    decreases a.len() - i,
{
    if i < a.len() && i < b.len() {
        lemma_chars_mirror(a[i], b[i], 0);
        if cmp_chars_from(a[i], b[i], 0) == Order::Equal {
            lemma_keys_mirror(a, b, i + 1);
        }
    }
}

proof fn lemma_keys_trans(a: Seq<Seq<char>>, b: Seq<Seq<char>>, c: Seq<Seq<char>>, i: int)
    requires
        0 <= i,
        cmp_key_seq_from(a, b, i) == Order::Less,
        cmp_key_seq_from(b, c, i) == Order::Less,
    ensures
        cmp_key_seq_from(a, c, i) == Order::Less,
    decreases a.len() - i,
{
    if i < a.len() && i < b.len() && i < c.len() {
        let o1 = cmp_chars_from(a[i], b[i], 0);
        let o2 = cmp_chars_from(b[i], c[i], 0);
        if o1 == Order::Equal {
            lemma_chars_eq(a[i], b[i], 0);
            assert(a[i] =~= b[i]);
        }
        if o2 == Order::Equal {
            lemma_chars_eq(b[i], c[i], 0);
            assert(b[i] =~= c[i]);
        }
        if o1 == Order::Less && o2 == Order::Less {
            lemma_chars_trans(a[i], b[i], c[i], 0);
        }
        if o1 == Order::Equal && o2 == Order::Equal {
            lemma_keys_trans(a, b, c, i + 1);
        }
    }
}

// ---------------------------------------------------------------------------
// Values
// ---------------------------------------------------------------------------

/// Equality law: two value models compare as `Equal` exactly when they are
/// the same model. In particular the comparator is reflexive and
/// antisymmetric.
pub proof fn lemma_compare_equal(a: SpecValue, b: SpecValue)
    ensures
        (cmp_value(a, b) == Order::Equal) <==> (a == b),
    decreases a, b, 0int,
{
    if rank(a) == rank(b) {
        match (a, b) {
            (SpecValue::Str(x), SpecValue::Str(y)) => {
                lemma_chars_eq(x, y, 0);
                if cmp_value(a, b) == Order::Equal {
                    assert(x =~= y);
                }
            },
            (SpecValue::Array(xs), SpecValue::Array(ys)) => {
                assert(decreases_to!(a => xs));
                lemma_values_eq(xs, ys, 0);
                if cmp_value(a, b) == Order::Equal {
                    assert(xs =~= ys);
                }
            },
            (SpecValue::Object(es), SpecValue::Object(fs)) => {
                lemma_keys_eq(entry_keys(es), entry_keys(fs), 0);
                if cmp_key_seq_from(entry_keys(es), entry_keys(fs), 0) == Order::Equal {
                    assert(decreases_to!(a => es));
                    lemma_entries_eq(es, fs, 0);
                    if cmp_entries_from(es, fs, 0) == Order::Equal {
                        assert forall|j: int| 0 <= j < es.len() implies es[j] == fs[j] by {
                            assert(entry_keys(es)[j] == entry_keys(fs)[j]);
                            assert(es[j].0 == fs[j].0);
                            assert(es[j].1 == fs[j].1);
                        }
                        assert(es =~= fs);
                    }
                }
                if a == b {
                    assert(entry_keys(es) =~= entry_keys(fs));
                }
            },
            _ => {},
        }
    }
}

proof fn lemma_values_eq(xs: Seq<SpecValue>, ys: Seq<SpecValue>, i: int)
    requires
        0 <= i <= xs.len(),
        i <= ys.len(),
    ensures
        (cmp_values_from(xs, ys, i) == Order::Equal) <==> (xs.len() == ys.len() && forall|j: int|
            i <= j < xs.len() ==> xs[j] == ys[j]),
    decreases xs, ys, xs.len() - i,
{
    if i < xs.len() && i < ys.len() {
        assert(decreases_to!(xs => xs[i]));
        lemma_compare_equal(xs[i], ys[i]);
        lemma_values_eq(xs, ys, i + 1);
    }
}

proof fn lemma_entries_eq(es: Seq<(Seq<char>, SpecValue)>, fs: Seq<(Seq<char>, SpecValue)>, i: int)
    requires
        0 <= i <= es.len(),
        i <= fs.len(),
    ensures
        (cmp_entries_from(es, fs, i) == Order::Equal) <==> (es.len() == fs.len() && forall|j: int|
            i <= j < es.len() ==> es[j].1 == fs[j].1),
    decreases es, fs, es.len() - i,
{
    if i < es.len() && i < fs.len() {
        assert(decreases_to!(es => es[i]));
        assert(decreases_to!(es[i] => es[i].1));
        lemma_compare_equal(es[i].1, fs[i].1);
        lemma_entries_eq(es, fs, i + 1);
    }
}

/// Mirror law: comparing in one direction is the exact mirror of comparing
/// in the other, for every pair of value models.
pub proof fn lemma_compare_mirror(a: SpecValue, b: SpecValue)
    ensures
        cmp_value(a, b) == flip(cmp_value(b, a)),
    decreases a, b, 0int,
{
    if rank(a) == rank(b) {
        match (a, b) {
            (SpecValue::Str(x), SpecValue::Str(y)) => {
                lemma_chars_mirror(x, y, 0);
            },
            (SpecValue::Array(xs), SpecValue::Array(ys)) => {
                assert(decreases_to!(a => xs));
                lemma_values_mirror(xs, ys, 0);
            },
            (SpecValue::Object(es), SpecValue::Object(fs)) => {
                lemma_keys_mirror(entry_keys(es), entry_keys(fs), 0);
                if cmp_key_seq_from(entry_keys(es), entry_keys(fs), 0) == Order::Equal {
                    assert(decreases_to!(a => es));
                    lemma_entries_mirror(es, fs, 0);
                }
            },
            _ => {},
        }
    }
}

proof fn lemma_values_mirror(xs: Seq<SpecValue>, ys: Seq<SpecValue>, i: int)
    requires
        0 <= i,
    ensures
        cmp_values_from(xs, ys, i) == flip(cmp_values_from(ys, xs, i)),
    decreases xs, ys, xs.len() - i,
{
    if 0 <= i && i < xs.len() && i < ys.len() {
        assert(decreases_to!(xs => xs[i]));
        lemma_compare_mirror(xs[i], ys[i]);
        if cmp_value(xs[i], ys[i]) == Order::Equal {
            lemma_values_mirror(xs, ys, i + 1);
        }
    }
}

proof fn lemma_entries_mirror(
    es: Seq<(Seq<char>, SpecValue)>,
    fs: Seq<(Seq<char>, SpecValue)>,
    i: int,
)
    requires
        0 <= i,
    ensures
        cmp_entries_from(es, fs, i) == flip(cmp_entries_from(fs, es, i)),
    decreases es, fs, es.len() - i,
{
    if 0 <= i && i < es.len() && i < fs.len() {
        assert(decreases_to!(es => es[i]));
        assert(decreases_to!(es[i] => es[i].1));
        lemma_compare_mirror(es[i].1, fs[i].1);
        if cmp_value(es[i].1, fs[i].1) == Order::Equal {
            lemma_entries_mirror(es, fs, i + 1);
        }
    }
}

/// Transitivity law: the strict order chains across any three value models.
/// Together with the mirror and equality laws this covers every mixed
/// composition of the three relations.
pub proof fn lemma_compare_transitive(a: SpecValue, b: SpecValue, c: SpecValue)
    requires
        cmp_value(a, b) == Order::Less,
        cmp_value(b, c) == Order::Less,
    ensures
        cmp_value(a, c) == Order::Less,
    decreases a, b, c, 0int,
{
    if rank(a) == rank(b) && rank(b) == rank(c) {
        match (a, b, c) {
            (SpecValue::Str(x), SpecValue::Str(y), SpecValue::Str(z)) => {
                lemma_chars_trans(x, y, z, 0);
            },
            (SpecValue::Array(xs), SpecValue::Array(ys), SpecValue::Array(zs)) => {
                assert(decreases_to!(a => xs));
                lemma_values_trans(xs, ys, zs, 0);
            },
            (SpecValue::Object(es), SpecValue::Object(fs), SpecValue::Object(gs)) => {
                let ka = entry_keys(es);
                let kb = entry_keys(fs);
                let kc = entry_keys(gs);
                let k1 = cmp_key_seq_from(ka, kb, 0);
                let k2 = cmp_key_seq_from(kb, kc, 0);
                if k1 == Order::Equal {
                    lemma_keys_eq(ka, kb, 0);
                    assert(ka =~= kb);
                }
                if k2 == Order::Equal {
                    lemma_keys_eq(kb, kc, 0);
                    assert(kb =~= kc);
                }
                if k1 == Order::Less && k2 == Order::Less {
                    lemma_keys_trans(ka, kb, kc, 0);
                }
                if k1 == Order::Equal && k2 == Order::Equal {
                    assert(decreases_to!(a => es));
                    lemma_entries_trans(es, fs, gs, 0);
                }
            },
            _ => {},
        }
    }
}

proof fn lemma_values_trans(xs: Seq<SpecValue>, ys: Seq<SpecValue>, zs: Seq<SpecValue>, i: int)
    requires
        0 <= i,
        cmp_values_from(xs, ys, i) == Order::Less,
        cmp_values_from(ys, zs, i) == Order::Less,
    ensures
        cmp_values_from(xs, zs, i) == Order::Less,
    decreases xs, ys, zs, xs.len() - i,
{
    if 0 <= i && i < xs.len() && i < ys.len() && i < zs.len() {
        let o1 = cmp_value(xs[i], ys[i]);
        let o2 = cmp_value(ys[i], zs[i]);
        if o1 == Order::Equal {
            lemma_compare_equal(xs[i], ys[i]);
        }
        if o2 == Order::Equal {
            lemma_compare_equal(ys[i], zs[i]);
        }
        if o1 == Order::Less && o2 == Order::Less {
            assert(decreases_to!(xs => xs[i]));
            lemma_compare_transitive(xs[i], ys[i], zs[i]);
        }
        if o1 == Order::Equal && o2 == Order::Equal {
            lemma_values_trans(xs, ys, zs, i + 1);
        }
    }
}

proof fn lemma_entries_trans(
    es: Seq<(Seq<char>, SpecValue)>,
    fs: Seq<(Seq<char>, SpecValue)>,
    gs: Seq<(Seq<char>, SpecValue)>,
    i: int,
)
    requires
        0 <= i,
        cmp_entries_from(es, fs, i) == Order::Less,
        cmp_entries_from(fs, gs, i) == Order::Less,
    ensures
        cmp_entries_from(es, gs, i) == Order::Less,
    decreases es, fs, gs, es.len() - i,
{
    if 0 <= i && i < es.len() && i < fs.len() && i < gs.len() {
        let o1 = cmp_value(es[i].1, fs[i].1);
        let o2 = cmp_value(fs[i].1, gs[i].1);
        if o1 == Order::Equal {
            lemma_compare_equal(es[i].1, fs[i].1);
        }
        if o2 == Order::Equal {
            lemma_compare_equal(fs[i].1, gs[i].1);
        }
        if o1 == Order::Less && o2 == Order::Less {
            assert(decreases_to!(es => es[i]));
            assert(decreases_to!(es[i] => es[i].1));
            lemma_compare_transitive(es[i].1, fs[i].1, gs[i].1);
        }
        if o1 == Order::Equal && o2 == Order::Equal {
            lemma_entries_trans(es, fs, gs, i + 1);
        }
    }
}

/// Totality law: for every pair of value models the comparator yields
/// exactly one of the three relations.
pub proof fn lemma_compare_total(a: SpecValue, b: SpecValue)
    ensures
        cmp_value(a, b) == Order::Less || cmp_value(a, b) == Order::Equal || cmp_value(a, b)
            == Order::Greater,
        cmp_value(a, b) == Order::Less ==> cmp_value(a, b) != Order::Equal && cmp_value(a, b)
            != Order::Greater,
        cmp_value(a, b) == Order::Equal ==> cmp_value(a, b) != Order::Greater,
{
}

} // verus!
