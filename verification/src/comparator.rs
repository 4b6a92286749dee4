//! The total-order comparator over values: a pure, total function producing
//! one of `Less`, `Equal`, `Greater` for any two values. Cross-type
//! comparisons are decided by the type rank
//! Null < False < True < Number < String < Array < Object; same-type
//! comparisons are the native numeric/textual order, lexicographic order for
//! arrays, and key-list-then-value order for objects.

use vstd::prelude::*;
use crate::value::{SpecValue, Value};

verus! {

/// The order relation produced by the comparator.
#[derive(Debug, Clone, Copy, PartialEq, Eq, Structural)]
pub enum Order {
    Less,
    Equal,
    Greater,
}

/// The mirror image of an order relation.
pub open spec fn flip(o: Order) -> Order {
    match o {
        Order::Less => Order::Greater,
        Order::Equal => Order::Equal,
        Order::Greater => Order::Less,
    }
}

/// The type rank deciding every cross-type comparison.
pub open spec fn rank(v: SpecValue) -> int {
    match v {
        SpecValue::Null => 0,
        SpecValue::False => 1,
        SpecValue::True => 2,
        SpecValue::Number(_) => 3,
        SpecValue::Str(_) => 4,
        SpecValue::Array(_) => 5,
        SpecValue::Object(_) => 6,
    }
}

pub open spec fn cmp_int(a: int, b: int) -> Order {
    if a < b {
        Order::Less
    } else if a == b {
        Order::Equal
    } else {
        Order::Greater
    }
}

/// Characters are ordered by their code point.
pub open spec fn cmp_char(a: char, b: char) -> Order {
    cmp_int(a as u32 as int, b as u32 as int)
}

/// Lexicographic comparison of two character sequences, starting at index
/// `i`; a strict prefix ranks less than the longer sequence.
pub open spec fn cmp_chars_from(a: Seq<char>, b: Seq<char>, i: int) -> Order
    decreases a.len() - i,
{
    if 0 <= i && i < a.len() && i < b.len() {
        match cmp_char(a[i], b[i]) {
            Order::Equal => cmp_chars_from(a, b, i + 1),
            o => o,
        }
    } else if i < b.len() {
        Order::Less
    } else if i < a.len() {
        Order::Greater
    } else {
        Order::Equal
    }
}

/// Lexicographic comparison of two character sequences.
pub open spec fn cmp_chars(a: Seq<char>, b: Seq<char>) -> Order {
    cmp_chars_from(a, b, 0)
}

/// The keys of an object's entry sequence, in stored order.
pub open spec fn entry_keys(es: Seq<(Seq<char>, SpecValue)>) -> Seq<Seq<char>> {
    Seq::new(es.len(), |i: int| es[i].0)
}

/// Lexicographic comparison of two key lists, starting at index `i`;
/// a strict prefix of a key list ranks less.
pub open spec fn cmp_key_seq_from(a: Seq<Seq<char>>, b: Seq<Seq<char>>, i: int) -> Order
    decreases a.len() - i,
{
    if 0 <= i && i < a.len() && i < b.len() {
        match cmp_chars(a[i], b[i]) {
            Order::Equal => cmp_key_seq_from(a, b, i + 1),
            o => o,
        }
    } else if i < b.len() {
        Order::Less
    } else if i < a.len() {
        Order::Greater
    } else {
        Order::Equal
    }
}

/// The single consistent ranking over all values: the mathematical contract
/// of `compare`.
pub open spec fn cmp_value(a: SpecValue, b: SpecValue) -> Order
    decreases a, b, 0int,
{
    if rank(a) != rank(b) {
        cmp_int(rank(a), rank(b))
    } else {
        match (a, b) {
            (SpecValue::Number(x), SpecValue::Number(y)) => cmp_int(x, y),
            (SpecValue::Str(x), SpecValue::Str(y)) => cmp_chars(x, y),
            (SpecValue::Array(xs), SpecValue::Array(ys)) => {
                proof {
                    assert(decreases_to!(a => xs));
                }
                cmp_values_from(xs, ys, 0)
            },
            (SpecValue::Object(es), SpecValue::Object(fs)) => {
                match cmp_key_seq_from(entry_keys(es), entry_keys(fs), 0) {
                    Order::Equal => {
                        proof {
                            assert(decreases_to!(a => es));
                        }
                        cmp_entries_from(es, fs, 0)
                    },
                    o => o,
                }
            },
            _ => Order::Equal,
        }
    }
}

/// Lexicographic, element-by-element comparison of two value sequences,
/// starting at index `i`, using `cmp_value` recursively.
pub open spec fn cmp_values_from(a: Seq<SpecValue>, b: Seq<SpecValue>, i: int) -> Order
    decreases a, b, a.len() - i,
{
    if 0 <= i && i < a.len() && i < b.len() {
        let o = {
            proof {
                assert(decreases_to!(a => a[i]));
            }
            cmp_value(a[i], b[i])
        };
        match o {
            Order::Equal => cmp_values_from(a, b, i + 1),
            oo => oo,
        }
    } else if i < b.len() {
        Order::Less
    } else if i < a.len() {
        Order::Greater
    } else {
        Order::Equal
    }
}

/// Comparison of the values of two entry sequences whose key lists are
/// equal, in stored (ascending-key) order: the first differing pair decides.
pub open spec fn cmp_entries_from(
    a: Seq<(Seq<char>, SpecValue)>,
    b: Seq<(Seq<char>, SpecValue)>,
    i: int,
) -> Order
    decreases a, b, a.len() - i,
{
    if 0 <= i && i < a.len() && i < b.len() {
        let o = {
            proof {
                assert(decreases_to!(a => a[i]));
                assert(decreases_to!(a[i] => a[i].1));
            }
            cmp_value(a[i].1, b[i].1)
        };
        match o {
            Order::Equal => cmp_entries_from(a, b, i + 1),
            oo => oo,
        }
    } else if i < b.len() {
        Order::Less
    } else if i < a.len() {
        Order::Greater
    } else {
        Order::Equal
    }
}

/// The type rank of a value, as executable code.
pub fn type_rank(v: &Value) -> (r: u8)
    ensures
        r as int == rank(v@),
{
    match v {
        Value::Null => 0,
        Value::False => 1,
        Value::True => 2,
        Value::Number(_) => 3,
        Value::Str(_) => 4,
        Value::Array(_) => 5,
        Value::Object(_) => 6,
    }
}

/// Lexicographic comparison of two strings by code point.
pub fn compare_strings(a: &str, b: &str) -> (r: Order)
    ensures
        r == cmp_chars(a@, b@),
{
    let la = a.unicode_len();
    let lb = b.unicode_len();
    let mut i: usize = 0;
    loop
        invariant
            i <= la,
            i <= lb,
            la == a@.len(),
            lb == b@.len(),
            cmp_chars(a@, b@) == cmp_chars_from(a@, b@, i as int),
        decreases la - i,
    {
        if i < la && i < lb {
            let ca = a.get_char(i) as u32;
            let cb = b.get_char(i) as u32;
            if ca < cb {
                return Order::Less;
            }
            if ca > cb {
                return Order::Greater;
            }
            i = i + 1;
        } else if i < lb {
            return Order::Less;
        } else if i < la {
            return Order::Greater;
        } else {
            return Order::Equal;
        }
    }
}

/// The comparator: a pure, total function over any two values, never
/// failing, used both for relational operators and for ordering object
/// keys during deep comparison.
#[verifier::loop_isolation(false)]
pub fn compare(lhs: &Value, rhs: &Value) -> (r: Order)
    ensures
        r == cmp_value(lhs@, rhs@),
    decreases *lhs, *rhs,
{
    let ta = type_rank(lhs);
    let tb = type_rank(rhs);
    if ta < tb {
        return Order::Less;
    }
    if ta > tb {
        return Order::Greater;
    }
    match (lhs, rhs) {
        (Value::Number(x), Value::Number(y)) => {
            if x < y {
                Order::Less
            } else if x == y {
                Order::Equal
            } else {
                Order::Greater
            }
        },
        (Value::Str(x), Value::Str(y)) => compare_strings(x.as_str(), y.as_str()),
        (Value::Array(xs), Value::Array(ys)) => {
            let ghost xsv = lhs@->Array_0;
            let ghost ysv = rhs@->Array_0;
            let la = xs.len();
            let lb = ys.len();
            let mut i: usize = 0;
            while i < la && i < lb
                invariant
                    i <= la,
                    i <= lb,
                    cmp_values_from(xsv, ysv, 0) == cmp_values_from(xsv, ysv, i as int),
                decreases la - i,
            {
                proof {
                    assert(decreases_to!(*lhs => *xs));
                    assert(decreases_to!(*xs => xs@));
                    assert(decreases_to!(xs@ => xs@[i as int]));
                    assert(decreases_to!(*rhs => *ys));
                    assert(decreases_to!(*ys => ys@));
                    assert(decreases_to!(ys@ => ys@[i as int]));
                }
                let o = compare(&xs[i], &ys[i]);
                if !matches!(o, Order::Equal) {
                    return o;
                }
                i = i + 1;
            }
            if i < lb {
                Order::Less
            } else if i < la {
                Order::Greater
            } else {
                Order::Equal
            }
        },
        (Value::Object(es), Value::Object(fs)) => {
            let ghost esv = lhs@->Object_0;
            let ghost fsv = rhs@->Object_0;
            let la = es.len();
            let lb = fs.len();
            let mut i: usize = 0;
            while i < la && i < lb
                invariant
                    i <= la,
                    i <= lb,
                    cmp_key_seq_from(entry_keys(esv), entry_keys(fsv), 0)
                        == cmp_key_seq_from(entry_keys(esv), entry_keys(fsv), i as int),
                decreases la - i,
            {
                let o = compare_strings(es[i].0.as_str(), fs[i].0.as_str());
                proof {
                    assert(entry_keys(esv)[i as int] == es@[i as int].0@);
                    assert(entry_keys(fsv)[i as int] == fs@[i as int].0@);
                }
                if !matches!(o, Order::Equal) {
                    return o;
                }
                i = i + 1;
            }
            if i < lb {
                return Order::Less;
            }
            if i < la {
                return Order::Greater;
            }
            // The key lists are equal, so the entry counts are equal:
            // compare the values in ascending-key order.
            let mut j: usize = 0;
            while j < la
                invariant
                    j <= la,
                    la == lb,
                    cmp_entries_from(esv, fsv, 0) == cmp_entries_from(esv, fsv, j as int),
                decreases la - j,
            {
                proof {
                    assert(decreases_to!(*lhs => *es));
                    assert(decreases_to!(*es => es@));
                    assert(decreases_to!(es@ => es@[j as int]));
                    assert(decreases_to!(es@[j as int] => es@[j as int].1));
                    assert(decreases_to!(*rhs => *fs));
                    assert(decreases_to!(*fs => fs@));
                    assert(decreases_to!(fs@ => fs@[j as int]));
                    assert(decreases_to!(fs@[j as int] => fs@[j as int].1));
                }
                let o = compare(&es[j].1, &fs[j].1);
                if !matches!(o, Order::Equal) {
                    return o;
                }
                j = j + 1;
            }
            Order::Equal
        },
        _ => Order::Equal,
    }
}


/// One of the six relational operations derived from the comparator.
#[derive(Debug, Clone, Copy, PartialEq, Eq, Structural)]
pub enum Comparator {
    Equal,
    NotEqual,
    GreaterThan,
    GreaterOrEqual,
    LessThan,
    LessOrEqual,
}

/// Whether a relational operation holds of an order relation.
pub open spec fn comparison_holds(c: Comparator, o: Order) -> bool {
    match c {
        Comparator::Equal => o is Equal,
        Comparator::NotEqual => !(o is Equal),
        Comparator::GreaterThan => o is Greater,
        Comparator::GreaterOrEqual => o is Greater || o is Equal,
        Comparator::LessThan => o is Less,
        Comparator::LessOrEqual => o is Less || o is Equal,
    }
}

/// Apply a relational operation to two values. The six operations are
/// total: they cannot fail, and return `True` or `False`.
pub fn apply_comparison(c: &Comparator, lhs: &Value, rhs: &Value) -> (r: Value)
    ensures
        r@ == (if comparison_holds(*c, cmp_value(lhs@, rhs@)) {
            SpecValue::True
        } else {
            SpecValue::False
        }),
{
    let o = compare(lhs, rhs);
    let holds = match c {
        Comparator::Equal => matches!(o, Order::Equal),
        Comparator::NotEqual => !matches!(o, Order::Equal),
        Comparator::GreaterThan => matches!(o, Order::Greater),
        Comparator::GreaterOrEqual => matches!(o, Order::Greater) || matches!(o, Order::Equal),
        Comparator::LessThan => matches!(o, Order::Less),
        Comparator::LessOrEqual => matches!(o, Order::Less) || matches!(o, Order::Equal),
    };
    if holds {
        Value::True
    } else {
        Value::False
    }
}

/// The named binary intrinsic implementing a relational operation: the
/// diagnostic name of the operation paired with the transform itself.
pub fn comparator(cmp: &Comparator) -> (r: crate::bytecode::NamedFn2)
    ensures
        r.func == crate::bytecode::Fn2::Comparison(*cmp),
        *cmp == Comparator::Equal ==> r.name@ == "Equal"@,
        *cmp == Comparator::NotEqual ==> r.name@ == "NotEqual"@,
        *cmp == Comparator::GreaterThan ==> r.name@ == "GreaterThan"@,
        *cmp == Comparator::GreaterOrEqual ==> r.name@ == "GreaterOrEqual"@,
        *cmp == Comparator::LessThan ==> r.name@ == "LessThan"@,
        *cmp == Comparator::LessOrEqual ==> r.name@ == "LessOrEqual"@,
{
    let name: &'static str = match cmp {
        Comparator::Equal => "Equal",
        Comparator::NotEqual => "NotEqual",
        Comparator::GreaterThan => "GreaterThan",
        Comparator::GreaterOrEqual => "GreaterOrEqual",
        Comparator::LessThan => "LessThan",
        Comparator::LessOrEqual => "LessOrEqual",
    };
    crate::bytecode::NamedFunction { name, func: crate::bytecode::Fn2::Comparison(*cmp) }
}

} // verus!
