use filter_vm::comparator::{
    apply_comparison, compare, compare_strings, comparator, type_rank, Comparator, Order,
};
use filter_vm::value::{empty_object, object_insert, Value};

fn num(n: i64) -> Value {
    Value::Number(n)
}

fn s(text: &str) -> Value {
    Value::Str(text.to_string())
}

fn obj(pairs: &[(&str, i64)]) -> Value {
    let mut v = empty_object();
    for (k, n) in pairs {
        v = object_insert(v, k.to_string(), num(*n));
    }
    v
}

#[test]
fn type_rank_orders_all_seven_kinds() {
    let values = [
        Value::Null,
        Value::False,
        Value::True,
        num(0),
        s(""),
        Value::Array(vec![]),
        Value::Object(vec![]),
    ];
    for (i, v) in values.iter().enumerate() {
        assert_eq!(type_rank(v) as usize, i);
    }
    for i in 0..values.len() {
        for j in 0..values.len() {
            let expected = if i < j {
                Order::Less
            } else if i == j {
                Order::Equal
            } else {
                Order::Greater
            };
            assert_eq!(compare(&values[i], &values[j]), expected);
        }
    }
}

#[test]
fn array_prefix_ranks_less() {
    let short = Value::Array(vec![num(1), num(2)]);
    let long = Value::Array(vec![num(1), num(2), num(3)]);
    assert_eq!(compare(&short, &long), Order::Less);
    assert_eq!(compare(&long, &short), Order::Greater);
}

#[test]
fn string_ordering_is_lexicographic() {
    assert_eq!(compare(&s("a"), &s("b")), Order::Less);
    assert_eq!(compare(&s("ab"), &s("b")), Order::Less);
    assert_eq!(compare(&s("b"), &s("ab")), Order::Greater);
    assert_eq!(compare(&s("abc"), &s("abc")), Order::Equal);
    assert_eq!(compare(&s("ab"), &s("abc")), Order::Less);
    assert_eq!(compare_strings("", "a"), Order::Less);
    assert_eq!(compare_strings("", ""), Order::Equal);
}

#[test]
fn type_rank_dominates_content() {
    assert_eq!(compare(&Value::Null, &Value::False), Order::Less);
    assert_eq!(compare(&Value::False, &num(-999)), Order::Less);
    assert_eq!(compare(&num(999_999), &s("")), Order::Less);
    assert_eq!(compare(&s("zzz"), &Value::Array(vec![])), Order::Less);
    assert_eq!(compare(&Value::Array(vec![num(9)]), &Value::Object(vec![])), Order::Less);
}

#[test]
fn number_ordering_is_native() {
    assert_eq!(compare(&num(-5), &num(3)), Order::Less);
    assert_eq!(compare(&num(3), &num(3)), Order::Equal);
    assert_eq!(compare(&num(i64::MAX), &num(i64::MIN)), Order::Greater);
}

#[test]
fn strings_compare_by_code_point() {
    assert_eq!(compare_strings("z", "\u{e9}"), Order::Less);
    assert_eq!(compare_strings("\u{e9}", "\u{e9}"), Order::Equal);
    assert_eq!(compare_strings("a\u{e9}", "ab"), Order::Greater);
}

#[test]
fn object_insert_leaves_non_objects_unchanged() {
    let v = object_insert(num(3), "k".to_string(), num(1));
    assert_eq!(v, num(3));
}

#[test]
fn object_key_order_is_irrelevant() {
    let ab = obj(&[("a", 1), ("b", 2)]);
    let ba = obj(&[("b", 2), ("a", 1)]);
    assert_eq!(compare(&ab, &ba), Order::Equal);
    assert_eq!(apply_comparison(&Comparator::Equal, &ab, &ba), Value::True);
}

#[test]
fn object_insert_replaces_same_key() {
    let one = obj(&[("k", 1)]);
    let two = obj(&[("k", 1), ("k", 7)]);
    assert_eq!(two, obj(&[("k", 7)]));
    assert_eq!(compare(&one, &two), Order::Less);
}

#[test]
fn object_key_list_compares_before_values() {
    // {a:5, b:1} < {a:4, c:0}: the key lists decide before any value.
    let left = obj(&[("a", 5), ("b", 1)]);
    let right = obj(&[("a", 4), ("c", 0)]);
    assert_eq!(compare(&left, &right), Order::Less);
    // Equal key lists: the first differing value in ascending-key order decides.
    let low = obj(&[("a", 1), ("b", 9)]);
    let high = obj(&[("a", 2), ("b", 0)]);
    assert_eq!(compare(&low, &high), Order::Less);
    // A strict-prefix key list ranks less.
    let small = obj(&[("a", 9)]);
    let big = obj(&[("a", 1), ("b", 1)]);
    assert_eq!(compare(&small, &big), Order::Less);
}

#[test]
fn nested_values_compare_recursively() {
    let inner_a = Value::Array(vec![num(1), s("x")]);
    let inner_b = Value::Array(vec![num(1), s("y")]);
    assert_eq!(compare(&inner_a, &inner_b), Order::Less);
    let outer_a = Value::Array(vec![inner_a.clone(), num(0)]);
    let outer_b = Value::Array(vec![inner_b.clone(), num(-1)]);
    assert_eq!(compare(&outer_a, &outer_b), Order::Less);
    let oa = object_insert(empty_object(), "k".to_string(), inner_a);
    let ob = object_insert(empty_object(), "k".to_string(), inner_b);
    assert_eq!(compare(&oa, &ob), Order::Less);
}

#[test]
fn exactly_one_relation_holds() {
    let samples = [
        Value::Null,
        Value::True,
        num(-2),
        num(2),
        s("q"),
        Value::Array(vec![num(1)]),
        obj(&[("a", 1)]),
    ];
    for a in &samples {
        for b in &samples {
            let o = compare(a, b);
            let count = [Order::Less, Order::Equal, Order::Greater]
                .iter()
                .filter(|x| **x == o)
                .count();
            assert_eq!(count, 1);
        }
    }
}

#[test]
fn comparison_is_mirrored() {
    let samples = [
        Value::Null,
        Value::False,
        num(4),
        s("mm"),
        Value::Array(vec![num(1), num(2)]),
        obj(&[("a", 1), ("b", 2)]),
    ];
    for a in &samples {
        for b in &samples {
            let fwd = compare(a, b);
            let bwd = compare(b, a);
            let mirrored = match bwd {
                Order::Less => Order::Greater,
                Order::Equal => Order::Equal,
                Order::Greater => Order::Less,
            };
            assert_eq!(fwd, mirrored);
        }
    }
}

#[test]
fn comparison_is_transitive_on_samples() {
    let mut samples = vec![
        Value::Null,
        Value::False,
        Value::True,
        num(-1),
        num(3),
        s("a"),
        s("b"),
        Value::Array(vec![num(1)]),
        Value::Array(vec![num(1), num(2)]),
        obj(&[("a", 1)]),
        obj(&[("b", 1)]),
    ];
    samples.sort_by(|a, b| match compare(a, b) {
        Order::Less => std::cmp::Ordering::Less,
        Order::Equal => std::cmp::Ordering::Equal,
        Order::Greater => std::cmp::Ordering::Greater,
    });
    for i in 0..samples.len() {
        for j in (i + 1)..samples.len() {
            assert_ne!(compare(&samples[i], &samples[j]), Order::Greater);
        }
    }
}

#[test]
fn six_relational_operations() {
    let one = num(1);
    let two = num(2);
    assert_eq!(apply_comparison(&Comparator::Equal, &one, &two), Value::False);
    assert_eq!(apply_comparison(&Comparator::NotEqual, &one, &two), Value::True);
    assert_eq!(apply_comparison(&Comparator::GreaterThan, &one, &two), Value::False);
    assert_eq!(apply_comparison(&Comparator::GreaterOrEqual, &two, &two), Value::True);
    assert_eq!(apply_comparison(&Comparator::LessThan, &one, &two), Value::True);
    assert_eq!(apply_comparison(&Comparator::LessOrEqual, &two, &one), Value::False);
}

#[test]
fn comparator_carries_diagnostic_names() {
    assert_eq!(comparator(&Comparator::Equal).name, "Equal");
    assert_eq!(comparator(&Comparator::NotEqual).name, "NotEqual");
    assert_eq!(comparator(&Comparator::GreaterThan).name, "GreaterThan");
    assert_eq!(comparator(&Comparator::GreaterOrEqual).name, "GreaterOrEqual");
    assert_eq!(comparator(&Comparator::LessThan).name, "LessThan");
    assert_eq!(comparator(&Comparator::LessOrEqual).name, "LessOrEqual");
}
