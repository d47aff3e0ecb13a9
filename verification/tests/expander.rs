use perf_analyzer::config::{cross, ParamEntry, ParamValue};

fn s(text: &str) -> String {
    text.to_string()
}

fn pair(k: &str, v: &str) -> (String, String) {
    (s(k), s(v))
}

#[test]
fn test_flatten() {
    assert_eq!(
        ParamValue::flatten(vec![
            (
                s("a"),
                ParamValue::List(vec![ParamEntry::Integer(1), ParamEntry::Integer(2)])
            ),
            (
                s("b"),
                ParamValue::List(vec![ParamEntry::Integer(3), ParamEntry::Integer(4)])
            ),
        ]),
        vec![
            vec![pair("a", "1"), pair("b", "3")],
            vec![pair("a", "1"), pair("b", "4")],
            vec![pair("a", "2"), pair("b", "3")],
            vec![pair("a", "2"), pair("b", "4")],
        ]
    )
}

#[test]
fn test_cross_order_and_count() {
    let result = cross(vec![
        (s("k1"), vec![s("x"), s("y")]),
        (s("k2"), vec![s("p"), s("q"), s("r")]),
        (s("k3"), vec![s("z")]),
    ]);
    // Exactly the product of the per-key value counts.
    assert_eq!(result.len(), 2 * 3 * 1);
    // Every binding holds every key, in entry order.
    for binding in &result {
        assert_eq!(binding.len(), 3);
        assert_eq!(binding[0].0, "k1");
        assert_eq!(binding[1].0, "k2");
        assert_eq!(binding[2].0, "k3");
    }
    // No binding appears twice, so the multiset is the full product.
    for i in 0..result.len() {
        for j in 0..i {
            assert_ne!(result[i], result[j]);
        }
    }
    // Later keys vary fastest.
    assert_eq!(result[0], vec![pair("k1", "x"), pair("k2", "p"), pair("k3", "z")]);
    assert_eq!(result[1], vec![pair("k1", "x"), pair("k2", "q"), pair("k3", "z")]);
    assert_eq!(result[5], vec![pair("k1", "y"), pair("k2", "r"), pair("k3", "z")]);
}

#[test]
fn test_flatten_empty_yields_one_empty_binding() {
    let result = ParamValue::flatten(vec![]);
    assert_eq!(result, vec![Vec::<(String, String)>::new()]);
}

#[test]
fn test_flatten_empty_value_list_yields_no_bindings() {
    let result = ParamValue::flatten(vec![
        (s("a"), ParamValue::List(vec![])),
        (s("b"), ParamValue::List(vec![ParamEntry::Integer(3)])),
    ]);
    assert_eq!(result.len(), 0);
}

#[test]
fn test_scalar_normalization() {
    assert_eq!(
        ParamValue::Value(ParamEntry::Boolean(true)).into_normalized(),
        vec![s("true")]
    );
    assert_eq!(
        ParamValue::Value(ParamEntry::Boolean(false)).into_normalized(),
        vec![s("false")]
    );
    assert_eq!(
        ParamValue::Value(ParamEntry::Integer(0)).into_normalized(),
        vec![s("0")]
    );
    assert_eq!(
        ParamValue::Value(ParamEntry::Integer(-42)).into_normalized(),
        vec![s("-42")]
    );
    assert_eq!(
        ParamValue::Value(ParamEntry::Integer(i64::MIN)).into_normalized(),
        vec![s("-9223372036854775808")]
    );
    assert_eq!(
        ParamValue::Value(ParamEntry::Integer(i64::MAX)).into_normalized(),
        vec![s("9223372036854775807")]
    );
    assert_eq!(
        ParamValue::Value(ParamEntry::Str(s("barbaz"))).into_normalized(),
        vec![s("barbaz")]
    );
    assert_eq!(
        ParamValue::List(vec![
            ParamEntry::Str(s("foobar")),
            ParamEntry::Integer(6),
        ])
        .into_normalized(),
        vec![s("foobar"), s("6")]
    );
}
