use ciborium::value::Value;
use webauthn::{CredProps, DataItem, ExtensionMap, ExtensionView};

fn item(v: &Value) -> DataItem {
    match v {
        Value::Integer(i) => DataItem::Integer((*i).into()),
        Value::Bytes(b) => DataItem::Bytes(b.clone()),
        Value::Float(f) => DataItem::Float(f.to_bits()),
        Value::Text(s) => DataItem::Text(s.clone()),
        Value::Bool(b) => DataItem::Bool(*b),
        Value::Null => DataItem::Null,
        Value::Tag(t, inner) => DataItem::Tag(*t, Box::new(item(inner))),
        Value::Array(a) => DataItem::Array(a.iter().map(item).collect()),
        Value::Map(m) => DataItem::Dict(m.iter().map(|(k, v)| (item(k), item(v))).collect()),
        _ => DataItem::Other,
    }
}

fn make_map(entries: &[(&str, Value)]) -> ExtensionMap {
    let mut map = ExtensionMap::new();
    for (k, v) in entries {
        map.insert(k.to_string(), item(v));
    }
    map
}

#[test]
fn cred_props_rk_true() {
    let inner = Value::Map(vec![(Value::Text("rk".to_string()), Value::Bool(true))]);
    let map = make_map(&[("credProps", inner)]);
    let view = ExtensionView::new(&map);
    assert_eq!(view.cred_props(), Some(CredProps { rk: Some(true) }));
}

#[test]
fn cred_props_rk_false() {
    let inner = Value::Map(vec![(Value::Text("rk".to_string()), Value::Bool(false))]);
    let map = make_map(&[("credProps", inner)]);
    let view = ExtensionView::new(&map);
    assert_eq!(view.cred_props(), Some(CredProps { rk: Some(false) }));
}

#[test]
fn cred_props_rk_absent_gives_none_rk() {
    let inner = Value::Map(vec![]);
    let map = make_map(&[("credProps", inner)]);
    let view = ExtensionView::new(&map);
    assert_eq!(view.cred_props(), Some(CredProps { rk: None }));
}

#[test]
fn cred_props_rk_wrong_type_gives_none_rk() {
    let inner = Value::Map(vec![(
        Value::Text("rk".to_string()),
        Value::Integer(1i64.into()),
    )]);
    let map = make_map(&[("credProps", inner)]);
    let view = ExtensionView::new(&map);
    assert_eq!(view.cred_props(), Some(CredProps { rk: None }));
}

#[test]
fn cred_props_value_not_a_map_returns_none() {
    let map = make_map(&[("credProps", Value::Bool(true))]);
    let view = ExtensionView::new(&map);
    assert!(view.cred_props().is_none());
}

#[test]
fn cred_props_absent_returns_none() {
    let map = make_map(&[]);
    let view = ExtensionView::new(&map);
    assert!(view.cred_props().is_none());
}

#[test]
fn appid_true() {
    let map = make_map(&[("appid", Value::Bool(true))]);
    let view = ExtensionView::new(&map);
    assert_eq!(view.appid(), Some(true));
}

#[test]
fn appid_false() {
    let map = make_map(&[("appid", Value::Bool(false))]);
    let view = ExtensionView::new(&map);
    assert_eq!(view.appid(), Some(false));
}

#[test]
fn appid_absent_returns_none() {
    let map = make_map(&[]);
    let view = ExtensionView::new(&map);
    assert!(view.appid().is_none());
}

#[test]
fn appid_wrong_type_returns_none() {
    let map = make_map(&[("appid", Value::Integer(1i64.into()))]);
    let view = ExtensionView::new(&map);
    assert!(view.appid().is_none());
}

#[test]
fn prf_with_first_only() {
    let inner = Value::Map(vec![(
        Value::Text("results".to_string()),
        Value::Map(vec![(
            Value::Text("first".to_string()),
            Value::Bytes(vec![0xAA, 0xBB]),
        )]),
    )]);
    let map = make_map(&[("prf", inner)]);
    let view = ExtensionView::new(&map);
    let prf = view.prf().expect("expected prf");
    let results = prf.results.expect("expected results");
    assert_eq!(results.first, vec![0xAA, 0xBB]);
    assert!(results.second.is_none());
}

#[test]
fn prf_with_first_and_second() {
    let inner = Value::Map(vec![(
        Value::Text("results".to_string()),
        Value::Map(vec![
            (
                Value::Text("first".to_string()),
                Value::Bytes(vec![0x01, 0x02]),
            ),
            (
                Value::Text("second".to_string()),
                Value::Bytes(vec![0x03, 0x04]),
            ),
        ]),
    )]);
    let map = make_map(&[("prf", inner)]);
    let view = ExtensionView::new(&map);
    let prf = view.prf().expect("expected prf");
    let results = prf.results.expect("expected results");
    assert_eq!(results.first, vec![0x01, 0x02]);
    assert_eq!(results.second, Some(vec![0x03, 0x04]));
}

#[test]
fn prf_without_results_key() {
    let inner = Value::Map(vec![]);
    let map = make_map(&[("prf", inner)]);
    let view = ExtensionView::new(&map);
    let prf = view.prf().expect("expected prf");
    assert!(prf.results.is_none());
}

#[test]
fn prf_absent_returns_none() {
    let map = make_map(&[]);
    let view = ExtensionView::new(&map);
    assert!(view.prf().is_none());
}

#[test]
fn prf_outer_not_a_map_returns_none() {
    let map = make_map(&[("prf", Value::Bool(true))]);
    let view = ExtensionView::new(&map);
    assert!(view.prf().is_none());
}

#[test]
fn prf_results_not_a_map_returns_none() {
    let inner = Value::Map(vec![(
        Value::Text("results".to_string()),
        Value::Bool(true),
    )]);
    let map = make_map(&[("prf", inner)]);
    let view = ExtensionView::new(&map);
    assert!(view.prf().is_none());
}

#[test]
fn prf_results_missing_first_returns_none() {
    let inner = Value::Map(vec![(
        Value::Text("results".to_string()),
        Value::Map(vec![(
            Value::Text("second".to_string()),
            Value::Bytes(vec![0x03, 0x04]),
        )]),
    )]);
    let map = make_map(&[("prf", inner)]);
    let view = ExtensionView::new(&map);
    assert!(view.prf().is_none());
}

#[test]
fn unknown_extension_does_not_affect_known_accessors() {
    let cp = Value::Map(vec![(Value::Text("rk".to_string()), Value::Bool(true))]);
    let map = make_map(&[
        ("credProps", cp),
        ("unknownExtension", Value::Integer(42i64.into())),
    ]);
    let view = ExtensionView::new(&map);
    assert!(view.cred_props().is_some());
    assert!(view.appid().is_none());
    assert!(view.prf().is_none());
}
