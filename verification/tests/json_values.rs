use live_view::diff::diff;
use live_view::json::Json;
use live_view::strip::{strip, Strip};

fn txt(s: &str) -> Json {
    Json::Text(s.to_string())
}

fn num(n: u64) -> Json {
    Json::Num(n)
}

fn arr(items: Vec<Json>) -> Json {
    Json::Arr(items)
}

fn obj(entries: Vec<(&str, Json)>) -> Json {
    Json::Obj(entries.into_iter().map(|(k, v)| (k.to_string(), v)).collect())
}

fn texts(items: &[&str]) -> Json {
    arr(items.iter().map(|s| txt(s)).collect())
}

#[test]
fn null() {
    assert_eq!(diff(&Json::Null, &Json::Null), None);
    assert_eq!(diff(&Json::Null, &Json::Bool(true)), Some(Json::Bool(true)));
    assert_eq!(diff(&Json::Bool(true), &Json::Null), Some(Json::Null));
}

#[test]
fn bool() {
    assert_eq!(diff(&Json::Bool(true), &Json::Null), Some(Json::Null));
    assert_eq!(diff(&Json::Bool(true), &Json::Bool(true)), None);
    assert_eq!(diff(&Json::Null, &Json::Bool(true)), Some(Json::Bool(true)));
    assert_eq!(diff(&Json::Bool(false), &Json::Bool(false)), None);
    assert_eq!(
        diff(&Json::Bool(false), &Json::Bool(true)),
        Some(Json::Bool(true))
    );
    assert_eq!(
        diff(&Json::Bool(true), &Json::Bool(false)),
        Some(Json::Bool(false))
    );
}

#[test]
fn string() {
    assert_eq!(diff(&txt("old"), &Json::Null), Some(Json::Null));
    assert_eq!(diff(&Json::Null, &txt("new")), Some(txt("new")));
    assert_eq!(diff(&txt("old"), &txt("old")), None);
    assert_eq!(diff(&txt("old"), &txt("new")), Some(txt("new")));
}

#[test]
fn number() {
    assert_eq!(diff(&num(1), &Json::Null), Some(Json::Null));
    assert_eq!(diff(&Json::Null, &num(1)), Some(num(1)));
    assert_eq!(diff(&num(1), &num(1)), None);
    assert_eq!(diff(&num(1), &num(2)), Some(num(2)));
}

#[test]
fn array() {
    let d = diff(
        &obj(vec![
            (
                "0",
                obj(vec![
                    ("d", arr(vec![arr(vec![])])),
                    ("s", texts(&["<span>Hi</span>"])),
                ]),
            ),
            ("s", texts(&["", ""])),
        ]),
        &obj(vec![("0", txt("")), ("s", texts(&["", ""]))]),
    );
    assert_eq!(d, Some(obj(vec![("0", obj(vec![("d", arr(vec![]))]))])));
}

#[test]
fn object() {
    assert_eq!(
        diff(
            &obj(vec![("key1", num(1)), ("key2", txt("value2"))]),
            &Json::Null
        ),
        Some(Json::Null)
    );
    assert_eq!(
        diff(
            &Json::Null,
            &obj(vec![("key1", num(1)), ("key2", txt("value2"))])
        ),
        Some(obj(vec![("key1", num(1)), ("key2", txt("value2"))]))
    );
    assert_eq!(
        diff(
            &obj(vec![("key1", num(1)), ("key2", txt("value2"))]),
            &obj(vec![("key1", num(1)), ("key2", txt("value2"))])
        ),
        None
    );
    assert_eq!(
        diff(
            &obj(vec![
                ("key1", num(1)),
                ("key2", txt("value2")),
                ("key3", arr(vec![num(1), num(2)])),
                ("key4", arr(vec![num(1), num(2), num(3)])),
                ("key6", Json::Bool(true)),
            ]),
            &obj(vec![
                ("key1", num(1)),
                ("key2", txt("value2")),
                ("key3", arr(vec![num(1), num(2)])),
                ("key4", arr(vec![num(1), num(2), num(3), num(4)])),
                ("key5", Json::Bool(true)),
            ]),
        ),
        Some(obj(vec![
            ("key4", arr(vec![num(1), num(2), num(3), num(4)])),
            ("key6", Json::Null),
            ("key5", Json::Bool(true)),
        ]))
    );
    assert_eq!(
        diff(
            &obj(vec![
                ("A", texts(&["foo"])),
                ("B", Json::Bool(true)),
                ("M", obj(vec![("a", num(1)), ("b", txt("foo"))])),
            ]),
            &obj(vec![
                ("A", texts(&["foo", "bar"])),
                ("B", Json::Bool(false)),
                ("M", obj(vec![("a", num(1)), ("b", txt("bar"))])),
            ]),
        ),
        Some(obj(vec![
            ("A", texts(&["foo", "bar"])),
            ("B", Json::Bool(false)),
            ("M", obj(vec![("b", txt("bar"))])),
        ]))
    );
}

#[test]
fn strip_it() {
    assert_eq!(strip(Strip::Nulls.mask(), Json::Null), None);
    assert_eq!(strip(Strip::Nulls.and(Strip::Empties), Json::Null), None);
    assert_eq!(strip(Strip::Nulls.mask(), obj(vec![])), Some(obj(vec![])));
    assert_eq!(strip(Strip::Nulls.and(Strip::Empties), obj(vec![])), None);
    assert_eq!(
        strip(
            Strip::Nulls.and(Strip::Empties),
            obj(vec![
                (
                    "key",
                    obj(vec![("value", txt("value")), ("null", Json::Null)]),
                ),
                ("arr", arr(vec![Json::Null])),
            ]),
        ),
        Some(obj(vec![("key", obj(vec![("value", txt("value"))]))]))
    );
    assert_eq!(
        strip(
            Strip::Nulls.and(Strip::Empties),
            obj(vec![
                (
                    "key",
                    obj(vec![("value", txt("value")), ("null", Json::Null)]),
                ),
                ("arr", arr(vec![Json::Null, num(1)])),
            ]),
        ),
        Some(obj(vec![
            ("key", obj(vec![("value", txt("value"))])),
            ("arr", arr(vec![Json::Null, num(1)])),
        ]))
    );
    assert_eq!(
        strip(
            Strip::Nulls.and(Strip::Empties),
            obj(vec![
                (
                    "key",
                    obj(vec![("value", txt("value")), ("null", Json::Null)]),
                ),
                ("arr", arr(vec![])),
            ]),
        ),
        Some(obj(vec![("key", obj(vec![("value", txt("value"))]))]))
    );
    assert_eq!(
        strip(
            Strip::Empties.mask(),
            obj(vec![
                (
                    "key",
                    obj(vec![("value", Json::Null), ("null", Json::Null)]),
                ),
                ("arr", arr(vec![Json::Null])),
                ("empty", arr(vec![])),
            ]),
        ),
        Some(obj(vec![
            (
                "key",
                obj(vec![("value", Json::Null), ("null", Json::Null)]),
            ),
            ("arr", arr(vec![Json::Null])),
        ]))
    );
}
