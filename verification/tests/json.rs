use markdown_plugin::json::Json;
use serde_json::Value;

fn string(s: &str) -> Json {
    Json::Str(s.to_owned())
}

fn object(members: Vec<(&str, Json)>) -> Json {
    Json::Object(
        members
            .into_iter()
            .map(|(k, v)| (k.to_owned(), v))
            .collect(),
    )
}

fn to_value(v: &Json) -> Value {
    match v {
        Json::Null => Value::Null,
        Json::Bool(b) => Value::Bool(*b),
        Json::Number(n) => serde_json::from_str(n).unwrap(),
        Json::Str(s) => Value::String(s.clone()),
        Json::Array(items) => Value::Array(items.iter().map(to_value).collect()),
        Json::Object(members) => Value::Object(
            members
                .iter()
                .map(|(k, v)| (k.clone(), to_value(v)))
                .collect(),
        ),
    }
}

fn copy(v: &Json) -> Json {
    match v {
        Json::Null => Json::Null,
        Json::Bool(b) => Json::Bool(*b),
        Json::Number(n) => Json::Number(n.clone()),
        Json::Str(s) => Json::Str(s.clone()),
        Json::Array(items) => Json::Array(items.iter().map(copy).collect()),
        Json::Object(members) => Json::Object(
            members.iter().map(|(k, v)| (k.clone(), copy(v))).collect(),
        ),
    }
}

fn sample() -> Json {
    object(vec![
        ("", string("empty name")),
        ("a/b", string("slash")),
        ("m~n", string("tilde")),
        ("~1", string("looks escaped")),
        (
            "list",
            Json::Array(vec![
                string("zero"),
                Json::Array(vec![Json::Number("1".to_owned())]),
                object(vec![("k", Json::Null)]),
            ]),
        ),
        ("01", string("digits")),
    ])
}

const POINTERS: [&str; 27] = [
    "", "/", "//", "/a~1b", "/a/b", "/m~0n", "/~01", "/~1", "/~", "/~2", "/list", "/list/",
    "/list/0", "/list/00", "/list/01", "/list/+1", "/list/-1", "/list/1", "/list/1/0",
    "/list/2/k", "/list/3", "/list/2/k/x", "/01", "list", "x",
    "/list/99999999999999999999999999", "/list/1/",
];

#[test]
fn a_pointer_leads_where_serde_says_it_does() {
    let v = sample();
    let want = to_value(&v);
    for p in POINTERS {
        assert_eq!(
            v.pointer(p).map(to_value),
            want.pointer(p).cloned(),
            "pointer {p:?}"
        );
    }
}

#[test]
fn a_replacement_lands_where_serde_puts_it() {
    for p in POINTERS {
        let mut v = sample();
        let mut want = to_value(&v);
        let done = v.replace(p, string("new"));
        match want.pointer_mut(p) {
            Some(slot) => {
                *slot = Value::String("new".to_owned());
                assert!(done, "pointer {p:?}");
            }
            None => assert!(!done, "pointer {p:?}"),
        }
        assert_eq!(to_value(&v), want, "pointer {p:?}");
    }
}

#[test]
fn what_is_written_is_read_and_the_rest_stays() {
    let mut v = sample();
    assert!(v.replace("/list/1/0", string("new")));
    assert_eq!(v.pointer("/list/1/0"), Some(&string("new")));
    assert_eq!(v.pointer("/list/0"), Some(&string("zero")));
    assert_eq!(v.pointer("/a~1b"), Some(&string("slash")));
    assert!(!v.replace("/list/7", string("never")));
    assert_eq!(v.pointer("/list/7"), None);
}

#[test]
fn what_was_there_put_back_restores_the_whole() {
    let before = sample();
    for p in POINTERS {
        let mut v = sample();
        let was = match v.pointer(p) {
            Some(was) => copy(was),
            None => continue,
        };
        assert!(v.replace(p, string("new")));
        assert_ne!(v, before, "pointer {p:?}");
        assert!(v.replace(p, was));
        assert_eq!(v, before, "pointer {p:?}");
    }
}

#[test]
fn what_encloses_a_written_place_is_changed_only_there() {
    let mut v = sample();
    let mut list = copy(v.pointer("/list").unwrap());
    assert!(v.replace("/list/2/k", string("new")));
    assert!(list.replace("/2/k", string("new")));
    assert_eq!(v.pointer("/list"), Some(&list));
}
