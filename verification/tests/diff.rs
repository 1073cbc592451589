use live_view::builder::RenderedBuilder;
use live_view::json::Json;
use live_view::rendered::Rendered;

fn txt(s: &str) -> Json {
    Json::Text(s.to_string())
}

fn arr(items: Vec<Json>) -> Json {
    Json::Arr(items)
}

fn obj(entries: Vec<(&str, Json)>) -> Json {
    Json::Obj(entries.into_iter().map(|(k, v)| (k.to_string(), v)).collect())
}

fn texts(items: &[&str]) -> Json {
    arr(items.iter().map(|s| txt(s)).collect())
}

#[test]
fn dynamic_diff() {
    let render = |s: &str| {
        let mut b = RenderedBuilder::new();
        b.push_static("<a href=\"");
        b.push_dynamic(s.to_string());
        b.push_static("/lambda-fairy/maud\">Hello, world!</a>");
        b.build()
    };

    let diff = render("hey").diff(&render("there"));
    assert_eq!(diff, Some(obj(vec![("0", txt("there"))])));
}

fn render_welcome(logged_in: bool, dynamic_body: bool) -> Rendered {
    let mut b = RenderedBuilder::new();
    b.push_static("Welcome ");
    b.push_if_frame();
    if logged_in {
        if dynamic_body {
            b.push_dynamic("true".to_string());
        } else {
            b.push_static("person");
        }
    }
    b.pop_frame();
    b.push_static(".");
    b.build()
}

#[test]
fn if_statement_false_to_true_diff() {
    let diff = render_welcome(false, false).diff(&render_welcome(true, false));
    assert_eq!(
        diff,
        Some(obj(vec![("0", obj(vec![("s", texts(&["person"]))]))]))
    );

    let diff = render_welcome(false, true).diff(&render_welcome(true, true));
    assert_eq!(
        diff,
        Some(obj(vec![(
            "0",
            obj(vec![("s", texts(&["", ""])), ("0", txt("true"))]),
        )]))
    );
}

fn render_user(user: Option<&str>) -> Rendered {
    let mut b = RenderedBuilder::new();
    b.push_static("Welcome ");
    b.push_if_frame();
    match user {
        Some(name) => b.push_dynamic(name.to_string()),
        None => b.push_static("stranger"),
    }
    b.pop_frame();
    b.build()
}

#[test]
fn if_statement_let_none_to_some_diff() {
    let diff = render_user(None).diff(&render_user(Some("Bob")));
    assert_eq!(
        diff,
        Some(obj(vec![(
            "0",
            obj(vec![("s", texts(&["", ""])), ("0", txt("Bob"))]),
        )]))
    );
}

#[test]
fn if_statement_let_some_to_none_diff() {
    let diff = render_user(Some("Bob")).diff(&render_user(None));
    assert_eq!(
        diff,
        Some(obj(vec![("0", obj(vec![("s", texts(&["stranger"]))]))]))
    );
}

fn render_counts(count: i32) -> Rendered {
    let mut b = RenderedBuilder::new();
    b.push_if_frame();
    if count >= 1 {
        b.push_static("<p>Count is high</p>");
        b.push_if_frame();
        if count >= 2 {
            b.push_static("<p>Count is very high!</p>");
        }
        b.pop_frame();
    }
    b.pop_frame();
    b.build()
}

#[test]
fn if_statement_nested_diff() {
    let diff = render_counts(0).diff(&render_counts(1));
    assert_eq!(
        diff,
        Some(obj(vec![(
            "0",
            obj(vec![("s", texts(&["<p>Count is high</p>", ""])), ("0", txt(""))]),
        )]))
    );

    let diff = render_counts(1).diff(&render_counts(2));
    assert_eq!(
        diff,
        Some(obj(vec![(
            "0",
            obj(vec![(
                "0",
                obj(vec![("s", texts(&["<p>Count is very high!</p>"]))]),
            )]),
        )]))
    );

    let diff = render_counts(2).diff(&render_counts(3));
    assert_eq!(diff, None);
}

fn render_names(names: &[&str]) -> Rendered {
    let mut b = RenderedBuilder::new();
    b.push_for_frame();
    for name in names {
        b.push_for_item();
        b.push_static("<span>");
        b.push_dynamic(name.to_string());
        b.push_static("</span>");
        b.pop_for_item();
    }
    b.pop_frame();
    b.build()
}

#[test]
fn for_loop_dynamics() {
    let diff = render_names(&[]).diff(&render_names(&["John"]));
    assert_eq!(
        diff,
        Some(obj(vec![(
            "0",
            obj(vec![
                ("s", texts(&["<span>", "</span>"])),
                ("d", arr(vec![arr(vec![txt("John")])])),
            ]),
        )]))
    );

    let diff = render_names(&["John"]).diff(&render_names(&["John", "Joe"]));
    assert_eq!(
        diff,
        Some(obj(vec![(
            "0",
            obj(vec![(
                "d",
                arr(vec![arr(vec![txt("John")]), arr(vec![txt("Joe")])]),
            )]),
        )]))
    );

    let diff = render_names(&["John", "Joe"]).diff(&render_names(&["John", "Joe", "Jim"]));
    assert_eq!(
        diff,
        Some(obj(vec![(
            "0",
            obj(vec![(
                "d",
                arr(vec![
                    arr(vec![txt("John")]),
                    arr(vec![txt("Joe")]),
                    arr(vec![txt("Jim")]),
                ]),
            )]),
        )]))
    );

    let diff = render_names(&["John", "Joe"]).diff(&render_names(&["John"]));
    assert_eq!(
        diff,
        Some(obj(vec![(
            "0",
            obj(vec![("d", arr(vec![arr(vec![txt("John")])]))]),
        )]))
    );

    let diff = render_names(&["John"]).diff(&render_names(&[]));
    assert_eq!(diff, Some(obj(vec![("0", obj(vec![("d", arr(vec![]))]))])));
}

#[test]
fn diff_with_self_is_none() {
    let tree = render_names(&["John", "Joe"]);
    assert_eq!(tree.diff(&render_names(&["John", "Joe"])), None);

    let tree2 = render_welcome(true, true);
    assert_eq!(tree2.diff(&render_welcome(true, true)), None);
}

#[test]
fn encoding_shape() {
    let tree = render_names(&["John"]);
    assert_eq!(
        tree.into_json(),
        obj(vec![
            ("s", texts(&["", ""])),
            (
                "0",
                obj(vec![
                    ("s", texts(&["<span>", "</span>"])),
                    ("d", arr(vec![arr(vec![txt("John")])])),
                ]),
            ),
        ])
    );
}

#[test]
fn encoding_numbers_slots_past_nine() {
    let mut b = RenderedBuilder::new();
    for i in 0..11u32 {
        b.push_static("s");
        b.push_dynamic(i.to_string());
    }
    let tree = b.build();
    let encoded = tree.into_json();
    let Json::Obj(entries) = &encoded else {
        panic!("encodings are objects");
    };
    assert_eq!(entries[0].0, "s");
    assert_eq!(entries[1].0, "0");
    assert_eq!(entries[10].0, "9");
    assert_eq!(entries[11].0, "10");
    assert_eq!(entries[11].1, txt("10"));
}
