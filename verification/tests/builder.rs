use live_view::builder::RenderedBuilder;
use live_view::rendered::{Dynamic, Dynamics, ListDynamic, Rendered, RenderedListItem};

fn strings(v: &[&str]) -> Vec<String> {
    v.iter().map(|x| x.to_string()).collect()
}

fn text(s: &str) -> Dynamic {
    Dynamic::Text(s.to_string())
}

fn ltext(s: &str) -> ListDynamic {
    ListDynamic::Text(s.to_string())
}

fn item(id: usize, groups: Vec<Dynamics>) -> ListDynamic {
    ListDynamic::Nested(RenderedListItem {
        statics: id,
        dynamics: groups,
    })
}

fn one_row_group(row: Vec<ListDynamic>) -> Dynamics {
    Dynamics::List(vec![row])
}

#[test]
fn builder_basic() {
    let mut b = RenderedBuilder::new();
    b.push_static("<p>");
    b.push_static("Hello, world!");
    b.push_static("</p>");
    let rendered = b.build();

    assert_eq!(rendered.statics, strings(&["<p>Hello, world!</p>"]));
    assert_eq!(rendered.dynamics, Dynamics::Items(vec![]));
    assert!(rendered.templates.is_empty());
}

#[test]
fn builder_dynamic() {
    let mut b = RenderedBuilder::new();
    b.push_dynamic("<!DOCTYPE html>".to_string());
    b.push_static("<a href=\"");
    b.push_dynamic("hey".to_string());
    b.push_static("/lambda-fairy/maud\">");
    b.push_static("Hello, world!");
    b.push_static("</a>");
    let rendered = b.build();

    assert_eq!(
        rendered,
        Rendered {
            statics: strings(&["", "<a href=\"", "/lambda-fairy/maud\">Hello, world!</a>"]),
            dynamics: Dynamics::Items(vec![text("<!DOCTYPE html>"), text("hey")]),
            templates: vec![],
        }
    );
}

#[test]
fn builder_if_statement_false() {
    let mut b = RenderedBuilder::new();
    b.push_static("Welcome ");
    b.push_if_frame();
    b.pop_frame();
    b.push_static(".");
    let rendered = b.build();

    assert_eq!(
        rendered,
        Rendered {
            statics: strings(&["Welcome ", "."]),
            dynamics: Dynamics::Items(vec![text("")]),
            templates: vec![],
        }
    );
}

#[test]
fn builder_if_statement_true() {
    let mut b = RenderedBuilder::new();
    b.push_static("Welcome ");
    b.push_if_frame();
    b.push_static("person");
    b.pop_frame();
    b.push_static(".");
    let rendered = b.build();

    assert_eq!(
        rendered,
        Rendered {
            statics: strings(&["Welcome ", "."]),
            dynamics: Dynamics::Items(vec![Dynamic::Nested(Rendered {
                statics: strings(&["person"]),
                dynamics: Dynamics::Items(vec![]),
                templates: vec![],
            })]),
            templates: vec![],
        }
    );

    let mut b = RenderedBuilder::new();
    b.push_static("Welcome ");
    b.push_if_frame();
    b.push_dynamic("true".to_string());
    b.pop_frame();
    b.push_static(".");
    let rendered = b.build();

    assert_eq!(
        rendered,
        Rendered {
            statics: strings(&["Welcome ", "."]),
            dynamics: Dynamics::Items(vec![Dynamic::Nested(Rendered {
                statics: strings(&["", ""]),
                dynamics: Dynamics::Items(vec![text("true")]),
                templates: vec![],
            })]),
            templates: vec![],
        }
    );
}

#[test]
fn builder_if_statement_let_some() {
    let mut b = RenderedBuilder::new();
    b.push_static("Welcome ");
    b.push_if_frame();
    b.push_dynamic("Bob".to_string());
    b.pop_frame();
    let rendered = b.build();

    assert_eq!(
        rendered,
        Rendered {
            statics: strings(&["Welcome ", ""]),
            dynamics: Dynamics::Items(vec![Dynamic::Nested(Rendered {
                statics: strings(&["", ""]),
                dynamics: Dynamics::Items(vec![text("Bob")]),
                templates: vec![],
            })]),
            templates: vec![],
        }
    );
}

#[test]
fn builder_if_statement_let_none() {
    let mut b = RenderedBuilder::new();
    b.push_static("Welcome ");
    b.push_if_frame();
    b.push_static("stranger");
    b.pop_frame();
    let rendered = b.build();

    assert_eq!(
        rendered,
        Rendered {
            statics: strings(&["Welcome ", ""]),
            dynamics: Dynamics::Items(vec![Dynamic::Nested(Rendered {
                statics: strings(&["stranger"]),
                dynamics: Dynamics::Items(vec![]),
                templates: vec![],
            })]),
            templates: vec![],
        }
    );
}

fn render_nested_if(count: usize) -> Rendered {
    let mut b = RenderedBuilder::new();
    b.push_if_frame();
    if count >= 1 {
        b.push_static("<p>Count is high</p>");
        b.push_if_frame();
        if count >= 2 {
            b.push_static("<p>Count is very high!</p>");
        }
        b.pop_frame();
    }
    b.pop_frame();
    b.build()
}

#[test]
fn builder_if_statement_nested() {
    assert_eq!(
        render_nested_if(0),
        Rendered {
            statics: strings(&["", ""]),
            dynamics: Dynamics::Items(vec![text("")]),
            templates: vec![],
        }
    );

    assert_eq!(
        render_nested_if(1),
        Rendered {
            statics: strings(&["", ""]),
            dynamics: Dynamics::Items(vec![Dynamic::Nested(Rendered {
                statics: strings(&["<p>Count is high</p>", ""]),
                dynamics: Dynamics::Items(vec![text("")]),
                templates: vec![],
            })]),
            templates: vec![],
        }
    );

    assert_eq!(
        render_nested_if(2),
        Rendered {
            statics: strings(&["", ""]),
            dynamics: Dynamics::Items(vec![Dynamic::Nested(Rendered {
                statics: strings(&["<p>Count is high</p>", ""]),
                dynamics: Dynamics::Items(vec![Dynamic::Nested(Rendered {
                    statics: strings(&["<p>Count is very high!</p>"]),
                    dynamics: Dynamics::Items(vec![]),
                    templates: vec![],
                })]),
                templates: vec![],
            })]),
            templates: vec![],
        }
    );
}

#[test]
fn builder_for_loop_empty() {
    let mut b = RenderedBuilder::new();
    b.push_static("<span>Hello</span>");
    b.push_for_frame();
    b.pop_frame();
    b.push_static("<span>world</span>");
    let rendered = b.build();

    assert_eq!(
        rendered,
        Rendered {
            statics: strings(&["<span>Hello</span>", "<span>world</span>"]),
            dynamics: Dynamics::Items(vec![text("")]),
            templates: vec![],
        }
    );
}

#[test]
fn builder_for_loop_statics() {
    let mut b = RenderedBuilder::new();
    b.push_for_frame();
    for _ in 0..3 {
        b.push_for_item();
        b.push_static("<span>Hi!</span>");
        b.pop_for_item();
    }
    b.pop_frame();
    let rendered = b.build();

    assert_eq!(
        rendered,
        Rendered {
            statics: strings(&["", ""]),
            dynamics: Dynamics::Items(vec![Dynamic::Nested(Rendered {
                statics: strings(&["<span>Hi!</span>"]),
                dynamics: Dynamics::List(vec![vec![], vec![], vec![]]),
                templates: vec![],
            })]),
            templates: vec![],
        }
    );
}

#[test]
fn builder_for_loop_dynamics() {
    let names = ["John", "Joe", "Jim"];
    let mut b = RenderedBuilder::new();
    b.push_for_frame();
    for name in names {
        b.push_for_item();
        b.push_static("<span>");
        b.push_dynamic(name.to_string());
        b.push_static("</span>");
        b.pop_for_item();
    }
    b.pop_frame();
    let rendered = b.build();

    assert_eq!(
        rendered,
        Rendered {
            statics: strings(&["", ""]),
            dynamics: Dynamics::Items(vec![Dynamic::Nested(Rendered {
                statics: strings(&["<span>", "</span>"]),
                dynamics: Dynamics::List(vec![
                    vec![ltext("John")],
                    vec![ltext("Joe")],
                    vec![ltext("Jim")],
                ]),
                templates: vec![],
            })]),
            templates: vec![],
        }
    );

    let mut b = RenderedBuilder::new();
    b.push_for_frame();
    for name in names {
        b.push_for_item();
        b.push_static("<span class=\"");
        b.push_dynamic(name.to_string());
        b.push_static("\">");
        b.push_dynamic(name.to_string());
        b.push_static("</span>");
        b.pop_for_item();
    }
    b.pop_frame();
    let rendered = b.build();

    assert_eq!(
        rendered,
        Rendered {
            statics: strings(&["", ""]),
            dynamics: Dynamics::Items(vec![Dynamic::Nested(Rendered {
                statics: strings(&["<span class=\"", "\">", "</span>"]),
                dynamics: Dynamics::List(vec![
                    vec![ltext("John"), ltext("John")],
                    vec![ltext("Joe"), ltext("Joe")],
                    vec![ltext("Jim"), ltext("Jim")],
                ]),
                templates: vec![],
            })]),
            templates: vec![],
        }
    );
}

#[test]
fn builder_for_loop_multiple() {
    let mut b = RenderedBuilder::new();
    b.push_static("<span>Hello</span>");
    b.push_for_frame();
    for _ in 0..2 {
        b.push_for_item();
        b.push_static("<span>A</span>");
        b.pop_for_item();
    }
    b.pop_frame();
    b.push_for_frame();
    b.pop_frame();
    b.push_static("<span>world</span>");
    let rendered = b.build();

    assert_eq!(
        rendered,
        Rendered {
            statics: strings(&["<span>Hello</span>", "", "<span>world</span>"]),
            dynamics: Dynamics::Items(vec![
                Dynamic::Nested(Rendered {
                    statics: strings(&["<span>A</span>"]),
                    dynamics: Dynamics::List(vec![vec![], vec![]]),
                    templates: vec![],
                }),
                text(""),
            ]),
            templates: vec![],
        }
    );
}

#[test]
fn for_loop_nested() {
    let a = "Hello";
    let b_str = "World";
    let mut b = RenderedBuilder::new();
    b.push_for_frame();
    for foo in [[a, b_str]] {
        b.push_for_item();
        b.push_for_frame();
        for bar in foo {
            b.push_for_item();
            b.push_static("<span>");
            b.push_dynamic(bar.to_string());
            b.push_static("</span>");
            b.pop_for_item();
        }
        b.pop_frame();
        b.pop_for_item();
    }
    b.pop_frame();
    let rendered = b.build();

    assert_eq!(
        rendered,
        Rendered {
            statics: strings(&["", ""]),
            dynamics: Dynamics::Items(vec![Dynamic::Nested(Rendered {
                statics: strings(&["", ""]),
                dynamics: Dynamics::List(vec![vec![item(
                    0,
                    vec![
                        one_row_group(vec![ltext("Hello")]),
                        one_row_group(vec![ltext("World")]),
                    ],
                )]]),
                templates: vec![strings(&["<span>", "</span>"])],
            })]),
            templates: vec![],
        }
    );

    let mut b = RenderedBuilder::new();
    b.push_for_frame();
    for foo in [[a, b_str]] {
        b.push_for_item();
        b.push_for_frame();
        for bar in foo {
            b.push_for_item();
            b.push_static("<span>");
            b.push_dynamic(bar.to_string());
            b.push_static("</span>");
            b.push_if_frame();
            if bar == "World" {
                b.push_static("<div>!!!</div>");
            }
            b.pop_frame();
            b.pop_for_item();
        }
        b.pop_frame();
        b.pop_for_item();
    }
    b.pop_frame();
    let rendered = b.build();

    assert_eq!(
        rendered,
        Rendered {
            statics: strings(&["", ""]),
            dynamics: Dynamics::Items(vec![Dynamic::Nested(Rendered {
                statics: strings(&["", ""]),
                dynamics: Dynamics::List(vec![vec![item(
                    1,
                    vec![
                        one_row_group(vec![ltext("Hello"), ltext("")]),
                        one_row_group(vec![ltext("World"), item(0, vec![one_row_group(vec![])])]),
                    ],
                )]]),
                templates: vec![
                    strings(&["<div>!!!</div>"]),
                    strings(&["<span>", "</span>", ""]),
                ],
            })]),
            templates: vec![],
        }
    );
}

#[test]
fn builder_for_loop_with_if() {
    let names = ["John", "Joe", "Jim"];
    let mut b = RenderedBuilder::new();
    b.push_for_frame();
    for name in names {
        b.push_for_item();
        b.push_static("<span>Welcome, ");
        b.push_dynamic(name.to_string());
        b.push_static(".</span>");
        b.push_if_frame();
        if name == "Jim" {
            b.push_static("<span>You are a VIP, ");
            b.push_dynamic(name.to_lowercase());
            b.push_static("</span>");
        }
        b.pop_frame();
        b.pop_for_item();
    }
    b.pop_frame();
    let rendered = b.build();

    assert_eq!(
        rendered,
        Rendered {
            statics: strings(&["", ""]),
            dynamics: Dynamics::Items(vec![Dynamic::Nested(Rendered {
                statics: strings(&["<span>Welcome, ", ".</span>", ""]),
                dynamics: Dynamics::List(vec![
                    vec![ltext("John"), ltext("")],
                    vec![ltext("Joe"), ltext("")],
                    vec![
                        ltext("Jim"),
                        item(0, vec![one_row_group(vec![ltext("jim")])]),
                    ],
                ]),
                templates: vec![strings(&["<span>You are a VIP, ", "</span>"])],
            })]),
            templates: vec![],
        }
    );
}

#[test]
fn builder_for_loop_with_multiple_ifs() {
    let names = ["John", "Joe", "Jim"];
    let mut b = RenderedBuilder::new();
    b.push_for_frame();
    for name in names {
        b.push_for_item();
        b.push_static("<span>Welcome, ");
        b.push_dynamic(name.to_string());
        b.push_static(".</span>");
        b.push_if_frame();
        if name == "Jim" {
            b.push_static("<span>You are a VIP, ");
            b.push_dynamic(name.to_lowercase());
            b.push_static("</span>");
            b.push_if_frame();
            if name.ends_with('m') {
                b.push_static("<span>");
                b.push_dynamic(name.to_string());
                b.push_static(" ends with m</span>");
            }
            b.pop_frame();
        }
        b.pop_frame();
        b.pop_for_item();
    }
    b.pop_frame();
    let rendered = b.build();

    assert_eq!(
        rendered,
        Rendered {
            statics: strings(&["", ""]),
            dynamics: Dynamics::Items(vec![Dynamic::Nested(Rendered {
                statics: strings(&["<span>Welcome, ", ".</span>", ""]),
                dynamics: Dynamics::List(vec![
                    vec![ltext("John"), ltext("")],
                    vec![ltext("Joe"), ltext("")],
                    vec![
                        ltext("Jim"),
                        item(
                            1,
                            vec![one_row_group(vec![
                                ltext("jim"),
                                item(0, vec![one_row_group(vec![ltext("Jim")])]),
                            ])],
                        ),
                    ],
                ]),
                templates: vec![
                    strings(&["<span>", " ends with m</span>"]),
                    strings(&["<span>You are a VIP, ", "</span>", ""]),
                ],
            })]),
            templates: vec![],
        }
    );
}

#[test]
fn builder_for_loop_with_many_ifs() {
    let names = ["John", "Joe", "Jim"];
    let mut b = RenderedBuilder::new();
    b.push_for_frame();
    for name in names {
        b.push_for_item();
        b.push_static("<span>Welcome, ");
        b.push_dynamic(name.to_string());
        b.push_static(".</span>");
        b.push_if_frame();
        if name == "Jim" || name == "Joe" {
            b.push_static("<span>You are a VIP, ");
            b.push_dynamic(name.to_lowercase());
            b.push_static("</span>");
            b.push_if_frame();
            if name.ends_with('m') || name.ends_with('e') {
                b.push_static("<span>");
                b.push_dynamic(name.to_string());
                b.push_static(" ends with m or e</span>");
            }
            b.pop_frame();
        }
        b.pop_frame();
        b.pop_for_item();
    }
    b.pop_frame();
    let rendered = b.build();

    assert_eq!(
        rendered,
        Rendered {
            statics: strings(&["", ""]),
            dynamics: Dynamics::Items(vec![Dynamic::Nested(Rendered {
                statics: strings(&["<span>Welcome, ", ".</span>", ""]),
                dynamics: Dynamics::List(vec![
                    vec![ltext("John"), ltext("")],
                    vec![
                        ltext("Joe"),
                        item(
                            1,
                            vec![one_row_group(vec![
                                ltext("joe"),
                                item(0, vec![one_row_group(vec![ltext("Joe")])]),
                            ])],
                        ),
                    ],
                    vec![
                        ltext("Jim"),
                        item(
                            1,
                            vec![one_row_group(vec![
                                ltext("jim"),
                                item(0, vec![one_row_group(vec![ltext("Jim")])]),
                            ])],
                        ),
                    ],
                ]),
                templates: vec![
                    strings(&["<span>", " ends with m or e</span>"]),
                    strings(&["<span>You are a VIP, ", "</span>", ""]),
                ],
            })]),
            templates: vec![],
        }
    );
}

#[test]
fn builder_conditional_toggle_restores_shape() {
    let render = |logged_in: bool, name: &str| {
        let mut b = RenderedBuilder::new();
        b.push_static("Welcome ");
        b.push_if_frame();
        if logged_in {
            b.push_dynamic(name.to_string());
        }
        b.pop_frame();
        b.push_static(".");
        b.build()
    };

    let off1 = render(false, "name");
    let on = render(true, "name");
    let off2 = render(false, "name");

    assert_eq!(off1.statics, strings(&["Welcome ", "."]));
    assert_eq!(on.statics, strings(&["Welcome ", "."]));
    assert_eq!(off2.statics, strings(&["Welcome ", "."]));
    assert_eq!(off1.dynamics, Dynamics::Items(vec![text("")]));
    assert_eq!(
        on.dynamics,
        Dynamics::Items(vec![Dynamic::Nested(Rendered {
            statics: strings(&["", ""]),
            dynamics: Dynamics::Items(vec![text("name")]),
            templates: vec![],
        })])
    );
    assert_eq!(off2.dynamics, Dynamics::Items(vec![text("")]));
    assert_eq!(off1, off2);
}

#[test]
fn flattened_text_interleaves() {
    let mut b = RenderedBuilder::new();
    b.push_static("Count is ");
    b.push_dynamic("3".to_string());
    b.push_static(".");
    let rendered = b.build();
    assert_eq!(rendered.to_text(), "Count is 3.");

    let mut b = RenderedBuilder::new();
    b.push_static("<ul>");
    b.push_for_frame();
    for name in ["John", "Jim"] {
        b.push_for_item();
        b.push_static("<li>");
        b.push_dynamic(name.to_string());
        b.push_static("</li>");
        b.pop_for_item();
    }
    b.pop_frame();
    b.push_static("</ul>");
    let rendered = b.build();
    assert_eq!(rendered.to_text(), "<ul><li>John</li><li>Jim</li></ul>");
}

#[test]
fn flattened_text_uses_templates() {
    let mut b = RenderedBuilder::new();
    b.push_for_frame();
    for name in ["John", "Jim"] {
        b.push_for_item();
        b.push_static("<p>");
        b.push_dynamic(name.to_string());
        b.push_static("</p>");
        b.push_if_frame();
        b.push_static("<b>hi ");
        b.push_dynamic(name.to_lowercase());
        b.push_static("</b>");
        b.pop_frame();
        b.pop_for_item();
    }
    b.pop_frame();
    let rendered = b.build();
    assert_eq!(
        rendered.to_text(),
        "<p>John</p><b>hi john</b><p>Jim</p><b>hi jim</b>"
    );
}
