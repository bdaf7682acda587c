use whitehall::ast::{Markup, PropValue};
use whitehall::parser::Parser;

fn parse_markup(src: &str) -> Markup {
    let mut parser = Parser::new(src);
    parser.parse().unwrap().markup
}

fn texts(ms: &[Markup]) -> Vec<String> {
    ms.iter()
        .map(|m| match m {
            Markup::Text(t) => format!("T:{}", t),
            Markup::Interpolation(e) => format!("I:{}", e),
            _ => "other".to_string(),
        })
        .collect()
}

#[test]
fn text_children_with_interpolation_and_escapes() {
    match parse_markup("<Text>Hi {name}! {{x}}</Text>") {
        Markup::Component(c) => {
            assert_eq!(c.name, "Text");
            assert!(c.props.is_empty());
            assert!(!c.self_closing);
            assert_eq!(texts(&c.children), vec!["T:Hi ", "I:name", "T:! {x}"]);
        }
        _ => panic!("expected a component"),
    }
}

#[test]
fn unclosed_interpolation_is_an_error() {
    let mut parser = Parser::new("<Text>Hi {name</Text>");
    assert!(parser.parse().is_err());
}

#[test]
fn plain_props_of_each_form() {
    match parse_markup("<Button enabled text=\"Save\" onClick={save()} />") {
        Markup::Component(c) => {
            assert!(c.self_closing);
            assert_eq!(c.props.len(), 3);
            assert_eq!(c.props[0].name, "enabled");
            assert_eq!(c.props[1].name, "text");
            assert_eq!(c.props[2].name, "onClick");
            let values: Vec<String> = c
                .props
                .iter()
                .map(|p| match &p.value {
                    PropValue::Expression(x) => x.clone(),
                    PropValue::Markup(_) => "markup".to_string(),
                })
                .collect();
            assert_eq!(values, vec!["true", "\"Save\"", "save()"]);
        }
        _ => panic!("expected a component"),
    }
}

#[test]
fn if_else_with_text_branches() {
    match parse_markup("<Column>@if (ready) { Done } else { Wait }</Column>") {
        Markup::Component(c) => match &c.children[0] {
            Markup::IfElse(b) => {
                assert_eq!(b.condition, "ready");
                assert_eq!(texts(&b.then_branch), vec!["T:Done "]);
                assert!(b.else_ifs.is_empty());
                assert_eq!(texts(b.else_branch.as_ref().unwrap()), vec!["T:Wait "]);
            }
            _ => panic!("expected @if"),
        },
        _ => panic!("expected a component"),
    }
}

#[test]
fn for_loop_with_text_body() {
    match parse_markup("<Column>@for (item in items) { {item} }</Column>") {
        Markup::Component(c) => match &c.children[0] {
            Markup::ForLoop(f) => {
                assert!(f.index.is_none());
                assert_eq!(f.item, "item");
                assert_eq!(f.collection, "items");
                assert!(f.key_expr.is_none());
                assert_eq!(texts(&f.body), vec!["I:item", "T: "]);
                assert!(f.empty_block.is_none());
            }
            _ => panic!("expected @for"),
        },
        _ => panic!("expected a component"),
    }
}

#[test]
fn when_with_component_branches() {
    match parse_markup("<Column>@when { a > 1 -> <Big /> else -> <Small>x</Small> }</Column>") {
        Markup::Component(c) => match &c.children[0] {
            Markup::When(w) => {
                assert_eq!(w.branches.len(), 2);
                assert_eq!(w.branches[0].condition.as_deref(), Some("a > 1"));
                assert!(w.branches[1].condition.is_none());
                match &w.branches[1].body {
                    Markup::Component(s) => {
                        assert_eq!(s.name, "Small");
                        assert_eq!(texts(&s.children), vec!["T:x"]);
                    }
                    _ => panic!("expected a component"),
                }
            }
            _ => panic!("expected @when"),
        },
        _ => panic!("expected a component"),
    }
}

#[test]
fn empty_store_class_parses() {
    let mut parser = Parser::new("class Empty {}\n<Text>Hi</Text>");
    let f = parser.parse().unwrap();
    assert_eq!(f.classes.len(), 1);
    assert_eq!(f.classes[0].name, "Empty");
    assert!(f.classes[0].properties.is_empty());
    assert!(f.classes[0].functions.is_empty());
}

#[test]
fn state_without_equals_names_what_was_found() {
    let mut parser = Parser::new("var x: Int\n<Text>Hi</Text>");
    let e = parser.parse().unwrap_err();
    assert!(e.starts_with("Expected '=' after variable 'x' with type Some(\"Int\"), found: Some('"));
    assert!(e.contains(" (context: \""));
}

#[test]
fn two_root_texts_become_column_children_in_order() {
    match parse_markup("<Text>A</Text>\n<Text>B</Text>") {
        Markup::Component(c) => {
            assert_eq!(c.name, "Column");
            assert!(c.props.is_empty());
            assert!(!c.self_closing);
            assert_eq!(c.children.len(), 2);
            for (child, want) in c.children.iter().zip(["A", "B"]) {
                match child {
                    Markup::Component(t) => {
                        assert_eq!(t.name, "Text");
                        assert_eq!(texts(&t.children), vec![format!("T:{}", want)]);
                    }
                    _ => panic!("expected a component"),
                }
            }
        }
        _ => panic!("expected a component"),
    }
}

#[test]
fn nested_components_keep_their_props_and_order() {
    let src = "<Column padding={16}>\n  <Text color=\"red\">Hi</Text>\n  <Spacer />\n</Column>";
    match parse_markup(src) {
        Markup::Component(c) => {
            assert_eq!(c.name, "Column");
            assert_eq!(c.props.len(), 1);
            assert_eq!(c.props[0].name, "padding");
            assert!(matches!(&c.props[0].value, PropValue::Expression(e) if e == "16"));
            assert_eq!(c.children.len(), 2);
            match &c.children[0] {
                Markup::Component(t) => {
                    assert_eq!(t.name, "Text");
                    assert!(matches!(&t.props[0].value, PropValue::Expression(e) if e == "\"red\""));
                    assert_eq!(texts(&t.children), vec!["T:Hi"]);
                }
                _ => panic!("expected a component"),
            }
            match &c.children[1] {
                Markup::Component(sp) => {
                    assert_eq!(sp.name, "Spacer");
                    assert!(sp.self_closing);
                    assert!(sp.children.is_empty());
                }
                _ => panic!("expected a component"),
            }
        }
        _ => panic!("expected a component"),
    }
}

#[test]
fn surrounding_white_space_does_not_change_the_parse() {
    let a = Parser::new("\n  <Text>A {x}</Text>\n\n").parse();
    let b = Parser::new("<Text>A {x}</Text>").parse();
    assert_eq!(format!("{:?}", a), format!("{:?}", b));
    let c = Parser::new("  onMount {}  ").parse();
    let d = Parser::new("onMount {}").parse();
    assert_eq!(format!("{:?}", c), format!("{:?}", d));
}

#[test]
fn state_declarations_before_markup_are_kept_in_order() {
    let file = Parser::new("var count = 0\nval label: String = name + \"!\"\n<Text>{count}</Text>")
        .parse()
        .unwrap();
    assert_eq!(file.state.len(), 2);
    assert_eq!(file.state[0].name, "count");
    assert!(file.state[0].mutable);
    assert_eq!(file.state[0].type_annotation, None);
    assert_eq!(file.state[0].initial_value, "0");
    assert!(!file.state[0].is_derived_state);
    assert_eq!(file.state[1].name, "label");
    assert!(!file.state[1].mutable);
    assert_eq!(file.state[1].type_annotation.as_deref(), Some("String"));
    assert_eq!(file.state[1].initial_value, "name + \"!\"");
    match &file.markup {
        Markup::Component(c) => {
            assert_eq!(c.name, "Text");
            assert_eq!(texts(&c.children), vec!["I:count"]);
        }
        _ => panic!("expected a component"),
    }
    assert!(file.imports.is_empty() && file.functions.is_empty() && file.classes.is_empty());
}

#[test]
fn control_flow_children_keep_their_branches() {
    let src = "<Column>\n  @if (a) {\n    <Text>A</Text>\n  } else if (b) {\n    <Text>B</Text>\n  } else {\n    <Text>C</Text>\n  }\n  @for (i, it in items, key = { it.id }) {\n    <Text>{it}</Text>\n  } empty {\n    <Text>none</Text>\n  }\n  @when {\n    x > 1 -> <Text>big</Text>\n    else -> <Text>small</Text>\n  }\n</Column>";
    match parse_markup(src) {
        Markup::Component(c) => {
            assert_eq!(c.name, "Column");
            assert_eq!(c.children.len(), 3);
            match &c.children[0] {
                Markup::IfElse(b) => {
                    assert_eq!(b.condition, "a");
                    assert_eq!(b.then_branch.len(), 1);
                    assert_eq!(b.else_ifs.len(), 1);
                    assert_eq!(b.else_ifs[0].condition, "b");
                    assert_eq!(b.else_branch.as_ref().map(|e| e.len()), Some(1));
                }
                _ => panic!("expected @if"),
            }
            match &c.children[1] {
                Markup::ForLoop(f) => {
                    assert_eq!(f.index.as_deref(), Some("i"));
                    assert_eq!(f.item, "it");
                    assert_eq!(f.collection, "items");
                    assert_eq!(f.key_expr.as_deref(), Some("it.id"));
                    assert_eq!(f.body.len(), 1);
                    assert_eq!(f.empty_block.as_ref().map(|e| e.len()), Some(1));
                }
                _ => panic!("expected @for"),
            }
            match &c.children[2] {
                Markup::When(w) => {
                    assert_eq!(w.branches.len(), 2);
                    assert_eq!(w.branches[0].condition.as_deref(), Some("x > 1"));
                    assert!(w.branches[1].condition.is_none());
                }
                _ => panic!("expected @when"),
            }
        }
        _ => panic!("expected a component"),
    }
}

#[test]
fn string_state_values_keep_their_quotes() {
    let file = Parser::new("val title = \"Hi there\"\n<Text>{title}</Text>").parse().unwrap();
    assert_eq!(file.state.len(), 1);
    assert_eq!(file.state[0].name, "title");
    assert!(!file.state[0].mutable);
    assert_eq!(file.state[0].initial_value, "\"Hi there\"");
}

#[test]
fn declarations_before_markup_fill_each_list_in_order() {
    let src = "import a.b.C\nimport d.E\ndata class Item(val id: Int)\nvar count = 0\nfun bump() {\n  count++\n}\nsuspend fun load() {\n  items = api.get()\n}\n$onMount {\n  load()\n}\n<Text>{count}</Text>";
    let file = Parser::new(src).parse().unwrap();
    let paths: Vec<&str> = file.imports.iter().map(|i| i.path.as_str()).collect();
    assert_eq!(paths, vec!["a.b.C", "d.E"]);
    assert_eq!(file.kotlin_blocks.len(), 1);
    assert!(file.kotlin_blocks[0].content.starts_with("data class Item"));
    assert_eq!(file.state.len(), 1);
    assert_eq!(file.state[0].name, "count");
    assert_eq!(file.functions.len(), 2);
    assert_eq!(file.functions[0].name, "bump");
    assert!(!file.functions[0].is_suspend);
    assert_eq!(file.functions[0].body, "count++");
    assert_eq!(file.functions[1].name, "load");
    assert!(file.functions[1].is_suspend);
    assert_eq!(file.lifecycle_hooks.len(), 1);
    assert_eq!(file.lifecycle_hooks[0].hook_type, "onMount");
    assert_eq!(file.lifecycle_hooks[0].body, "load()");
    assert!(file.props.is_empty() && file.classes.is_empty());
}

#[test]
fn store_object_file_parses_to_its_class() {
    let file = Parser::new("@store object AppState {\n  var count: Int = 0\n  fun inc() {\n    count++\n  }\n}")
        .parse()
        .unwrap();
    assert_eq!(file.classes.len(), 1);
    let c = &file.classes[0];
    assert_eq!(c.annotations, vec!["store".to_string()]);
    assert!(c.is_object);
    assert_eq!(c.name, "AppState");
    assert!(c.constructor.is_none());
    assert_eq!(c.properties.len(), 1);
    assert_eq!(c.properties[0].name, "count");
    assert!(c.properties[0].mutable);
    assert_eq!(c.properties[0].type_annotation.as_deref(), Some("Int"));
    assert_eq!(c.properties[0].initial_value.as_deref(), Some("0"));
    assert!(c.properties[0].getter.is_none() && c.properties[0].visibility.is_none());
    assert_eq!(c.functions.len(), 1);
    assert_eq!(c.functions[0].name, "inc");
    assert!(matches!(&file.markup, Markup::Text(t) if t.is_empty()));
    assert!(file.imports.is_empty() && file.state.is_empty() && file.functions.is_empty());
}

#[test]
fn prop_declarations_keep_types_and_defaults() {
    let file = Parser::new("@prop val title: String\n@prop val count: Int = 3\n<Text>{title}</Text>")
        .parse()
        .unwrap();
    assert_eq!(file.props.len(), 2);
    assert_eq!(file.props[0].name, "title");
    assert_eq!(file.props[0].prop_type, "String");
    assert!(file.props[0].default_value.is_none());
    assert_eq!(file.props[1].name, "count");
    assert_eq!(file.props[1].prop_type, "Int");
    assert_eq!(file.props[1].default_value.as_deref(), Some("3"));
}

#[test]
fn helper_composables_after_the_markup_are_functions_with_markup() {
    let file = Parser::new("<Card />\n\nfun Card() {\n  <Text>hi</Text>\n}\n").parse().unwrap();
    assert_eq!(file.functions.len(), 1);
    assert_eq!(file.functions[0].name, "Card");
    assert_eq!(file.functions[0].params, "");
    assert!(file.functions[0].body.is_empty());
    assert!(matches!(&file.functions[0].markup, Some(Markup::Component(c)) if c.name == "Text"));
}
