use whitehall::ast::{Component, ComponentProp, ForLoopBlock, Markup, PropValue};
use whitehall::compose_imports::{collect_imports_recursive, collect_imports_with_parent, strip_quotes_of};

fn comp(name: &str, props: Vec<(&str, &str)>, children: Vec<Markup>) -> Markup {
    Markup::Component(Component {
        name: name.to_string(),
        props: props
            .into_iter()
            .map(|(n, v)| ComponentProp {
                name: n.to_string(),
                value: PropValue::Expression(v.to_string()),
            })
            .collect(),
        children,
        self_closing: false,
    })
}

fn collect(m: &Markup) -> (Vec<String>, Vec<String>) {
    let mut p = Vec::new();
    let mut c = Vec::new();
    collect_imports_recursive(m, &mut p, &mut c);
    (p, c)
}

#[test]
fn text_with_modifier_padding() {
    let m = comp(
        "Text",
        vec![("modifier", "Modifier.padding(8.dp)")],
        vec![Markup::Text("hi".to_string())],
    );
    let (p, c) = collect(&m);
    assert_eq!(
        p,
        vec![
            "androidx.compose.ui.Modifier",
            "androidx.compose.foundation.layout.padding",
            "androidx.compose.ui.unit.dp",
        ]
    );
    assert_eq!(c, vec!["androidx.compose.material3.Text"]);
}

#[test]
fn plain_text_in_button_imports_text() {
    let m = comp("Button", vec![("onClick", "{ go() }")], vec![Markup::Text("Go".to_string())]);
    let (p, c) = collect(&m);
    assert!(p.is_empty());
    assert_eq!(
        c,
        vec!["androidx.compose.material3.Button", "androidx.compose.material3.Text"]
    );
}

#[test]
fn each_import_listed_once() {
    let m = Markup::Sequence(vec![
        comp("Text", vec![], vec![]),
        comp("Text", vec![("color", "\"#FF0000\"")], vec![]),
        comp("Column", vec![("spacing", "8")], vec![comp("Text", vec![], vec![])]),
    ]);
    let (p, c) = collect(&m);
    assert_eq!(
        p,
        vec![
            "androidx.compose.ui.graphics.Color",
            "androidx.compose.foundation.layout.Arrangement",
            "androidx.compose.ui.unit.dp",
        ]
    );
    assert_eq!(
        c,
        vec!["androidx.compose.material3.Text", "androidx.compose.foundation.layout.Column"]
    );
}

#[test]
fn theme_color_asks_for_material_theme() {
    let m = comp("Text", vec![("color", "\"primary\"")], vec![]);
    let (p, _) = collect(&m);
    assert_eq!(p, vec!["androidx.compose.material3.MaterialTheme"]);
}

fn keyed_loop() -> Markup {
    Markup::ForLoop(ForLoopBlock {
        index: None,
        item: "item".to_string(),
        collection: "items".to_string(),
        key_expr: Some("it.id".to_string()),
        body: vec![comp("Text", vec![], vec![])],
        empty_block: None,
    })
}

#[test]
fn keyed_loop_outside_lazy_column_imports_key() {
    let m = comp("Column", vec![], vec![keyed_loop()]);
    let (p, c) = collect(&m);
    assert_eq!(p, vec!["androidx.compose.runtime.key"]);
    assert_eq!(
        c,
        vec!["androidx.compose.foundation.layout.Column", "androidx.compose.material3.Text"]
    );
}

#[test]
fn keyed_loop_in_lazy_column_uses_items() {
    let m = comp("LazyColumn", vec![], vec![keyed_loop()]);
    let (p, c) = collect(&m);
    assert_eq!(p, vec!["androidx.compose.foundation.lazy.items"]);
    assert_eq!(
        c,
        vec!["androidx.compose.foundation.lazy.LazyColumn", "androidx.compose.material3.Text"]
    );
}

#[test]
fn string_resource_interpolation() {
    let m = Markup::Interpolation("R.string.title".to_string());
    let (p, c) = collect(&m);
    assert_eq!(p, vec!["androidx.compose.ui.res.stringResource"]);
    assert_eq!(c, vec!["com.example.app.R"]);
}

#[test]
fn image_full_width() {
    let m = comp("Image", vec![("url", "\"a.png\""), ("width", "\"100%\"")], vec![]);
    let (p, c) = collect(&m);
    assert_eq!(
        p,
        vec![
            "androidx.compose.ui.layout.ContentScale",
            "androidx.compose.ui.Modifier",
            "androidx.compose.ui.unit.dp",
            "androidx.compose.foundation.layout.fillMaxWidth",
        ]
    );
    assert_eq!(c, vec!["coil.compose.AsyncImage"]);
}

#[test]
fn spacer_without_size_defaults_to_height() {
    let m = comp("Spacer", vec![], vec![]);
    let (p, c) = collect(&m);
    assert_eq!(
        p,
        vec![
            "androidx.compose.ui.Modifier",
            "androidx.compose.ui.unit.dp",
            "androidx.compose.foundation.layout.height",
        ]
    );
    assert_eq!(c, vec!["androidx.compose.foundation.layout.Spacer"]);
}

#[test]
fn password_field_and_label() {
    let m = comp("TextField", vec![("type", "\"password\""), ("label", "\"Pin\"")], vec![]);
    let (p, c) = collect(&m);
    assert_eq!(p, vec!["androidx.compose.ui.text.input.PasswordVisualTransformation"]);
    assert_eq!(
        c,
        vec!["androidx.compose.material3.Text", "androidx.compose.material3.TextField"]
    );
}

#[test]
fn markup_prop_is_walked() {
    let m = Markup::Component(Component {
        name: "Scaffold".to_string(),
        props: vec![ComponentProp {
            name: "topBar".to_string(),
            value: PropValue::Markup(Box::new(comp("TopAppBar", vec![], vec![]))),
        }],
        children: vec![],
        self_closing: false,
    });
    let (p, c) = collect(&m);
    assert!(p.is_empty());
    assert_eq!(
        c,
        vec!["androidx.compose.material3.TopAppBar", "androidx.compose.material3.Scaffold"]
    );
}

#[test]
fn existing_imports_are_kept() {
    let mut p = vec!["androidx.compose.ui.Modifier".to_string()];
    let mut c = vec!["androidx.compose.material3.Text".to_string()];
    let m = comp("Box", vec![("width", "10")], vec![]);
    collect_imports_with_parent(&m, &mut p, &mut c, Some("Column"));
    assert_eq!(
        p,
        vec![
            "androidx.compose.ui.Modifier",
            "androidx.compose.foundation.layout.size",
            "androidx.compose.ui.unit.dp",
        ]
    );
    assert_eq!(
        c,
        vec!["androidx.compose.material3.Text", "androidx.compose.foundation.layout.Box"]
    );
}

#[test]
fn strip_quotes_removes_all_outer_quotes() {
    assert_eq!(strip_quotes_of("\"\"x\"\""), "x");
    assert_eq!(strip_quotes_of("\"\"\""), "");
    assert_eq!(strip_quotes_of("a\"b"), "a\"b");
}
