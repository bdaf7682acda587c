use whitehall::ast::{Component, ComponentProp, PropValue};
use whitehall::compose_modifiers::{
    build_modifiers_for_component, build_padding_modifier, convert_hex_in_modifier, parse_dimension,
    ModifierConfig,
};
use whitehall::compose_text::ExprContext;

fn props(ps: &[(&str, &str)]) -> Vec<ComponentProp> {
    ps.iter()
        .map(|(n, v)| ComponentProp {
            name: n.to_string(),
            value: PropValue::Expression(v.to_string()),
        })
        .collect()
}

fn ctx() -> ExprContext {
    ExprContext {
        nullable_vars: vec![],
        in_viewmodel_wrapper: false,
        mutable_vars: vec![],
        derived_props: vec![],
        function_names: vec![],
    }
}

fn all() -> ModifierConfig {
    ModifierConfig {
        handle_size: true,
        handle_padding: true,
        handle_background: true,
        handle_click_as_modifier: true,
        handle_fill_max: true,
    }
}

#[test]
fn padding_cascade() {
    assert_eq!(build_padding_modifier(&props(&[("p", "8")]), None).unwrap(), ".padding(8.dp)");
    assert_eq!(
        build_padding_modifier(&props(&[("p", "8"), ("pl", "16")]), None).unwrap(),
        ".padding(top = 8.dp, bottom = 8.dp, start = 16.dp, end = 8.dp)"
    );
    assert_eq!(
        build_padding_modifier(&props(&[("px", "4"), ("py", "2")]), None).unwrap(),
        ".padding(horizontal = 4.dp, vertical = 2.dp)"
    );
    assert_eq!(build_padding_modifier(&props(&[]), Some("12")).unwrap(), ".padding(12.dp)");
    assert_eq!(build_padding_modifier(&props(&[]), Some("12.dp")).unwrap(), ".padding(12.dp)");
    assert_eq!(build_padding_modifier(&props(&[("pt", "3")]), None).unwrap(), ".padding(top = 3.dp)");
    assert_eq!(build_padding_modifier(&props(&[]), None), None);
}

#[test]
fn specific_side_beats_later_all_sides() {
    assert_eq!(
        build_padding_modifier(&props(&[("pl", "5"), ("p", "1")]), None).unwrap(),
        ".padding(top = 1.dp, bottom = 1.dp, start = 5.dp, end = 1.dp)"
    );
}

#[test]
fn dimensions() {
    assert_eq!(parse_dimension("300", "width", "Box"), ("300.dp".to_string(), false));
    assert_eq!(parse_dimension("\"300dp\"", "width", "Box"), ("300.dp".to_string(), false));
    assert_eq!(parse_dimension("\"12sp\"", "width", "Box"), ("12.sp".to_string(), false));
    assert_eq!(parse_dimension("\"100%\"", "width", "Box"), (String::new(), true));
    assert_eq!(parse_dimension("\"300\"", "width", "Box"), ("300.dp".to_string(), false));
    assert_eq!(parse_dimension("size * 2", "width", "Box"), ("size * 2".to_string(), false));
    assert_eq!(parse_dimension("\"auto\"", "width", "Box"), ("auto".to_string(), false));
    assert_eq!(parse_dimension("x.dp", "width", "Box"), ("x.dp".to_string(), false));
}

#[test]
fn modifiers_of_a_box() {
    let c = Component {
        name: "Box".to_string(),
        props: props(&[
            ("width", "\"100%\""),
            ("height", "48"),
            ("backgroundColor", "\"#FF0000\""),
            ("padding", "8"),
            ("onClick", "save"),
        ]),
        children: vec![],
        self_closing: true,
    };
    let (mods, handled) = build_modifiers_for_component(&c, all(), &ctx()).unwrap();
    assert_eq!(
        mods,
        vec![
            ".fillMaxWidth()",
            ".height(48.dp)",
            ".background(Color(0xFFFF0000))",
            ".padding(8.dp)",
            ".clickable { save() }",
        ]
    );
    assert_eq!(handled, vec!["width", "height", "backgroundColor", "padding", "onClick"]);
}

#[test]
fn fill_max_size_covers_width() {
    let c = Component {
        name: "Column".to_string(),
        props: props(&[("fillMaxSize", "true"), ("fillMaxWidth", "true"), ("backgroundColor", "\"red\"")]),
        children: vec![],
        self_closing: true,
    };
    let (mods, handled) = build_modifiers_for_component(&c, all(), &ctx()).unwrap();
    assert_eq!(mods, vec![".fillMaxSize()", ".background(Color.Red)"]);
    assert_eq!(handled, vec!["fillMaxSize", "fillMaxWidth", "backgroundColor"]);
}

#[test]
fn bad_hex_background_is_an_error() {
    let c = Component {
        name: "Box".to_string(),
        props: props(&[("backgroundColor", "\"#XYZ\"")]),
        children: vec![],
        self_closing: true,
    };
    assert_eq!(
        build_modifiers_for_component(&c, all(), &ctx()).unwrap_err(),
        "Invalid hex color 'XYZ': contains non-hexadecimal characters"
    );
}

#[test]
fn default_config_builds_nothing() {
    let c = Component {
        name: "Box".to_string(),
        props: props(&[("padding", "8")]),
        children: vec![],
        self_closing: true,
    };
    let (mods, handled) =
        build_modifiers_for_component(&c, ModifierConfig::default(), &ctx()).unwrap();
    assert!(mods.is_empty() && handled.is_empty());
}

#[test]
fn hex_colors_in_modifiers() {
    assert_eq!(
        convert_hex_in_modifier("Modifier.background(\"#FF0000\").padding(8.dp)").unwrap(),
        "Modifier.background(Color(0xFFFF0000)).padding(8.dp)"
    );
    assert_eq!(
        convert_hex_in_modifier("Modifier.background('#abc')").unwrap(),
        "Modifier.background(Color(0xFFaabbcc))"
    );
    assert_eq!(
        convert_hex_in_modifier(".background(\"#000\").x.background(\"#fff\")").unwrap(),
        ".background(Color(0xFF000000)).x.background(Color(0xFFffffff))"
    );
    assert_eq!(
        convert_hex_in_modifier("Modifier.background(\"#FF0000").unwrap(),
        "Modifier.background(\"#FF0000"
    );
    assert_eq!(
        convert_hex_in_modifier(".background(\"#zz\")").unwrap_err(),
        "Invalid hex color 'zz': contains non-hexadecimal characters"
    );
}
