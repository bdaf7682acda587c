use whitehall::ast::{Component, Markup};
use whitehall::compose_text::{
    build_text_expression, format_multiline_value, reindent_expression, str_lines, ExprContext,
};

fn ctx() -> ExprContext {
    ExprContext {
        nullable_vars: vec![],
        in_viewmodel_wrapper: false,
        mutable_vars: vec![],
        derived_props: vec![],
        function_names: vec![],
    }
}

fn t(s: &str) -> Markup {
    Markup::Text(s.to_string())
}

fn i(s: &str) -> Markup {
    Markup::Interpolation(s.to_string())
}

#[test]
fn single_children() {
    let c = ctx();
    assert_eq!(build_text_expression(&vec![], &c).unwrap(), "\"\"");
    assert_eq!(build_text_expression(&vec![t("Hello, ")], &c).unwrap(), "\"Hello, \"");
    assert_eq!(build_text_expression(&vec![t("\n  Hi\n")], &c).unwrap(), "\"Hi\"");
    assert_eq!(build_text_expression(&vec![i("count")], &c).unwrap(), "\"${count}\"");
    assert_eq!(build_text_expression(&vec![i("$screen.params.id")], &c).unwrap(), "\"${id}\"");
    assert_eq!(
        build_text_expression(&vec![i("R.string.title")], &c).unwrap(),
        "\"${stringResource(R.string.title)}\""
    );
}

#[test]
fn templates() {
    let c = ctx();
    assert_eq!(
        build_text_expression(&vec![t("Count: "), i("n")], &c).unwrap(),
        "\"Count: ${n}\""
    );
    assert_eq!(
        build_text_expression(&vec![t("Cost $5 "), i("x ? 1 : 2")], &c).unwrap(),
        "\"Cost \\$5 ${if (x) 1 else 2}\""
    );
}

#[test]
fn blank_text_is_skipped_and_nullables_asserted() {
    let mut c = ctx();
    c.nullable_vars.push("user".to_string());
    assert_eq!(
        build_text_expression(&vec![t("  "), i("user.name")], &c).unwrap(),
        "\"${user!!.name}\""
    );
}

#[test]
fn viewmodel_state_in_text() {
    let mut c = ctx();
    c.in_viewmodel_wrapper = true;
    c.mutable_vars.push("count".to_string());
    assert_eq!(build_text_expression(&vec![i("count")], &c).unwrap(), "\"${uiState.count}\"");
}

#[test]
fn component_in_text_is_an_error() {
    let c = ctx();
    let comp = Markup::Component(Component {
        name: "Icon".to_string(),
        props: vec![],
        children: vec![],
        self_closing: true,
    });
    assert_eq!(
        build_text_expression(&vec![t("a"), comp], &c).unwrap_err(),
        "Unexpected child in text"
    );
}

#[test]
fn multiline_values() {
    assert_eq!(format_multiline_value("a\n  b\n c", 1), "a\n        b\n        c");
    assert_eq!(format_multiline_value("abc", 2), "abc");
    assert_eq!(format_multiline_value("abc\n", 2), "abc\n");
}

#[test]
fn reindented_expressions() {
    assert_eq!(
        reindent_expression("listOf(\n    1,\n      2\n  )", 1),
        "listOf(\n        1,\n            2\n    )"
    );
    assert_eq!(reindent_expression("", 3), "");
    assert_eq!(reindent_expression("a\n\n  b", 0), "a\n\nb");
}

#[test]
fn lines_like_str_lines() {
    for s in ["a\nb", "a\r\nb\n", "", "\n", "x\r", "a\n\nb\r\n"] {
        let expected: Vec<String> = s.lines().map(|l| l.to_string()).collect();
        assert_eq!(str_lines(s), expected, "{:?}", s);
    }
}
