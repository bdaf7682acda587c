use whitehall::analyzer::{events_fit, StoreInfo, StoreRegistry, StoreSource};
use whitehall::ast::{ComponentProp, Markup, PropValue, WhitehallFile};
use whitehall::codegen::CodeGenerator;
use whitehall::compose_components::MarkupGen;
use whitehall::compose_generate::standard_ok;
use whitehall::compose_text::ExprContext;
use whitehall::parser::{parse_for_stores, Parser};
use whitehall::transpile::{transpile, transpile_with_registry};

const COUNTER: &str = "var count = 0\n\nfun increment() {\n    count++\n}\n\n<Column p={16}>\n  <Text>Count: {count}</Text>\n  <Button text=\"+\" onClick={increment} />\n</Column>\n";

const UNRENDERABLE: &str =
    "Cannot generate Kotlin: malformed prop value, unusable state name or markup nested too deep";

fn gen(mutable: Vec<&str>) -> MarkupGen {
    gen_in(false, mutable)
}

fn gen_in(wrapper: bool, mutable: Vec<&str>) -> MarkupGen {
    MarkupGen {
        ctx: ExprContext {
            nullable_vars: Vec::new(),
            in_viewmodel_wrapper: wrapper,
            mutable_vars: mutable.into_iter().map(|s| s.to_string()).collect(),
            derived_props: Vec::new(),
            function_names: Vec::new(),
        },
        component_type: None,
        var_types: Vec::new(),
        optimizations: Vec::new(),
    }
}

fn text_with(prop: &str, value: &str) -> WhitehallFile {
    let mut f = WhitehallFile::new();
    f.markup = Markup::Component(whitehall::ast::Component {
        name: "Text".to_string(),
        props: vec![ComponentProp {
            name: prop.to_string(),
            value: PropValue::Expression(value.to_string()),
        }],
        children: vec![Markup::Text("Hi".to_string())],
        self_closing: false,
    });
    f
}

#[test]
fn readme_counter_transpiles() {
    let r = transpile(COUNTER, "com.example.app.components", "Counter", None).unwrap();
    let out = r.primary_content().to_string();
    assert!(out.starts_with("package com.example.app.components\n"));
    assert!(out.contains("fun Counter("));
    assert!(out.contains("var count by remember { mutableStateOf(0) }"));
    assert!(out.contains("Button("));
}

#[test]
fn transpile_is_parse_then_generate() {
    let ast = Parser::new(COUNTER).parse().unwrap();
    let cg = CodeGenerator::new("com.example.app.components", "Counter", None);
    let direct = cg.generate(&ast).unwrap();
    let piped = transpile(COUNTER, "com.example.app.components", "Counter", None).unwrap();
    assert_eq!(piped.primary_content(), direct.primary_content());
}

#[test]
fn transpile_passes_parse_errors_on() {
    let input = "<Column>\n  <Text>Hi</Text>\n</Row>";
    let expected = Parser::new(input).parse().unwrap_err();
    let got = transpile(input, "com.example.app.components", "Broken", None).err().unwrap();
    assert_eq!(got, expected);
    assert!(got.starts_with("Mismatched tags"));
}

#[test]
fn transpile_reports_a_misspelled_keyword() {
    let input = "vra count = 0\n\n<Text>Hi</Text>";
    let got = transpile(input, "com.example.app.components", "Typo", None).err();
    assert_eq!(got, Parser::new(input).parse().err());
}

#[test]
fn transpile_with_a_registry_matches_transpile_for_a_plain_component() {
    let mut reg = StoreRegistry::new();
    reg.insert(
        "UserStore".to_string(),
        StoreInfo {
            class_name: "UserStore".to_string(),
            source: StoreSource::Class,
            has_vars: true,
            has_hilt: false,
            has_inject: false,
            package: String::new(),
        },
    );
    let a = transpile_with_registry(COUNTER, "com.example.app.components", "Counter", None, Some(&reg)).unwrap();
    let b = transpile(COUNTER, "com.example.app.components", "Counter", None).unwrap();
    assert_eq!(a.primary_content(), b.primary_content());
}

#[test]
fn parse_for_stores_is_the_parser() {
    let a = parse_for_stores(COUNTER).unwrap();
    let b = Parser::new(COUNTER).parse().unwrap();
    assert_eq!(a.state.len(), b.state.len());
    assert_eq!(a.state[0].name, b.state[0].name);
    assert_eq!(a.functions.len(), b.functions.len());
    let e1 = parse_for_stores("<Column>").unwrap_err();
    let e2 = Parser::new("<Column>").parse().unwrap_err();
    assert_eq!(e1, e2);
}

#[test]
fn surrounding_space_does_not_change_the_parse() {
    let a = Parser::new(COUNTER).parse().unwrap();
    let padded = format!("\n\n   {}\n\t ", COUNTER);
    let b = Parser::new(&padded).parse().unwrap();
    assert_eq!(a.state[0].name, b.state[0].name);
    assert_eq!(a.state[0].initial_value, b.state[0].initial_value);
    assert_eq!(a.functions[0].name, b.functions[0].name);
    let ea = Parser::new("<Column>").parse().unwrap_err();
    let eb = Parser::new("  <Column>  ").parse().unwrap_err();
    assert_eq!(ea, eb);
}

#[test]
fn events_of_a_small_file_fit() {
    let ast = Parser::new(COUNTER).parse().unwrap();
    assert!(events_fit(&ast));
    assert!(events_fit(&WhitehallFile::new()));
}

#[test]
fn standard_ok_accepts_a_plain_text() {
    let f = text_with("fontSize", "16");
    assert!(standard_ok(&gen(vec!["count"]), &f));
}

#[test]
fn standard_ok_rejects_a_lone_quote_color() {
    let f = text_with("color", "\"");
    assert!(!standard_ok(&gen(Vec::new()), &f));
}

#[test]
fn standard_ok_rejects_an_unusable_state_name() {
    let f = text_with("fontSize", "16");
    assert!(!standard_ok(&gen_in(true, vec![""]), &f));
    assert!(!standard_ok(&gen_in(true, vec!["écran"]), &f));
    assert!(standard_ok(&gen_in(true, vec!["count"]), &f));
    assert!(standard_ok(&gen(vec!["écran"]), &f));
}

#[test]
fn standard_ok_rejects_a_quoted_font_weight_without_a_name() {
    let f = text_with("fontWeight", "\"\"");
    assert!(!standard_ok(&gen(Vec::new()), &f));
    let g = text_with("fontWeight", "\"bold\"");
    assert!(standard_ok(&gen(Vec::new()), &g));
}

#[test]
fn code_generator_reports_an_unrenderable_file() {
    let f = text_with("color", "\"");
    let cg = CodeGenerator::new("com.example.app.components", "Bad", None);
    let e = cg.generate(&f).err().unwrap();
    assert_eq!(e, UNRENDERABLE);
}

#[test]
fn backend_with_no_plans_and_no_stores_is_the_code_generator() {
    let ast = Parser::new(COUNTER).parse().unwrap();
    let info = whitehall::analyzer::Analyzer::analyze(&ast).unwrap();
    let backend = whitehall::codegen::ComposeBackend::new("com.example.app.components", "Counter", None);
    let a = backend.generate_with_optimizations(&ast, &Vec::new(), &info).ok().unwrap();
    let b = CodeGenerator::new("com.example.app.components", "Counter", None).generate(&ast).ok().unwrap();
    assert_eq!(a.primary_content(), b.primary_content());
    let c = backend.generate(&ast).ok().unwrap();
    assert_eq!(c.primary_content(), b.primary_content());
}

#[test]
fn backend_renders_a_registered_store_class() {
    let src = "class UserStore {\n    var name: String = \"\"\n}\n";
    let ast = Parser::new(src).parse().unwrap();
    let info = whitehall::analyzer::Analyzer::analyze(&ast).unwrap();
    assert!(info.store_registry.contains("UserStore"));
    let backend = whitehall::codegen::ComposeBackend::new("com.example.app.stores", "UserStore", None);
    let out = backend.generate_with_optimizations(&ast, &Vec::new(), &info).ok().unwrap();
    assert!(out.primary_content().starts_with("package com.example.app.stores\n"));
    assert!(out.primary_content().contains("UserStore"));
}

#[test]
fn backend_reports_an_unrenderable_file() {
    let f = text_with("color", "\"");
    let info = whitehall::analyzer::Analyzer::analyze(&f).unwrap();
    let backend = whitehall::codegen::ComposeBackend::new("com.example.app.components", "Bad", None);
    let e = backend.generate_with_optimizations(&f, &Vec::new(), &info).err().unwrap();
    assert_eq!(e, UNRENDERABLE);
}

#[test]
fn kotlin_block_position_is_a_byte_offset() {
    let src = "var name = \"é\"\n\ndata class User(val id: Int)\n\n<Text>Hi</Text>";
    let f = Parser::new(src).parse().unwrap();
    assert_eq!(f.kotlin_blocks.len(), 1);
    assert_eq!(f.kotlin_blocks[0].position, src.find("data class").unwrap());
    assert_eq!(f.kotlin_blocks[0].position, 17);
}
