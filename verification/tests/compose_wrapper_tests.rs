use whitehall::ast::{
    Component, FunctionDeclaration, Markup, PropDeclaration, StateDeclaration, WhitehallFile,
};
use whitehall::compose_components::{MarkupGen, MarkupState};
use whitehall::compose_text::ExprContext;
use whitehall::compose_wrapper::{generate_component_wrapper, wrapper_gen};

fn base(component_type: Option<&str>) -> MarkupGen {
    MarkupGen {
        ctx: ExprContext {
            nullable_vars: vec![],
            in_viewmodel_wrapper: false,
            mutable_vars: vec![],
            derived_props: vec![],
            function_names: vec![],
        },
        component_type: component_type.map(|s| s.to_string()),
        var_types: vec![],
        optimizations: vec![],
    }
}

fn text_of(e: &str) -> Markup {
    Markup::Component(Component {
        name: "Text".to_string(),
        props: vec![],
        children: vec![Markup::Interpolation(e.to_string())],
        self_closing: false,
    })
}

fn state(name: &str, mutable: bool, value: &str, derived: bool) -> StateDeclaration {
    StateDeclaration {
        name: name.to_string(),
        mutable,
        type_annotation: None,
        initial_value: value.to_string(),
        is_derived_state: derived,
    }
}

fn counter_file() -> WhitehallFile {
    let mut f = WhitehallFile::new();
    f.state = vec![
        state("count", true, "0", false),
        state("doubled", false, "count * 2", false),
        state("total", false, "derivedStateOf { count + 1 }", true),
    ];
    f.markup = Markup::Component(Component {
        name: "Column".to_string(),
        props: vec![],
        children: vec![text_of("count")],
        self_closing: false,
    });
    f
}

#[test]
fn wrapper_reads_state_from_view_model() {
    let f = counter_file();
    let b = base(None);
    let w = wrapper_gen(&b, &f);
    let mut st = MarkupState { uses_experimental_material3: false, dropdown_count: 0 };
    let out = generate_component_wrapper("com.example.app.components", "Counter", false, &b, &w, &mut st, &f)
        .unwrap();
    assert!(out.starts_with("package com.example.app.components\n\nimport "));
    assert!(out.contains("import androidx.compose.runtime.Composable\n"));
    assert!(out.contains("import androidx.compose.runtime.derivedStateOf\n"));
    assert!(out.contains("import androidx.lifecycle.viewmodel.compose.viewModel\n"));
    assert!(!out.contains("NavController"));
    assert!(out.ends_with(
        "\n\n@Composable\nfun Counter() {\n    val viewModel = viewModel<CounterViewModel>()\n    val uiState by viewModel.uiState.collectAsState()\n    val doubled = uiState.count * 2\n    val total by remember {\n        derivedStateOf { uiState.count + 1 }\n    }\n\n    Column {\n        Text(text = \"${uiState.count}\")\n    }\n}\n"
    ));
}

#[test]
fn wrapper_imports_are_sorted_and_distinct() {
    let f = counter_file();
    let b = base(None);
    let w = wrapper_gen(&b, &f);
    let mut st = MarkupState { uses_experimental_material3: false, dropdown_count: 0 };
    let out = generate_component_wrapper("com.example.app.components", "Counter", false, &b, &w, &mut st, &f)
        .unwrap();
    let imports: Vec<&str> = out.lines().filter(|l| l.starts_with("import ")).collect();
    let mut sorted = imports.clone();
    sorted.sort();
    sorted.dedup();
    assert_eq!(imports, sorted);
}

#[test]
fn screen_wrapper_takes_nav_controller_and_props() {
    let mut f = counter_file();
    f.props = vec![PropDeclaration {
        name: "id".to_string(),
        prop_type: "String".to_string(),
        default_value: Some("\"0\"".to_string()),
    }];
    f.functions = vec![FunctionDeclaration {
        name: "Label".to_string(),
        params: "label: String".to_string(),
        return_type: None,
        body: String::new(),
        is_suspend: false,
        markup: Some(text_of("label")),
    }];
    let b = base(Some("screen"));
    let w = wrapper_gen(&b, &f);
    let mut st = MarkupState { uses_experimental_material3: false, dropdown_count: 0 };
    let out = generate_component_wrapper("com.example.app.screens", "Home", true, &b, &w, &mut st, &f).unwrap();
    assert!(out.contains("import androidx.navigation.NavController\n"));
    assert!(out.contains("import com.example.app.routes.Routes\n"));
    assert!(out.contains("fun Home(navController: NavController, id: String = \"0\") {\n"));
    assert!(out.ends_with("}\n\n@Composable\nfun Label(label: String) {\n    Text(text = \"${label}\")\n}\n"));
}

#[test]
fn wrapper_generator_context() {
    let f = counter_file();
    let w = wrapper_gen(&base(None), &f);
    assert!(w.ctx.in_viewmodel_wrapper);
    assert_eq!(w.ctx.mutable_vars, vec!["count".to_string()]);
    assert_eq!(w.ctx.derived_props, vec!["doubled".to_string()]);
    assert!(w.ctx.function_names.is_empty());
}
