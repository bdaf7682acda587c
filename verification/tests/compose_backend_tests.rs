use whitehall::ast::{Component, Import, Markup, StateDeclaration, WhitehallFile};
use whitehall::compose_backend::{
    convert_ffi_function_names, ffi_call_replacement, generate_component_viewmodel,
    TranspileResult,
};
use whitehall::compose_components::{MarkupGen, MarkupState};
use whitehall::compose_text::ExprContext;
use whitehall::compose_wrapper::wrapper_gen;

fn file_with_imports(paths: &[&str]) -> WhitehallFile {
    let mut f = WhitehallFile::new();
    f.imports = paths.iter().map(|p| Import { path: p.to_string() }).collect();
    f
}

#[test]
fn ffi_calls_become_camel_case() {
    let f = file_with_imports(&["$ffi.rust.Math", "androidx.compose.ui.Modifier"]);
    let out = convert_ffi_function_names(
        "val p = Math.is_prime(7)\nval q = Other.is_prime(7)\n".to_string(),
        &f,
    )
    .unwrap();
    assert_eq!(out, "val p = Math.isPrime(7)\nval q = Other.is_prime(7)\n");
}

#[test]
fn ffi_objects_each_converted() {
    let f = file_with_imports(&["$ffi.cpp.Geometry", "$ffi.rust.Text"]);
    let out = convert_ffi_function_names(
        "Geometry.circle_area(r) + Text.word_count(s) + Geometry.pi".to_string(),
        &f,
    )
    .unwrap();
    assert_eq!(out, "Geometry.circleArea(r) + Text.wordCount(s) + Geometry.pi");
}

#[test]
fn no_ffi_imports_leave_text_alone() {
    let f = file_with_imports(&["$models.User"]);
    let text = "Math.is_prime(7)".to_string();
    assert_eq!(convert_ffi_function_names(text.clone(), &f).unwrap(), text);
}

#[test]
fn ffi_replacement_text() {
    assert_eq!(ffi_call_replacement("Math.", "get_user_name"), "Math.getUserName(");
}

#[test]
fn component_viewmodel_gives_two_files() {
    let mut f = WhitehallFile::new();
    f.state = vec![StateDeclaration {
        name: "count".to_string(),
        mutable: true,
        type_annotation: None,
        initial_value: "0".to_string(),
        is_derived_state: false,
    }];
    f.markup = Markup::Component(Component {
        name: "Text".to_string(),
        props: vec![],
        children: vec![Markup::Interpolation("count".to_string())],
        self_closing: false,
    });
    let base = MarkupGen {
        ctx: ExprContext {
            nullable_vars: vec![],
            in_viewmodel_wrapper: false,
            mutable_vars: vec![],
            derived_props: vec![],
            function_names: vec![],
        },
        component_type: None,
        var_types: vec![],
        optimizations: vec![],
    };
    let w = wrapper_gen(&base, &f);
    let mut st = MarkupState { uses_experimental_material3: false, dropdown_count: 0 };
    let r = generate_component_viewmodel("com.example.app.components", "Counter", &vec![], false, &base, &w, &mut st, &f)
        .unwrap();
    match r {
        TranspileResult::Multiple(files) => {
            assert_eq!(files.len(), 2);
            assert_eq!(files[0].0, "");
            assert!(files[0].1.contains("fun Counter() {\n"));
            assert!(files[0].1.contains("    Text(text = \"${uiState.count}\")\n"));
            assert_eq!(files[1].0, "ViewModel");
            assert!(files[1].1.contains("class CounterViewModel"));
        }
        TranspileResult::Single(_) => panic!("expected two files"),
    }
}
