use whitehall::analyzer::{
    Analyzer, OptimizationHint, StoreInfo, StoreRegistry, StoreSource, UsageContext, UsageInfo,
};
use whitehall::ast::{
    Component, ComponentProp, ForLoopBlock, Markup, PropValue, StateDeclaration, WhitehallFile,
};
use whitehall::optimizer::{Optimization, Optimizer};
use whitehall::recyclerview::RecyclerViewGenerator;
use whitehall::view::ViewBackend;

fn text(s: &str) -> Markup {
    Markup::Component(Component {
        name: "Text".to_string(),
        props: vec![],
        children: vec![Markup::Text(s.to_string())],
        self_closing: false,
    })
}

#[test]
fn view_card_with_children_and_padding() {
    let mut backend = ViewBackend::new("p", "C");
    let card = Component {
        name: "Card".to_string(),
        props: vec![ComponentProp {
            name: "padding".to_string(),
            value: PropValue::Expression("8".to_string()),
        }],
        children: vec![text("A"), text("B")],
        self_closing: false,
    };
    let out = backend.generate_component(&card);
    assert_eq!(
        out,
        "MaterialCardView(context).apply {\n    val paddingPx = (8.dpToPx())\n    setPadding(paddingPx, paddingPx, paddingPx, paddingPx)\n    addView(LinearLayout(context).apply {\n        orientation = LinearLayout.VERTICAL\n        addView(TextView(context).apply {\n            text = \"A\"\n        })\n        addView(TextView(context).apply {\n            text = \"B\"\n        })\n    })\n}"
    );
}

#[test]
fn view_unsupported_component() {
    let mut backend = ViewBackend::new("p", "C");
    let c = Component {
        name: "Slider".to_string(),
        props: vec![],
        children: vec![],
        self_closing: true,
    };
    assert_eq!(
        backend.generate_component(&c),
        "TextView(context).apply { text = \"Unsupported: Slider\" }"
    );
}

#[test]
fn view_file_lists_each_import_once() {
    let mut backend = ViewBackend::new("com.example", "Screen");
    let file = WhitehallFile {
        state: vec![StateDeclaration {
            name: "n".to_string(),
            mutable: true,
            type_annotation: Some("Int".to_string()),
            initial_value: "0".to_string(),
            is_derived_state: false,
        }],
        markup: Markup::Component(Component {
            name: "TextField".to_string(),
            props: vec![],
            children: vec![],
            self_closing: true,
        }),
        ..Default::default()
    };
    let first = backend.generate(&file).unwrap();
    let second = backend.generate(&file).unwrap();
    assert_eq!(first, second);
    assert_eq!(second.matches("import android.view.View\n").count(), 1);
    assert!(second.starts_with("package com.example\n\nimport android.widget.EditText\nimport android.content.Context\n"));
    assert!(second.contains("fun createScreen(context: android.content.Context): android.view.View {\n    var n: Int = 0\n\n    return EditText(context).apply {\n    }\n}\n"));
}

#[test]
fn recycler_uses_column_layout_and_capitalized_names() {
    let generator = RecyclerViewGenerator::new("todos", "todo", "com.example");
    let for_loop = ForLoopBlock {
        index: None,
        item: "todo".to_string(),
        collection: "todos".to_string(),
        key_expr: None,
        body: vec![Markup::Component(Component {
            name: "Column".to_string(),
            props: vec![],
            children: vec![],
            self_closing: false,
        })],
        empty_block: None,
    };
    let out = generator.generate(&for_loop).unwrap();
    assert!(out.contains("fun TodosList(todos: List<Todo>) {"));
    assert!(out.contains("private class TodoAdapter(\n    private val todos: List<Todo>\n) : RecyclerView.Adapter<TodoAdapter.ViewHolder>() {"));
    assert!(out.contains("val itemView = LinearLayout(context).apply {\n            orientation = LinearLayout.VERTICAL\n        }"));
    assert!(out.contains("        // Fields for view references\n"));
}

#[test]
fn store_registry_read_after_write() {
    let mut registry = StoreRegistry::new();
    assert!(!registry.contains("Counter"));
    registry.insert(
        "Counter".to_string(),
        StoreInfo {
            class_name: "Counter".to_string(),
            source: StoreSource::Class,
            has_vars: true,
            has_hilt: true,
            has_inject: false,
            package: "com.example".to_string(),
        },
    );
    assert!(registry.contains("Counter"));
    assert!(registry.is_hilt_view_model("Counter"));
    assert_eq!(registry.get("Counter").unwrap().package, "com.example");
    registry.insert(
        "Counter".to_string(),
        StoreInfo {
            class_name: "Counter".to_string(),
            source: StoreSource::Singleton,
            has_vars: false,
            has_hilt: false,
            has_inject: false,
            package: "other".to_string(),
        },
    );
    assert!(!registry.is_hilt_view_model("Counter"));
    assert_eq!(registry.iter().len(), 1);
}

#[test]
fn usage_flags_follow_contexts() {
    let mut usage = UsageInfo::new();
    usage.record_access(UsageContext::InForLoopBody { collection: "xs".to_string() });
    usage.record_access(UsageContext::InKeyExpression { collection: "xs".to_string() });
    assert_eq!(usage.access_count, 2);
    assert!(usage.used_in_loops);
    assert!(usage.used_in_keys);
    assert!(!usage.used_in_conditions);
}

#[test]
fn optimizer_keeps_confident_hints_in_order() {
    let ast = WhitehallFile {
        state: vec![
            StateDeclaration {
                name: "a".to_string(),
                mutable: false,
                type_annotation: None,
                initial_value: "listOf()".to_string(),
                is_derived_state: false,
            },
            StateDeclaration {
                name: "b".to_string(),
                mutable: true,
                type_annotation: None,
                initial_value: "listOf()".to_string(),
                is_derived_state: false,
            },
        ],
        markup: Markup::Sequence(vec![
            Markup::ForLoop(ForLoopBlock {
                index: None,
                item: "x".to_string(),
                collection: "a".to_string(),
                key_expr: None,
                body: vec![],
                empty_block: None,
            }),
            Markup::ForLoop(ForLoopBlock {
                index: None,
                item: "y".to_string(),
                collection: "b".to_string(),
                key_expr: None,
                body: vec![],
                empty_block: None,
            }),
        ]),
        ..Default::default()
    };
    let info = Analyzer::analyze(&ast).unwrap();
    assert_eq!(info.optimization_hints.len(), 2);
    match &info.optimization_hints[1] {
        OptimizationHint::StaticCollection { name, confidence } => {
            assert_eq!(name, "b");
            assert_eq!(*confidence, 60);
        }
    }
    let optimized = Optimizer::optimize(ast, info);
    assert_eq!(optimized.optimizations.len(), 1);
    match &optimized.optimizations[0] {
        Optimization::UseRecyclerView { collection_name, confidence } => {
            assert_eq!(collection_name, "a");
            assert_eq!(*confidence, 100);
        }
        _ => panic!("expected a RecyclerView decision"),
    }
}
