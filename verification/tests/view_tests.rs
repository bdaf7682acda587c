use whitehall::ast::{Component, Markup, PropDeclaration, WhitehallFile};
use whitehall::view::ViewBackend;

#[test]
fn test_view_backend_generates_function() {
    let mut backend = ViewBackend::new("com.example.app", "TestComponent");
    let file = WhitehallFile {
        props: vec![],
        state: vec![],
        functions: vec![],
        lifecycle_hooks: vec![],
        imports: vec![],
        classes: vec![],
        markup: Markup::Component(Component {
            name: "Text".to_string(),
            props: vec![],
            children: vec![Markup::Text("Hello".to_string())],
            self_closing: false,
        }),
        kotlin_blocks: vec![],
    };

    let output = backend.generate(&file).unwrap();

    assert!(output.contains("package com.example.app"));
    assert!(output.contains("fun createTestComponent(context: android.content.Context): android.view.View"));
    assert!(output.contains("TextView(context)"));
    assert!(output.contains("text = \"Hello\""));
}

#[test]
fn test_generate_text_component() {
    let mut backend = ViewBackend::new("com.example.app", "TestComponent");

    let component = Component {
        name: "Text".to_string(),
        props: vec![],
        children: vec![Markup::Text("Hello".to_string())],
        self_closing: false,
    };

    let output = backend.generate_component(&component);
    assert!(output.contains("TextView(context)"));
    assert!(output.contains("text = \"Hello\""));
}

#[test]
fn test_generate_column_with_children() {
    let mut backend = ViewBackend::new("com.example.app", "TestComponent");

    let component = Component {
        name: "Column".to_string(),
        props: vec![],
        children: vec![
            Markup::Component(Component {
                name: "Text".to_string(),
                props: vec![],
                children: vec![Markup::Text("First".to_string())],
                self_closing: false,
            }),
            Markup::Component(Component {
                name: "Text".to_string(),
                props: vec![],
                children: vec![Markup::Text("Second".to_string())],
                self_closing: false,
            }),
        ],
        self_closing: false,
    };

    let output = backend.generate_component(&component);
    assert!(output.contains("LinearLayout(context)"));
    assert!(output.contains("orientation = LinearLayout.VERTICAL"));
    assert!(output.contains("addView"));
}

#[test]
fn test_generate_with_props() {
    let mut backend = ViewBackend::new("com.example.app", "TestComponent");

    let file = WhitehallFile {
        props: vec![
            PropDeclaration {
                name: "title".to_string(),
                prop_type: "String".to_string(),
                default_value: None,
            },
        ],
        state: vec![],
        functions: vec![],
        lifecycle_hooks: vec![],
        imports: vec![],
        classes: vec![],
        markup: Markup::Component(Component {
            name: "Text".to_string(),
            props: vec![],
            children: vec![Markup::Interpolation("title".to_string())],
            self_closing: false,
        }),
        kotlin_blocks: vec![],
    };

    let output = backend.generate(&file).unwrap();

    assert!(output.contains("fun createTestComponent(context: android.content.Context, title: String)"));
    assert!(output.contains("text = title"));
}
