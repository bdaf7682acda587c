use whitehall::ast::{Component, ForLoopBlock, Markup};
use whitehall::recyclerview::{generate_dp_extension, RecyclerViewGenerator};

#[test]
fn test_recyclerview_generator_basic() {
    let generator = RecyclerViewGenerator::new("contacts", "contact", "com.example.app");

    let for_loop = ForLoopBlock {
        index: None,
        item: "contact".to_string(),
        collection: "contacts".to_string(),
        key_expr: Some("it.id".to_string()),
        body: vec![
            Markup::Component(Component {
                name: "Card".to_string(),
                props: vec![],
                children: vec![
                    Markup::Component(Component {
                        name: "Text".to_string(),
                        props: vec![],
                        children: vec![Markup::Interpolation("contact.name".to_string())],
                        self_closing: false,
                    }),
                ],
                self_closing: false,
            }),
        ],
        empty_block: None,
    };

    let output = generator.generate(&for_loop).unwrap();

    assert!(output.contains("package com.example.app"));
    assert!(output.contains("@Composable"));
    assert!(output.contains("fun ContactsList"));
    assert!(output.contains("RecyclerView(context)"));
    assert!(output.contains("ContactAdapter"));
    assert!(output.contains("RecyclerView.Adapter"));
    assert!(output.contains("override fun getItemCount()"));
    assert!(output.contains("override fun onCreateViewHolder"));
    assert!(output.contains("override fun onBindViewHolder"));
    assert!(output.contains("class ViewHolder"));
}

#[test]
fn test_generate_recyclerview_function() {
    let generator = RecyclerViewGenerator::new("items", "item", "com.example.app");

    let for_loop = ForLoopBlock {
        index: None,
        item: "item".to_string(),
        collection: "items".to_string(),
        key_expr: None,
        body: vec![],
        empty_block: None,
    };

    let output = generator.generate_recyclerview_function(&for_loop).unwrap();

    assert!(output.contains("fun ItemsList(items: List<Item>)"));
    assert!(output.contains("AndroidView"));
    assert!(output.contains("RecyclerView(context)"));
    assert!(output.contains("LinearLayoutManager(context)"));
    assert!(output.contains("adapter = ItemAdapter(items)"));
}

#[test]
fn test_dp_extension_function() {
    let extension = generate_dp_extension();

    assert!(extension.contains("fun Int.dpToPx()"));
    assert!(extension.contains("displayMetrics.density"));
}
