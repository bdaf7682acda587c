use whitehall::ast::{
    Component, ComponentProp, ElseIfBranch, ForLoopBlock, IfElseBlock, Markup, PropValue,
    WhenBlock, WhenBranch,
};
use whitehall::compose_components::{MarkupGen, MarkupState};
use whitehall::compose_markup::{generate_markup_with_context, generate_markup_with_indent};
use whitehall::compose_text::ExprContext;
use whitehall::optimizer::Optimization;

fn gen() -> MarkupGen {
    MarkupGen {
        ctx: ExprContext {
            nullable_vars: vec![],
            in_viewmodel_wrapper: false,
            mutable_vars: vec![],
            derived_props: vec![],
            function_names: vec![],
        },
        component_type: None,
        var_types: vec![],
        optimizations: vec![],
    }
}

fn state() -> MarkupState {
    MarkupState { uses_experimental_material3: false, dropdown_count: 0 }
}

fn prop(name: &str, value: &str) -> ComponentProp {
    ComponentProp { name: name.to_string(), value: PropValue::Expression(value.to_string()) }
}

fn comp(name: &str, props: Vec<ComponentProp>, children: Vec<Markup>) -> Markup {
    Markup::Component(Component {
        name: name.to_string(),
        props,
        children,
        self_closing: false,
    })
}

fn text(t: &str) -> Markup {
    Markup::Text(t.to_string())
}

fn interp(e: &str) -> Markup {
    Markup::Interpolation(e.to_string())
}

fn render(m: &Markup) -> String {
    let mut st = state();
    generate_markup_with_indent(&gen(), &mut st, m, 0).unwrap()
}

#[test]
fn column_with_padding_and_text() {
    let m = comp("Column", vec![prop("padding", "16")], vec![comp("Text", vec![], vec![text("Hello")])]);
    assert_eq!(
        render(&m),
        "Column(modifier = Modifier.padding(16.dp)) {\n    Text(text = \"Hello\")\n}\n"
    );
}

#[test]
fn button_text_prop_becomes_child() {
    let m = comp("Button", vec![prop("text", "\"Save\""), prop("onClick", "save")], vec![]);
    assert_eq!(render(&m), "Button(onClick = { save() }) {\n    Text(\"Save\")\n}\n");
}

#[test]
fn text_in_button_is_trimmed() {
    let mut st = state();
    let r = generate_markup_with_context(&gen(), &mut st, &text("  Go \n"), 1, Some("Button")).unwrap();
    assert_eq!(r, "    Text(text = \"Go\")\n");
    let r = generate_markup_with_context(&gen(), &mut st, &text(" Go "), 1, None).unwrap();
    assert_eq!(r, "    Text(text = \" Go \")\n");
}

#[test]
fn interpolation_with_ternary() {
    assert_eq!(render(&interp("x ? 1 : 2")), "Text(text = $if (x) 1 else 2)\n");
}

#[test]
fn for_each_loop() {
    let m = Markup::ForLoop(ForLoopBlock {
        index: None,
        item: "item".to_string(),
        collection: "items".to_string(),
        key_expr: None,
        body: vec![comp("Text", vec![], vec![interp("item")])],
        empty_block: None,
    });
    assert_eq!(render(&m), "items.forEach { item ->\n    Text(text = \"${item}\")\n}\n");
}

#[test]
fn keyed_loop_with_empty_block() {
    let m = Markup::ForLoop(ForLoopBlock {
        index: None,
        item: "todo".to_string(),
        collection: "todos".to_string(),
        key_expr: Some("it.id".to_string()),
        body: vec![comp("Text", vec![], vec![interp("todo.title")])],
        empty_block: Some(vec![comp("Text", vec![], vec![text("None")])]),
    });
    assert_eq!(
        render(&m),
        "if (todos.isEmpty()) {\n    Text(text = \"None\")\n} else {\n    todos.forEach { todo ->\n        key(todo.id) {\n            Text(text = \"${todo.title}\")\n        }\n    }\n}\n"
    );
}

#[test]
fn loop_in_lazy_column_uses_items() {
    let m = comp(
        "LazyColumn",
        vec![],
        vec![Markup::ForLoop(ForLoopBlock {
            index: None,
            item: "item".to_string(),
            collection: "items".to_string(),
            key_expr: Some("it.id".to_string()),
            body: vec![comp("Text", vec![], vec![interp("item")])],
            empty_block: None,
        })],
    );
    assert_eq!(
        render(&m),
        "LazyColumn {\n    items(items, key = { it.id }) { item ->\n        Text(text = \"${item}\")\n    }\n}\n"
    );
}

#[test]
fn loop_with_recyclerview_plan() {
    let mut g = gen();
    g.optimizations = vec![Optimization::UseRecyclerView {
        collection_name: "rows".to_string(),
        confidence: 90,
    }];
    let m = Markup::ForLoop(ForLoopBlock {
        index: None,
        item: "row".to_string(),
        collection: "rows".to_string(),
        key_expr: None,
        body: vec![comp("Text", vec![], vec![interp("row")])],
        empty_block: None,
    });
    let mut st = state();
    let r = generate_markup_with_indent(&g, &mut st, &m, 0).unwrap();
    assert!(r.starts_with("AndroidView(\n    factory = { context ->\n"));
    assert!(r.contains("override fun getItemCount() = rows.size\n"));
    assert!(r.contains("val row = rows[position]\n"));
    assert!(r.contains("textView.text = row.toString()\n"));
    assert!(r.ends_with("private fun Int.dpToPx(): Int {\n    val density = Resources.getSystem().displayMetrics.density\n    return (this * density).toInt()\n}\n"));
}

#[test]
fn if_else_blocks() {
    let m = Markup::IfElse(IfElseBlock {
        condition: "x > 0".to_string(),
        then_branch: vec![comp("Text", vec![], vec![text("A")])],
        else_ifs: vec![ElseIfBranch {
            condition: "x < 0".to_string(),
            body: vec![comp("Text", vec![], vec![text("B")])],
        }],
        else_branch: Some(vec![comp("Text", vec![], vec![text("C")])]),
    });
    assert_eq!(
        render(&m),
        "if (x > 0) {\n    Text(text = \"A\")\n} else if (x < 0) {\n    Text(text = \"B\")\n} else {\n    Text(text = \"C\")\n}\n"
    );
}

#[test]
fn when_block() {
    let m = Markup::When(WhenBlock {
        branches: vec![
            WhenBranch {
                condition: Some("loading".to_string()),
                body: comp("Text", vec![], vec![text("Wait")]),
            },
            WhenBranch { condition: None, body: comp("Text", vec![], vec![text("Done")]) },
        ],
    });
    assert_eq!(
        render(&m),
        "when {\n    loading -> Text(text = \"Wait\")\n    else -> Text(text = \"Done\")\n}\n"
    );
}

#[test]
fn spacer_shortcuts() {
    assert_eq!(render(&comp("Spacer", vec![prop("h", "16")], vec![])), "Spacer(modifier = Modifier.height(16.dp))\n");
    assert_eq!(render(&comp("Spacer", vec![prop("w", "8")], vec![])), "Spacer(modifier = Modifier.width(8.dp))\n");
    assert_eq!(render(&comp("Spacer", vec![], vec![])), "Spacer(modifier = Modifier.height(8.dp))\n");
}

#[test]
fn image_with_full_width() {
    let m = comp("Image", vec![prop("src", "\"url\""), prop("width", "\"100%\"")], vec![]);
    assert_eq!(
        render(&m),
        "AsyncImage(\n    modifier = Modifier.fillMaxWidth(),\n    model = \"url\",\n    contentScale = ContentScale.FillWidth,\n    contentDescription = null\n)\n"
    );
}

#[test]
fn image_fit_values() {
    let m = comp("Image", vec![prop("src", "u"), prop("fit", "\"cover\""), prop("alt", "\"A\"")], vec![]);
    assert_eq!(
        render(&m),
        "AsyncImage(\n    model = u,\n    contentScale = ContentScale.Crop,\n    contentDescription = \"A\"\n)\n"
    );
    let m = comp("Image", vec![prop("src", "u"), prop("fit", "\"inside\""), prop("alt", "a")], vec![]);
    assert!(render(&m).contains("contentScale = ContentScale.Inside"));
}

#[test]
fn async_image_with_request_builder() {
    let m = comp(
        "AsyncImage",
        vec![prop("url", "photo.url"), prop("placeholder", "\"loading\""), prop("width", "64"), prop("height", "64")],
        vec![],
    );
    assert_eq!(
        render(&m),
        "AsyncImage(\n    model = ImageRequest.Builder(LocalContext.current)\n            .data(photo.url)\n            .placeholder(R.drawable.loading)\n            .build(),\n    modifier = Modifier.size(64.dp),\n    contentScale = ContentScale.Crop\n)\n"
    );
}

#[test]
fn dropdown_menu_counts_its_states() {
    let g = gen();
    let mut st = state();
    let m = comp(
        "DropdownMenu",
        vec![prop("value", "selected"), prop("onValueChange", "{ country -> selected = country }"), prop("items", "countries")],
        vec![],
    );
    let r = generate_markup_with_indent(&g, &mut st, &m, 0).unwrap();
    assert!(r.starts_with("var expanded by remember { mutableStateOf(false) }\nExposedDropdownMenuBox(\n"));
    assert!(r.contains("        countries.forEach { item ->\n"));
    assert!(r.contains("                    selected = item\n                    expanded = false\n"));
    assert!(st.uses_experimental_material3);
    assert_eq!(st.dropdown_count, 1);
    let r2 = generate_markup_with_indent(&g, &mut st, &m, 0).unwrap();
    assert!(r2.starts_with("var expanded1 by remember"));
    assert_eq!(st.dropdown_count, 2);
}

#[test]
fn dropdown_menu_needs_its_props() {
    let mut st = state();
    let m = comp("DropdownMenu", vec![prop("value", "v")], vec![]);
    let r = generate_markup_with_indent(&gen(), &mut st, &m, 0);
    assert_eq!(r, Err("DropdownMenu requires value, onValueChange, and items props".to_string()));
    assert!(st.uses_experimental_material3);
    assert_eq!(st.dropdown_count, 0);
}

#[test]
fn scaffold_with_top_bar_and_padded_column() {
    let top = comp("TopAppBar", vec![prop("title", "\"Home\"")], vec![]);
    let m = comp(
        "Scaffold",
        vec![ComponentProp { name: "topBar".to_string(), value: PropValue::Markup(Box::new(top)) }],
        vec![comp("Column", vec![], vec![comp("Text", vec![], vec![text("Hi")])])],
    );
    assert_eq!(
        render(&m),
        "Scaffold(\n    topBar = {\n        TopAppBar(title = { Text(\"Home\") })\n    }\n) { paddingValues ->\n    Column(\n        modifier = Modifier\n                .padding(paddingValues)\n    ) {\n        Text(text = \"Hi\")\n    }\n}\n"
    );
}

#[test]
fn box_alignment_and_background() {
    let m = comp("Box", vec![prop("alignment", "\"center\""), prop("backgroundColor", "\"#FF0000\"")], vec![]);
    assert_eq!(
        render(&m),
        "Box(\n    contentAlignment = Alignment.Center,\n    modifier = Modifier.background(Color(0xFFFF0000))\n)\n"
    );
}

#[test]
fn bad_hex_layout_background_is_an_error() {
    let m = comp("Column", vec![prop("backgroundColor", "\"#GG0000\"")], vec![]);
    let mut st = state();
    assert!(generate_markup_with_indent(&gen(), &mut st, &m, 0).is_err());
}
