use whitehall::compose_props::{convert_color_scheme_names, transform_prop, VarType};
use whitehall::compose_text::ExprContext;

fn ctx() -> ExprContext {
    ExprContext {
        nullable_vars: vec![],
        in_viewmodel_wrapper: false,
        mutable_vars: vec![],
        derived_props: vec![],
        function_names: vec![],
    }
}

fn tp(c: &str, p: &str, v: &str) -> Vec<String> {
    transform_prop(c, p, v, None, &ctx(), &vec![]).unwrap()
}

#[test]
fn text_field_props() {
    assert_eq!(tp("TextField", "label", "\"Email\""), vec!["label = { Text(\"Email\") }"]);
    assert_eq!(
        tp("OutlinedTextField", "placeholder", "\"Name\""),
        vec!["placeholder = { Text(\"Name\") }"]
    );
    assert_eq!(
        tp("TextField", "type", "\"password\""),
        vec!["visualTransformation = PasswordVisualTransformation()"]
    );
    assert_eq!(tp("TextField", "type", "\"email\""), vec!["type = \"email\""]);
}

#[test]
fn button_props() {
    assert!(tp("Button", "text", "\"Go\"").is_empty());
    assert_eq!(tp("Button", "onClick", "increment"), vec!["onClick = { increment() }"]);
    assert_eq!(tp("Button", "onClick", "{ count++ }"), vec!["onClick = { count++ }"]);
    assert_eq!(tp("Button", "onClick", "{save}"), vec!["onClick = { save() }"]);
    assert_eq!(tp("IconButton", "onClick", "() => save()"), vec!["onClick = { save() }"]);
}

#[test]
fn layout_props() {
    assert_eq!(
        tp("Column", "spacing", "16"),
        vec!["verticalArrangement = Arrangement.spacedBy(16.dp)"]
    );
    assert_eq!(tp("Row", "padding", "8.dp"), vec!["modifier = Modifier.padding(8.dp)"]);
    assert_eq!(tp("LazyColumn", "padding", "4"), vec!["contentPadding = PaddingValues(4.dp)"]);
    assert_eq!(
        tp("Row", "backgroundColor", "\"red\""),
        vec!["modifier = Modifier.background(Color.Red)"]
    );
    assert_eq!(
        tp("Column", "backgroundColor", "\"#00FF00\""),
        vec!["modifier = Modifier.background(Color(0xFF00FF00))"]
    );
}

#[test]
fn text_props() {
    assert_eq!(tp("Text", "fontSize", "18"), vec!["fontSize = 18.sp"]);
    assert_eq!(tp("Text", "fontWeight", "\"bold\""), vec!["fontWeight = FontWeight.Bold"]);
    assert_eq!(tp("Text", "fontFamily", "\"monospace\""), vec!["fontFamily = FontFamily.Monospace"]);
    assert_eq!(tp("Text", "color", "\"primary\""), vec!["color = MaterialTheme.colorScheme.primary"]);
    assert_eq!(tp("Text", "color", "\"#FF0000\""), vec!["color = Color(0xFFFF0000)"]);
    assert_eq!(
        tp("Text", "color", "isError ? \"error\" : \"#00FF00\""),
        vec!["color = if (isError) MaterialTheme.colorScheme.error else Color(0xFF00FF00)"]
    );
    assert_eq!(tp("Text", "text", "\"Hi {name}\""), vec!["text = \"Hi ${name}\""]);
}

#[test]
fn card_props() {
    assert_eq!(
        tp("Card", "backgroundColor", "\"surfaceVariant\""),
        vec!["colors = CardDefaults.cardColors(\n                    containerColor = MaterialTheme.colorScheme.surfaceVariant\n                )"]
    );
    assert_eq!(
        tp("Card", "backgroundColor", "if (sel) \"primary\" else \"surface\""),
        vec!["colors = CardDefaults.cardColors(\n                    containerColor = if (sel) MaterialTheme.colorScheme.primary else MaterialTheme.colorScheme.surface\n                )"]
    );
    assert_eq!(
        tp("Card", "elevation", "4"),
        vec!["elevation = CardDefaults.cardElevation(defaultElevation = 4.dp)"]
    );
    assert_eq!(tp("Card", "onClick", "open"), vec!["onClick = { open() }"]);
}

#[test]
fn modifier_and_default_props() {
    assert_eq!(
        tp("Box", "modifier", "Modifier.background(\"#000\")"),
        vec!["modifier = Modifier.background(Color(0xFF000000))"]
    );
    assert_eq!(tp("Image", "contentDescription", "\"Logo\""), vec!["contentDescription = \"Logo\""]);
    assert!(transform_prop("Box", "modifier", "Modifier.background(\"#q\")", None, &ctx(), &vec![]).is_err());
}

#[test]
fn bindings() {
    let types = vec![VarType {
        name: "age".to_string(),
        type_str: "Int".to_string(),
        default_value: "0".to_string(),
    }];
    assert_eq!(
        transform_prop("TextField", "bind:value", "age", None, &ctx(), &types).unwrap(),
        vec!["value = age.toString()", "onValueChange = { age = it.toIntOrNull() ?: 0 }"]
    );
    assert_eq!(
        tp("TextField", "bind:value", "name"),
        vec!["value = name", "onValueChange = { name = it }"]
    );
    let mut c = ctx();
    c.in_viewmodel_wrapper = true;
    c.mutable_vars.push("name".to_string());
    assert_eq!(
        transform_prop("TextField", "bind:value", " name ", None, &c, &vec![]).unwrap(),
        vec!["value = uiState.name", "onValueChange = { viewModel.name = it }"]
    );
    assert_eq!(
        tp("Checkbox", "bind:checked", "done"),
        vec!["checked = done", "onCheckedChange = { done = it }"]
    );
    assert_eq!(
        transform_prop("Switch", "bind:checked", "name", None, &c, &vec![]).unwrap(),
        vec!["checked = uiState.name", "onCheckedChange = { viewModel.name = it }"]
    );
}

#[test]
fn navigation_on_screens() {
    assert_eq!(
        transform_prop("Button", "onClick", "{ $navigate(\"home\") }", Some("screen"), &ctx(), &vec![])
            .unwrap(),
        vec!["onClick = { navController.navigate(\"home\") }"]
    );
}

#[test]
fn color_scheme_names_in_expressions() {
    assert_eq!(
        convert_color_scheme_names("\"primary\" + \"x\" + \"#fff\" + \""),
        "MaterialTheme.colorScheme.primary + \"x\" + Color(0xFFffffff) + \""
    );
    assert_eq!(convert_color_scheme_names("\"#zz\""), "\"#zz\"");
}
