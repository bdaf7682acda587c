use whitehall::compose::{
    add_import_if_missing, add_null_assertions, convert_hex_to_color, escape_dollar_signs,
    get_base_package, get_numeric_conversion, is_numeric_type, replace_identifier,
    resolve_import, snake_to_camel, strip_outer_launch, transform_array_literal,
    transform_dispatchers, transform_lambda_arrow, transform_lifecycle_hook_body,
    transform_nested_arrays, transform_range_literal, transform_route_aliases,
    transform_string_interpolation, transform_string_resource, transform_ternary,
    transform_ternary_to_if_else, transform_viewmodel_expression,
};

#[test]
fn hex_colors_convert() {
    assert_eq!(convert_hex_to_color("FFF").unwrap(), "Color(0xFFFFFFFF)");
    assert_eq!(convert_hex_to_color("a1b").unwrap(), "Color(0xFFaa11bb)");
    assert_eq!(convert_hex_to_color(" ff0000 ").unwrap(), "Color(0xFFFF0000)");
    assert_eq!(convert_hex_to_color("11223344").unwrap(), "Color(0x44112233)");
}

#[test]
fn bad_hex_colors_are_errors() {
    assert_eq!(
        convert_hex_to_color("GG0000").unwrap_err(),
        "Invalid hex color 'GG0000': contains non-hexadecimal characters"
    );
    assert_eq!(
        convert_hex_to_color("FFFF").unwrap_err(),
        "Invalid hex color 'FFFF': expected 3, 6, or 8 characters (e.g., #RGB, #RRGGBB, #RRGGBBAA), got 4"
    );
}

#[test]
fn snake_case_becomes_camel_case() {
    assert_eq!(snake_to_camel("is_prime"), "isPrime");
    assert_eq!(snake_to_camel("Get_user_name"), "getUserName");
    assert_eq!(snake_to_camel("plain"), "plain");
}

#[test]
fn numeric_types() {
    assert!(is_numeric_type("Int"));
    assert!(is_numeric_type("Byte"));
    assert!(!is_numeric_type("String"));
    assert_eq!(
        get_numeric_conversion("Double", "0.0"),
        ("toDoubleOrNull()".to_string(), "0.0".to_string())
    );
    assert_eq!(
        get_numeric_conversion("Short", "0"),
        ("toIntOrNull()".to_string(), "0".to_string())
    );
}

#[test]
fn ternaries() {
    assert_eq!(transform_ternary_to_if_else("a > 1 ? \"big\" : \"small\""), "if (a > 1) \"big\" else \"small\"");
    assert_eq!(transform_ternary_to_if_else("user?.name ?: \"\""), "user?.name ?: \"\"");
    assert_eq!(transform_ternary_to_if_else("f(a ? b : c)"), "f(a ? b : c)");
    assert_eq!(
        transform_ternary("selected ? Modifier.padding(4.dp) : Modifier"),
        ".let { if (selected) it.padding(4.dp) else it }"
    );
    assert_eq!(transform_ternary("Modifier.fillMaxWidth()"), "Modifier.fillMaxWidth()");
}

#[test]
fn null_assertions() {
    let nullable = vec!["user".to_string()];
    assert_eq!(add_null_assertions("user.name", &nullable), "user!!.name");
    assert_eq!(add_null_assertions(" user ", &nullable), "user!!");
    assert_eq!(add_null_assertions("other.name", &nullable), "other.name");
}

#[test]
fn string_templates_and_escapes() {
    assert_eq!(transform_string_interpolation("\"Count: {n}\""), "\"Count: ${n}\"");
    assert_eq!(transform_string_interpolation("count"), "count");
    assert_eq!(escape_dollar_signs("costs $5"), "costs \\$5");
}

#[test]
fn dispatchers_launch_on_scope() {
    assert_eq!(
        transform_dispatchers("io { load() }"),
        "dispatcherScope.launch(Dispatchers.IO) { load() }"
    );
    assert_eq!(
        transform_dispatchers("cpu { a() }; main { b() }"),
        "dispatcherScope.launch(Dispatchers.Default) { a() }; dispatcherScope.launch(Dispatchers.Main) { b() }"
    );
}

#[test]
fn route_parameters_in_hooks() {
    let params = vec!["id".to_string()];
    assert_eq!(
        transform_lifecycle_hook_body("load($screen.params.id)", &params),
        "load(savedStateHandle.get<String?>(\"id\") ?: \"\")"
    );
}

#[test]
fn import_aliases_resolve() {
    assert_eq!(
        resolve_import("com.example.app.components", "$models.User"),
        "com.example.app.models.User"
    );
    assert_eq!(resolve_import("com.example.app.screens", "$.lib.Api"), "com.example.app.lib.Api");
    assert_eq!(resolve_import("com.example.app", "$models.User"), "com.example.app.models.User");
    assert_eq!(resolve_import("com.example.app", "androidx.foo.Bar"), "androidx.foo.Bar");
}

#[test]
fn imports_are_added_once() {
    let mut imports = vec!["a.B".to_string()];
    add_import_if_missing(&mut imports, "a.B");
    add_import_if_missing(&mut imports, "c.D");
    assert_eq!(imports, vec!["a.B".to_string(), "c.D".to_string()]);
}

#[test]
fn base_packages() {
    assert_eq!(get_base_package("com.example.app.screens.detail"), "com.example.app");
    assert_eq!(get_base_package("com.example.app"), "com.example");
    assert_eq!(get_base_package("app"), "app");
    assert_eq!(get_base_package("screens.home"), "");
}

#[test]
fn route_aliases() {
    assert_eq!(transform_route_aliases("$routes.post.detail(id)"), "Routes.Post.Detail(id)");
    assert_eq!(
        transform_route_aliases("navigate($routes.home)"),
        "navigate(Routes.Home)"
    );
    assert_eq!(transform_route_aliases("noRoutes"), "noRoutes");
}

#[test]
fn arrow_lambdas() {
    assert_eq!(transform_lambda_arrow("() => count++"), "{ count++ }");
    assert_eq!(transform_lambda_arrow("() => { a(); b() }"), "{ a(); b() }");
    assert_eq!(transform_lambda_arrow("(a, b) => a + b"), "{ a, b -> a + b }");
    assert_eq!(transform_lambda_arrow("(v) => { set(v) }"), "{ v -> set(v) }");
    assert_eq!(transform_lambda_arrow("x + 1"), "x + 1");
}

#[test]
fn string_resources() {
    assert_eq!(
        transform_string_resource("R.string.greeting(userName)"),
        "stringResource(R.string.greeting, userName)"
    );
    assert_eq!(transform_string_resource("R.string.title"), "stringResource(R.string.title)");
    assert_eq!(transform_string_resource("title"), "title");
}

#[test]
fn outer_launch_is_stripped() {
    assert_eq!(strip_outer_launch("  launch {\n  load()\n}  "), "load()");
    assert_eq!(strip_outer_launch("load()"), "load()");
}

#[test]
fn range_literals() {
    assert_eq!(transform_range_literal("RANGE[1..10]"), "(1..10).toList()");
    assert_eq!(transform_range_literal("RANGE[10..1:-1]"), "(10 downTo 1).toList()");
    assert_eq!(transform_range_literal("RANGE[0..10:2]"), "(0..10 step 2).toList()");
    assert_eq!(transform_range_literal("listOf(1)"), "listOf(1)");
}

#[test]
fn array_literals() {
    assert_eq!(transform_array_literal("[1, 2]", false), "listOf(1, 2)");
    assert_eq!(transform_array_literal("[1, [2, 3]]", true), "mutableListOf(1, listOf(2, 3))");
    assert_eq!(transform_array_literal("x", false), "x");
    assert_eq!(transform_nested_arrays("[a], b"), "listOf(a), b");
}

#[test]
fn identifiers_are_replaced_as_whole_words() {
    assert_eq!(
        replace_identifier("count + \"${count}\" + counter + \"count\"", "count", "uiState.count"),
        "uiState.count + \"${uiState.count}\" + counter + \"count\""
    );
}

#[test]
fn viewmodel_expressions() {
    let vars = vec!["count".to_string()];
    let props = vec!["total".to_string()];
    let funcs = vec!["load".to_string()];
    assert_eq!(
        transform_viewmodel_expression("count = count + 1", true, &vars, &props, &funcs),
        "viewModel.updateCount(uiState.count + 1)"
    );
    assert_eq!(
        transform_viewmodel_expression("total > 0 && count == 1", true, &vars, &props, &funcs),
        "viewModel.total > 0 && uiState.count == 1"
    );
    assert_eq!(
        transform_viewmodel_expression("load()", true, &vars, &props, &funcs),
        "viewModel.load()"
    );
    assert_eq!(
        transform_viewmodel_expression("count = 1", false, &vars, &props, &funcs),
        "count = 1"
    );
}
