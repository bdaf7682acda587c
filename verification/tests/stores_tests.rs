use whitehall::analyzer::{StoreInfo, StoreRegistry, StoreSource};
use whitehall::ast::{
    ClassDeclaration, ConstructorDeclaration, FunctionDeclaration, Import, KotlinBlock,
    KotlinBlockType, LifecycleHook, PropertyDeclaration, StateDeclaration, WhitehallFile,
};
use whitehall::stores::{
    eq_ignore_ascii_case, generate_component_viewmodel_class, generate_http_client,
    generate_singleton_store, generate_store_class, generate_view_model_store,
    infer_type_from_value, parses_as_f64, parses_as_i32, sort_dedup, str_lt,
    transform_fetch_call,
};

/// The lines, each followed by a line break.
fn text(lines: &[&str]) -> String {
    lines.iter().map(|l| format!("{}\n", l)).collect()
}

fn prop(
    name: &str,
    mutable: bool,
    ty: Option<&str>,
    init: Option<&str>,
    getter: Option<&str>,
    vis: Option<&str>,
) -> PropertyDeclaration {
    PropertyDeclaration {
        name: name.to_string(),
        mutable,
        type_annotation: ty.map(|s| s.to_string()),
        initial_value: init.map(|s| s.to_string()),
        getter: getter.map(|s| s.to_string()),
        visibility: vis.map(|s| s.to_string()),
    }
}

fn fun(name: &str, params: &str, body: &str, is_suspend: bool) -> FunctionDeclaration {
    FunctionDeclaration {
        name: name.to_string(),
        params: params.to_string(),
        return_type: None,
        body: body.to_string(),
        is_suspend,
        markup: None,
    }
}

fn counter_store() -> ClassDeclaration {
    ClassDeclaration {
        annotations: vec!["store".to_string()],
        is_object: true,
        name: "Counter".to_string(),
        constructor: None,
        properties: vec![
            prop("count", true, Some("Int"), Some("0"), None, None),
            prop("label", true, None, Some("\"x\""), None, None),
            prop("double", false, Some("Int"), None, Some("count * 2"), None),
        ],
        functions: vec![fun("increment", "", "  count++  ", false)],
    }
}

fn file_with_import() -> WhitehallFile {
    let mut f = WhitehallFile::new();
    f.imports.push(Import { path: "$models.User".to_string() });
    f
}

#[test]
fn singleton_store_file() {
    let out = generate_singleton_store("com.example.app.components", &file_with_import(), &counter_store())
        .unwrap();
    let expected = text(&[
        "package com.example.app.components",
        "",
        "import com.example.app.models.User",
        "import kotlinx.coroutines.flow.MutableStateFlow",
        "import kotlinx.coroutines.flow.StateFlow",
        "import kotlinx.coroutines.flow.asStateFlow",
        "import kotlinx.coroutines.flow.update",
        "",
        "object Counter {",
        "    data class State(",
        "        val count: Int = 0,",
        "        val label: Any = \"x\"",
        "    )",
        "",
        "    private val _state = MutableStateFlow(State())",
        "    val state: StateFlow<State> = _state.asStateFlow()",
        "",
        "    var count: Int",
        "        get() = _state.value.count",
        "        set(value) { _state.update { it.copy(count = value) } }",
        "",
        "    var label: Any",
        "        get() = _state.value.label",
        "        set(value) { _state.update { it.copy(label = value) } }",
        "",
        "    val double: Int",
        "        get() = count * 2",
        "",
        "    fun increment() {",
        "        count++",
        "    }",
        "",
        "}",
    ]);
    assert_eq!(out, expected);
}

fn user_store() -> ClassDeclaration {
    ClassDeclaration {
        annotations: vec!["HiltViewModel".to_string()],
        is_object: false,
        name: "UserStore".to_string(),
        constructor: Some(ConstructorDeclaration {
            annotations: vec!["Inject".to_string()],
            parameters: "private val repo: Repo".to_string(),
        }),
        properties: vec![
            prop("name", true, None, Some("\"\""), None, None),
            prop("count", true, None, Some("42"), None, Some("public")),
            prop("ratio", true, None, Some("1.5"), None, None),
            prop("cache", true, Some("Map<String, User>"), Some("emptyMap()"), None, Some("private")),
            prop("greeting", false, None, None, Some("\"Hi $name\""), None),
        ],
        functions: vec![
            fun("updateCount", "value: Int", "_uiState.update { it.copy(count = value) }", false),
            fun("load", "", "val u = repo.get()\n\n  name = u.name\n", true),
        ],
    }
}

#[test]
fn view_model_store_file() {
    let out = generate_view_model_store(
        "com.example.app.stores",
        &WhitehallFile::new(),
        &user_store(),
        StoreSource::ComponentInline,
    )
    .unwrap();
    let expected = text(&[
        "package com.example.app.stores",
        "",
        "import androidx.lifecycle.ViewModel",
        "import androidx.lifecycle.viewModelScope",
        "import dagger.hilt.android.lifecycle.HiltViewModel",
        "import javax.inject.Inject",
        "import kotlinx.coroutines.flow.MutableStateFlow",
        "import kotlinx.coroutines.flow.StateFlow",
        "import kotlinx.coroutines.flow.asStateFlow",
        "import kotlinx.coroutines.flow.update",
        "import kotlinx.coroutines.launch",
        "",
        "@HiltViewModel",
        "class UserStore @Inject constructor(",
        "    private val repo: Repo",
        ") : ViewModel() {",
        "    data class UiState(",
        "        val name: String = \"\",",
        "        val count: Int = 42,",
        "        val ratio: Double = 1.5",
        "    )",
        "",
        "    private val _uiState = MutableStateFlow(UiState())",
        "    val uiState: StateFlow<UiState> = _uiState.asStateFlow()",
        "",
        "    private var cache: Map<String, User> = emptyMap()",
        "",
        "    var name: String",
        "        get() = _uiState.value.name",
        "        set(value) { _uiState.update { it.copy(name = value) } }",
        "",
        "    var count: Int",
        "        get() = _uiState.value.count",
        "        set(value) { _uiState.update { it.copy(count = value) } }",
        "",
        "    var ratio: Double",
        "        get() = _uiState.value.ratio",
        "        set(value) { _uiState.update { it.copy(ratio = value) } }",
        "",
        "    val greeting: String",
        "        get() = \"Hi $name\"",
        "",
        "    fun updateName(value: String) {",
        "        _uiState.update { it.copy(name = value) }",
        "    }",
        "",
        "    fun updateRatio(value: Double) {",
        "        _uiState.update { it.copy(ratio = value) }",
        "    }",
        "",
        "    fun updateCount(value: Int) {",
        "        _uiState.update { it.copy(count = value) }",
        "    }",
        "",
        "    fun load() {",
        "        viewModelScope.launch {",
        "            val u = repo.get()",
        "            name = u.name",
        "        }",
        "    }",
        "",
        "}",
    ]);
    assert_eq!(out, expected);
}

#[test]
fn plain_class_store_has_no_update_methods() {
    let out = generate_view_model_store(
        "p",
        &WhitehallFile::new(),
        &user_store(),
        StoreSource::Class,
    )
    .unwrap();
    assert!(!out.contains("fun updateName"));
    assert!(out.contains("fun updateCount(value: Int)"));
}

#[test]
fn store_class_follows_the_registry() {
    let mut registry = StoreRegistry::new();
    registry.insert(
        "Counter".to_string(),
        StoreInfo {
            class_name: "Counter".to_string(),
            source: StoreSource::Singleton,
            has_vars: true,
            has_hilt: false,
            has_inject: false,
            package: "p".to_string(),
        },
    );
    let file = WhitehallFile::new();
    let singleton = generate_store_class("p", Some(&registry), &file, &counter_store()).unwrap();
    assert_eq!(singleton, generate_singleton_store("p", &file, &counter_store()).unwrap());
    let unregistered = generate_store_class("p", Some(&registry), &file, &user_store()).unwrap();
    assert_eq!(
        unregistered,
        generate_view_model_store("p", &file, &user_store(), StoreSource::Class).unwrap()
    );
    let without = generate_store_class("p", None, &file, &counter_store()).unwrap();
    assert!(without.contains("class Counter : ViewModel() {"));
}

#[test]
fn store_file_ends_with_kotlin_blocks() {
    let mut file = WhitehallFile::new();
    file.kotlin_blocks.push(KotlinBlock {
        content: "data class User(val id: Int)".to_string(),
        position: 0,
        block_type: KotlinBlockType::DataClass,
    });
    let out = generate_singleton_store("p", &file, &counter_store()).unwrap();
    assert!(out.ends_with("}\n\ndata class User(val id: Int)\n\n"));
}

#[test]
fn component_viewmodel_with_route_param_and_fetch() {
    let mut file = WhitehallFile::new();
    file.kotlin_blocks.push(KotlinBlock {
        content: "@Serializable\ndata class Photo(val id: Int)".to_string(),
        position: 0,
        block_type: KotlinBlockType::DataClass,
    });
    file.state = vec![
        StateDeclaration {
            name: "photos".to_string(),
            mutable: true,
            type_annotation: Some("List<Photo>".to_string()),
            initial_value: "[]".to_string(),
            is_derived_state: false,
        },
        StateDeclaration {
            name: "title".to_string(),
            mutable: false,
            type_annotation: None,
            initial_value: "\"Photos\"".to_string(),
            is_derived_state: false,
        },
        StateDeclaration {
            name: "count".to_string(),
            mutable: false,
            type_annotation: None,
            initial_value: "photos.size".to_string(),
            is_derived_state: true,
        },
    ];
    file.lifecycle_hooks.push(LifecycleHook {
        hook_type: "onMount".to_string(),
        body: "photos = $fetch(\"https://x/\" + $screen.params.id)".to_string(),
    });
    let out = generate_component_viewmodel_class(
        "com.example.app.screens",
        "Profile",
        &vec!["id".to_string()],
        &file,
    )
    .unwrap();
    let expected = text(&[
        "package com.example.app.screens",
        "",
        "import androidx.lifecycle.ViewModel",
        "import androidx.lifecycle.SavedStateHandle",
        "import androidx.lifecycle.viewModelScope",
        "import io.ktor.client.HttpClient",
        "import io.ktor.client.call.body",
        "import io.ktor.client.engine.okhttp.OkHttp",
        "import io.ktor.client.plugins.contentnegotiation.ContentNegotiation",
        "import io.ktor.client.request.get",
        "import io.ktor.serialization.kotlinx.json.json",
        "import kotlinx.coroutines.flow.MutableStateFlow",
        "import kotlinx.coroutines.flow.StateFlow",
        "import kotlinx.coroutines.flow.asStateFlow",
        "import kotlinx.coroutines.flow.update",
        "import kotlinx.coroutines.launch",
        "import kotlinx.serialization.Serializable",
        "import kotlinx.serialization.json.Json",
        "",
        "@Serializable",
        "data class Photo(val id: Int)",
        "",
        "private val httpClient = HttpClient(OkHttp) {",
        "    install(ContentNegotiation) {",
        "        json(Json { ignoreUnknownKeys = true })",
        "    }",
        "}",
        "",
        "class ProfileViewModel(",
        "    private val savedStateHandle: SavedStateHandle",
        ") : ViewModel() {",
        "    data class UiState(",
        "        val photos: List<Photo> = listOf()",
        "    )",
        "",
        "    private val _uiState = MutableStateFlow(UiState())",
        "    val uiState: StateFlow<UiState> = _uiState.asStateFlow()",
        "",
        "    var photos: List<Photo>",
        "        get() = _uiState.value.photos",
        "        set(value) { _uiState.update { it.copy(photos = value) } }",
        "",
        "    val title",
        "        get() = \"Photos\"",
        "",
        "    fun updatePhotos(value: List<Photo>) {",
        "        _uiState.update { it.copy(photos = value) }",
        "    }",
        "",
        "    init {",
        "        viewModelScope.launch {",
        "            photos = httpClient.get(\"https://x/\" + savedStateHandle.get<String?>(\"id\") ?: \"\").body()",
        "        }",
        "    }",
        "",
        "}",
    ]);
    assert_eq!(out, expected);
}

#[test]
fn component_viewmodel_without_state() {
    let out = generate_component_viewmodel_class("p", "Empty", &vec![], &WhitehallFile::new()).unwrap();
    assert_eq!(
        out,
        text(&[
            "package p",
            "",
            "import androidx.lifecycle.ViewModel",
            "import kotlinx.coroutines.flow.MutableStateFlow",
            "import kotlinx.coroutines.flow.StateFlow",
            "import kotlinx.coroutines.flow.asStateFlow",
            "import kotlinx.coroutines.flow.update",
            "",
            "class EmptyViewModel : ViewModel() {",
            "}",
        ])
    );
}

#[test]
fn int_literals() {
    assert!(parses_as_i32("42"));
    assert!(parses_as_i32("-2147483648"));
    assert!(parses_as_i32("+7"));
    assert!(parses_as_i32("007"));
    assert!(!parses_as_i32("2147483648"));
    assert!(!parses_as_i32("-"));
    assert!(!parses_as_i32(""));
    assert!(!parses_as_i32("1.0"));
    assert!(!parses_as_i32(" 1"));
}

#[test]
fn float_literals() {
    for ok in ["1.5", "1.", ".5", "1e10", "1E-3", "inf", "-Infinity", "NaN", "+.5e+2", "7"] {
        assert!(parses_as_f64(ok), "{}", ok);
        assert!(ok.parse::<f64>().is_ok(), "{}", ok);
    }
    for bad in [".", "e3", "1e", "1.2.3", "", "+", "1f", " 1"] {
        assert!(!parses_as_f64(bad), "{}", bad);
        assert!(bad.parse::<f64>().is_err(), "{}", bad);
    }
}

#[test]
fn inferred_types() {
    assert_eq!(infer_type_from_value("42"), "Int");
    assert_eq!(infer_type_from_value(" 3.14 "), "Double");
    assert_eq!(infer_type_from_value("2147483648"), "Double");
    assert_eq!(infer_type_from_value("true"), "Boolean");
    assert_eq!(infer_type_from_value("\"hi\""), "String");
    assert_eq!(infer_type_from_value("listOf()"), "Unknown");
}

#[test]
fn sorted_distinct_strings() {
    let v = vec!["b".to_string(), "a".to_string(), "b".to_string(), "A".to_string(), "ab".to_string()];
    assert_eq!(sort_dedup(&v), vec!["A", "a", "ab", "b"]);
    assert!(str_lt("a", "ab"));
    assert!(!str_lt("b", "ab"));
    assert!(!str_lt("x", "x"));
}

#[test]
fn fetch_calls() {
    assert_eq!(
        transform_fetch_call("x = $fetch(url(1))"),
        "x = httpClient.get(url(1)).body()"
    );
    assert_eq!(transform_fetch_call("x = $fetch(url"), "x = $fetch(url");
    assert_eq!(transform_fetch_call("x = 1"), "x = 1");
    assert!(generate_http_client().starts_with("private val httpClient = HttpClient(OkHttp) {"));
}

#[test]
fn ignore_case() {
    assert!(eq_ignore_ascii_case("HiLT", "hilt"));
    assert!(!eq_ignore_ascii_case("hilt", "hil"));
}
