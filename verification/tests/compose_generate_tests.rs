use whitehall::analyzer::{StoreInfo, StoreRegistry, StoreSource};
use whitehall::ast::{
    ClassDeclaration, Component, FunctionDeclaration, LifecycleHook, Markup,
    PropertyDeclaration, StateDeclaration, WhitehallFile,
};
use whitehall::compose_backend::TranspileResult;
use whitehall::compose_body::standard_gen;
use whitehall::compose_components::{MarkupGen, MarkupState};
use whitehall::compose_generate::generate;
use whitehall::compose_text::ExprContext;
use whitehall::compose_wrapper::wrapper_gen;

fn base(component_type: Option<&str>) -> MarkupGen {
    MarkupGen {
        ctx: ExprContext {
            nullable_vars: vec![],
            in_viewmodel_wrapper: false,
            mutable_vars: vec![],
            derived_props: vec![],
            function_names: vec![],
        },
        component_type: component_type.map(|t| t.to_string()),
        var_types: vec![],
        optimizations: vec![],
    }
}

fn text_markup(t: &str) -> Markup {
    Markup::Component(Component {
        name: "Text".to_string(),
        props: vec![],
        children: vec![Markup::Text(t.to_string())],
        self_closing: false,
    })
}

fn var(name: &str, value: &str) -> StateDeclaration {
    StateDeclaration {
        name: name.to_string(),
        mutable: true,
        type_annotation: None,
        initial_value: value.to_string(),
        is_derived_state: false,
    }
}

fn plain_fn(name: &str, body: &str) -> FunctionDeclaration {
    FunctionDeclaration {
        name: name.to_string(),
        params: String::new(),
        return_type: None,
        body: body.to_string(),
        is_suspend: false,
        markup: None,
    }
}

fn run(
    package: &str,
    name: &str,
    registry: Option<&StoreRegistry>,
    b: &MarkupGen,
    f: &WhitehallFile,
) -> Result<TranspileResult, String> {
    let g = standard_gen(b, f);
    let w = wrapper_gen(b, f);
    let mut st = MarkupState { uses_experimental_material3: false, dropdown_count: 0 };
    generate(package, name, registry, &vec![], b, &g, &w, &mut st, f)
}

fn single(r: Result<TranspileResult, String>) -> String {
    match r.unwrap() {
        TranspileResult::Single(s) => s,
        TranspileResult::Multiple(_) => panic!("expected one file"),
    }
}

#[test]
fn standard_component_with_state_and_function() {
    let mut f = WhitehallFile::new();
    f.state = vec![var("count", "0")];
    f.functions = vec![plain_fn("increment", "count++")];
    f.markup = text_markup("Hi");
    let out = single(run("com.example.app.components", "Counter", None, &base(None), &f));
    assert_eq!(
        out,
        "package com.example.app.components\n\n\
         import androidx.compose.material3.Text\n\
         import androidx.compose.runtime.*\n\n\
         @Composable\n\
         fun Counter() {\n    \
         var count by remember { mutableStateOf(0) }\n\n    \
         fun increment() {\n        \
         count++\n    \
         }\n\n    \
         Text(text = \"Hi\")\n\
         }\n"
    );
}

#[test]
fn computed_state_puts_functions_first() {
    let mut f = WhitehallFile::new();
    f.state = vec![StateDeclaration {
        name: "label".to_string(),
        mutable: false,
        type_annotation: Some("String".to_string()),
        initial_value: "\"x\"".to_string(),
        is_derived_state: false,
    }];
    f.functions = vec![plain_fn("go", "run()")];
    f.markup = text_markup("Hi");
    let out = single(run("com.example.app.components", "Label", None, &base(None), &f));
    assert!(out.contains(
        "fun Label() {\n    val label: String = \"x\"\n\n    fun go() {\n        run()\n    }\n\n    Text(text = \"Hi\")\n}\n"
    ));
}

#[test]
fn screen_with_mount_hook_and_navigation() {
    let mut f = WhitehallFile::new();
    f.lifecycle_hooks = vec![LifecycleHook {
        hook_type: "onMount".to_string(),
        body: "launch {\n  load()\n}".to_string(),
    }];
    f.functions = vec![plain_fn("go", "$navigate(\"home\")")];
    f.markup = text_markup("Hi");
    let out = single(run("com.example.app.screens", "Home", None, &base(Some("screen")), &f));
    assert!(out.starts_with(
        "package com.example.app.screens\n\n\
         import androidx.compose.material3.Text\n\
         import androidx.compose.runtime.Composable\n\
         import androidx.navigation.NavController\n\
         import com.example.app.routes.Routes\n\
         import kotlinx.coroutines.launch\n\n\
         @Composable\n\
         fun Home(navController: NavController) {\n"
    ));
    assert!(out.contains(
        "    val coroutineScope = rememberCoroutineScope()\n\n    \
         LaunchedEffect(Unit) {\n        \
         coroutineScope.launch {\n          \
         load()\n        \
         }\n    \
         }\n\n"
    ));
    assert!(out.contains("        navController.navigate(\"home\")\n    }\n\n"));
    assert!(out.ends_with("    Text(text = \"Hi\")\n}\n"));
}

#[test]
fn mount_and_dispose_share_one_effect() {
    let mut f = WhitehallFile::new();
    f.lifecycle_hooks = vec![
        LifecycleHook { hook_type: "onMount".to_string(), body: "start()".to_string() },
        LifecycleHook { hook_type: "onDispose".to_string(), body: "  stop()  ".to_string() },
    ];
    f.markup = text_markup("Hi");
    let out = single(run("com.example.app.components", "Timer", None, &base(None), &f));
    assert!(out.contains(
        "    DisposableEffect(Unit) {\n        start()\n\n        onDispose {\n            stop()\n        }\n    }\n\n"
    ));
}

#[test]
fn dispatcher_use_adds_its_import() {
    let mut f = WhitehallFile::new();
    f.functions = vec![plain_fn("load", "scope.launch(Dispatchers.IO) { }")];
    f.markup = text_markup("Hi");
    let out = single(run("com.example.app.components", "Loader", None, &base(None), &f));
    assert!(out.starts_with(
        "package com.example.app.components\nimport kotlinx.coroutines.launch\nimport kotlinx.coroutines.Dispatchers\n\n"
    ));
}

#[test]
fn registered_store_class_is_generated_as_its_store() {
    let mut f = WhitehallFile::new();
    f.classes = vec![ClassDeclaration {
        annotations: vec![],
        is_object: false,
        name: "CounterStore".to_string(),
        constructor: None,
        properties: vec![PropertyDeclaration {
            name: "count".to_string(),
            mutable: true,
            type_annotation: None,
            initial_value: Some("0".to_string()),
            getter: None,
            visibility: None,
        }],
        functions: vec![],
    }];
    f.markup = text_markup("Hi");
    let mut reg = StoreRegistry::new();
    reg.insert(
        "CounterStore".to_string(),
        StoreInfo {
            class_name: "CounterStore".to_string(),
            source: StoreSource::Class,
            has_vars: true,
            has_hilt: false,
            has_inject: false,
            package: String::new(),
        },
    );
    let out = single(run("com.example.app.stores", "CounterStore", Some(&reg), &base(None), &f));
    assert!(out.starts_with("package com.example.app.stores\n\n"));
    assert!(out.contains("class CounterStore : ViewModel() {\n"));
    assert!(!out.contains("@Composable"));
}

#[test]
fn inline_component_gives_wrapper_and_viewmodel() {
    let mut f = WhitehallFile::new();
    f.state = vec![var("count", "0")];
    f.markup = text_markup("Hi");
    let mut reg = StoreRegistry::new();
    reg.insert(
        "Counter".to_string(),
        StoreInfo {
            class_name: "Counter".to_string(),
            source: StoreSource::ComponentInline,
            has_vars: true,
            has_hilt: false,
            has_inject: false,
            package: String::new(),
        },
    );
    match run("com.example.app.components", "Counter", Some(&reg), &base(None), &f).unwrap() {
        TranspileResult::Multiple(files) => {
            assert_eq!(files.len(), 2);
            assert_eq!(files[1].0, "ViewModel");
        }
        TranspileResult::Single(_) => panic!("expected two files"),
    }
}

#[test]
fn code_generator_renders_a_standard_component() {
    let mut f = WhitehallFile::new();
    f.state = vec![var("count", "0")];
    f.markup = text_markup("Hi");
    let cg = whitehall::codegen::CodeGenerator::new("com.example.app.components", "Counter", None);
    let r = cg.generate(&f).unwrap();
    let out = r.primary_content().to_string();
    assert!(out.starts_with("package com.example.app.components\n\n"));
    assert!(out.contains("fun Counter() {\n    var count by remember { mutableStateOf(0) }\n\n"));
    assert!(out.ends_with("    Text(text = \"Hi\")\n}\n"));
}

#[test]
fn dispatcher_block_in_markup_adds_its_scope() {
    let mut f = WhitehallFile::new();
    f.markup = Markup::Component(Component {
        name: "Button".to_string(),
        props: vec![whitehall::ast::ComponentProp {
            name: "onClick".to_string(),
            value: whitehall::ast::PropValue::Expression("io { load() }".to_string()),
        }],
        children: vec![Markup::Text("Go".to_string())],
        self_closing: false,
    });
    let out = single(run("com.example.app.components", "Loader", None, &base(None), &f));
    assert!(out.contains("    val dispatcherScope = rememberCoroutineScope()\n\n"));
}

#[test]
fn primary_content_of_several_files_is_the_first() {
    let r = TranspileResult::Multiple(vec![
        (String::new(), "wrapper".to_string()),
        ("ViewModel".to_string(), "vm".to_string()),
    ]);
    assert_eq!(r.primary_content(), "wrapper");
    assert_eq!(TranspileResult::Single("x".to_string()).primary_content(), "x");
}
