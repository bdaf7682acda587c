use whitehall::analyzer::{StoreInfo, StoreRegistry, StoreSource};
use whitehall::ast::{
    Component, ComponentProp, FunctionDeclaration, LifecycleHook, Markup, PropValue,
    StateDeclaration, WhitehallFile,
};
use whitehall::compose_scan::{
    detect_fetch_usage, detect_store_instantiation, detect_store_usage, extract_params_from_text,
    extract_route_params,
};

fn info(name: &str, hilt: bool) -> StoreInfo {
    StoreInfo {
        class_name: name.to_string(),
        source: StoreSource::Class,
        has_vars: true,
        has_hilt: hilt,
        has_inject: false,
        package: String::new(),
    }
}

fn state(name: &str, init: &str) -> StateDeclaration {
    StateDeclaration {
        name: name.to_string(),
        mutable: true,
        type_annotation: None,
        initial_value: init.to_string(),
        is_derived_state: false,
    }
}

#[test]
fn params_in_text() {
    let mut v = Vec::new();
    extract_params_from_text(
        "x = $screen.params.id + $screen.params.user_name.x + $screen.params.",
        &mut v,
    );
    assert_eq!(v, vec!["id", "user_name"]);
}

#[test]
fn route_params_of_a_screen() {
    let mut f = WhitehallFile::new();
    f.lifecycle_hooks.push(LifecycleHook {
        hook_type: "onMount".to_string(),
        body: "load($screen.params.id)".to_string(),
    });
    f.functions.push(FunctionDeclaration {
        name: "f".to_string(),
        params: String::new(),
        return_type: None,
        body: "open($screen.params.tab)".to_string(),
        is_suspend: false,
        markup: None,
    });
    f.state.push(state("s", "$screen.params.id"));
    f.markup = Markup::Component(Component {
        name: "Text".to_string(),
        props: vec![ComponentProp {
            name: "text".to_string(),
            value: PropValue::Expression("$screen.params.alpha".to_string()),
        }],
        children: vec![Markup::Interpolation("$screen.params.zeta".to_string())],
        self_closing: false,
    });
    assert_eq!(extract_route_params(&f), vec!["alpha", "id", "tab", "zeta"]);
}

#[test]
fn fetch_usage() {
    let mut f = WhitehallFile::new();
    assert!(!detect_fetch_usage(&f));
    f.state.push(state("photos", "$fetch(\"u\")"));
    assert!(detect_fetch_usage(&f));
}

#[test]
fn store_instantiation() {
    let mut reg = StoreRegistry::new();
    reg.insert("CounterStore".to_string(), info("CounterStore", false));
    let found = detect_store_instantiation(" CounterStore() ", Some(&reg)).unwrap();
    assert_eq!(found.class_name, "CounterStore");
    assert!(detect_store_instantiation("CounterStore", Some(&reg)).is_none());
    assert!(detect_store_instantiation("Other()", Some(&reg)).is_none());
    assert!(detect_store_instantiation("CounterStore()", None).is_none());
}

#[test]
fn store_usage() {
    let mut reg = StoreRegistry::new();
    reg.insert("UserStore".to_string(), info("UserStore", true));
    reg.insert("CounterStore".to_string(), info("CounterStore", false));
    let mut f = WhitehallFile::new();
    f.state.push(state("c", "CounterStore()"));
    assert_eq!(detect_store_usage(&f, Some(&reg)), (true, false));
    f.state.push(state("u", "UserStore(repo)"));
    assert_eq!(detect_store_usage(&f, Some(&reg)), (true, true));
    assert_eq!(detect_store_usage(&f, None), (false, false));
}
