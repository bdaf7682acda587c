use whitehall::ast::{KotlinBlockType, Markup, PropValue};
use whitehall::parser::{parse_for_stores, Parser};

fn parse(src: &str) -> Result<whitehall::ast::WhitehallFile, String> {
    let mut parser = Parser::new(src);
    parser.parse()
}

#[test]
fn empty_source_gives_empty_file() {
    let file = parse("   \n  ").unwrap();
    assert!(file.imports.is_empty());
    assert!(file.state.is_empty());
    assert!(file.kotlin_blocks.is_empty());
    match file.markup {
        Markup::Text(t) => assert_eq!(t, ""),
        _ => panic!("expected empty text"),
    }
}

#[test]
fn parses_declarations_before_markup() {
    let src = "import androidx.compose.ui.Modifier\n@prop val title: String = \"Hi\"\nvar count: Int = 0\nfun inc() {\n  count++\n}\n<Text>{title}</Text>";
    let file = parse(src).unwrap();
    assert_eq!(file.imports.len(), 1);
    assert_eq!(file.imports[0].path, "androidx.compose.ui.Modifier");
    assert_eq!(file.props.len(), 1);
    assert_eq!(file.props[0].name, "title");
    assert_eq!(file.props[0].prop_type, "String");
    assert_eq!(file.props[0].default_value.as_deref(), Some("\"Hi\""));
    assert_eq!(file.state.len(), 1);
    assert_eq!(file.state[0].name, "count");
    assert!(file.state[0].mutable);
    assert_eq!(file.state[0].type_annotation.as_deref(), Some("Int"));
    assert_eq!(file.state[0].initial_value, "0");
    assert_eq!(file.functions.len(), 1);
    assert_eq!(file.functions[0].name, "inc");
    assert_eq!(file.functions[0].body, "count++");
    match &file.markup {
        Markup::Component(c) => {
            assert_eq!(c.name, "Text");
            assert!(!c.self_closing);
            assert_eq!(c.children.len(), 1);
            match &c.children[0] {
                Markup::Interpolation(e) => assert_eq!(e, "title"),
                _ => panic!("expected interpolation"),
            }
        }
        _ => panic!("expected component"),
    }
}

#[test]
fn derived_state_becomes_derived_state_of_and_immutable() {
    let file = parse("var doubled = $derived(count * 2)\n<Text>{doubled}</Text>").unwrap();
    let st = &file.state[0];
    assert_eq!(st.initial_value, "derivedStateOf { count * 2 }");
    assert!(st.is_derived_state);
    assert!(!st.mutable);
}

#[test]
fn derived_state_of_is_kept_and_marked() {
    let file = parse("val total = derivedStateOf { a + b }\n<Text>x</Text>").unwrap();
    let st = &file.state[0];
    assert!(st.is_derived_state);
    assert!(!st.mutable);
    assert_eq!(st.initial_value, "derivedStateOf { a + b }");
}

#[test]
fn state_without_value_reports_what_was_found() {
    let err = parse("var x: Int\n<Text>hi</Text>").unwrap_err();
    assert_eq!(
        err,
        "Expected '=' after variable 'x' with type Some(\"Int\"), found: Some('<') (context: \"<Text>hi</Text>\")"
    );
}

#[test]
fn mismatched_closing_tag_is_an_error() {
    let err = parse("<Text>Hello</Texx>").unwrap_err();
    assert_eq!(err, "Mismatched tags: opening <Text> vs closing </Texx>");
}

#[test]
fn hook_without_dollar_gets_a_hint() {
    let err = parse("onMount {\n}").unwrap_err();
    assert_eq!(
        err,
        "unknown identifier 'onMount'\n --> line 1:1\n  |\n  1 | onMount {\n  | ^^^\n  |\n  = help: did you mean '$onMount'? (lifecycle hook requires $ prefix)\n"
    );
}

#[test]
fn directive_without_at_gets_a_hint() {
    let err = parse("if (x) {\n}").unwrap_err();
    assert_eq!(
        err,
        "unexpected 'if ('\n --> line 1:1\n  |\n  1 | if (x) {\n  | ^^^\n  |\n  = help: did you mean '@if'? (conditional directive requires @ prefix in markup)\n"
    );
}

#[test]
fn fetch_without_dollar_in_a_body_is_located() {
    let err = parse("fun load() {\n  fetch(\"x\")\n}\n<Text>a</Text>").unwrap_err();
    assert_eq!(
        err,
        "unknown identifier 'fetch'\n --> line 2:3\n  |\n  2 |   fetch(\"x\")\n  |   ^^^\n  |\n  = help: did you mean '$fetch'? (HTTP request function requires $ prefix)\n"
    );
}

#[test]
fn prefixed_fetch_in_a_body_is_accepted() {
    let file = parse("fun load() {\n  $fetch(\"x\")\n}\n<Text>a</Text>").unwrap();
    assert_eq!(file.functions[0].body, "$fetch(\"x\")");
}

#[test]
fn missing_open_brace_reports_line_and_column() {
    let err = parse("<Text>{a</Text>").unwrap_err();
    assert!(err.starts_with("Expected '}', found EOF\n --> line 1:16\n"));
}

#[test]
fn several_roots_are_wrapped_in_a_column() {
    let file = parse("<Text>a</Text>\n<Text>b</Text>").unwrap();
    match &file.markup {
        Markup::Component(c) => {
            assert_eq!(c.name, "Column");
            assert_eq!(c.children.len(), 2);
            assert!(c.props.is_empty());
        }
        _ => panic!("expected component"),
    }
}

#[test]
fn script_tag_imports_are_collected() {
    let file = parse("<script>\nimport a.b.C\n  import d.E  \nval x = 1\n</script>\n<Text>x</Text>").unwrap();
    assert_eq!(file.imports.len(), 2);
    assert_eq!(file.imports[0].path, "a.b.C");
    assert_eq!(file.imports[1].path, "d.E");
}

#[test]
fn unclosed_script_tag_is_an_error() {
    let err = parse("<script>\nimport a.b.C\n").unwrap_err();
    assert_eq!(err, "Unclosed <script> tag");
}

#[test]
fn data_class_passes_through() {
    let file = parse("data class User(val name: String)\n<Text>hi</Text>").unwrap();
    assert_eq!(file.kotlin_blocks.len(), 1);
    assert_eq!(file.kotlin_blocks[0].content, "data class User(val name: String)");
    assert_eq!(file.kotlin_blocks[0].position, 0);
    assert_eq!(file.kotlin_blocks[0].block_type, KotlinBlockType::DataClass);
}

#[test]
fn annotations_are_prepended_to_pass_through_blocks() {
    let file = parse("<Text>hi</Text>\n@Serializable\ndata class User(val name: String)").unwrap();
    assert_eq!(file.kotlin_blocks.len(), 1);
    assert_eq!(
        file.kotlin_blocks[0].content,
        "@Serializable\ndata class User(val name: String)"
    );
}

#[test]
fn unbalanced_brace_in_pass_through_is_an_error() {
    let err = parse("sealed class A }").unwrap_err();
    assert!(err.starts_with("Unmatched closing brace in Kotlin block\n"));
}

#[test]
fn component_props_parse() {
    let file = parse("<Button onClick={increment} enabled label=\"Go\" bind:value={name} />").unwrap();
    match &file.markup {
        Markup::Component(c) => {
            assert!(c.self_closing);
            assert_eq!(c.props.len(), 4);
            assert_eq!(c.props[0].name, "onClick");
            match &c.props[0].value {
                PropValue::Expression(e) => assert_eq!(e, "increment"),
                _ => panic!(),
            }
            match &c.props[1].value {
                PropValue::Expression(e) => assert_eq!(e, "true"),
                _ => panic!(),
            }
            match &c.props[2].value {
                PropValue::Expression(e) => assert_eq!(e, "\"Go\""),
                _ => panic!(),
            }
            assert_eq!(c.props[3].name, "bind:value");
        }
        _ => panic!("expected component"),
    }
}

#[test]
fn component_as_prop_value() {
    let file = parse("<Scaffold topBar={<TopBar />}></Scaffold>").unwrap();
    match &file.markup {
        Markup::Component(c) => match &c.props[0].value {
            PropValue::Markup(m) => match m.as_ref() {
                Markup::Component(t) => assert_eq!(t.name, "TopBar"),
                _ => panic!(),
            },
            _ => panic!(),
        },
        _ => panic!(),
    }
}

#[test]
fn for_loop_with_index_key_and_empty_block() {
    let src = "<Column>\n@for (i, item in items, key = { it.id }) {\n<Text>{item}</Text>\n} empty {\n<Text>None</Text>\n}\n</Column>";
    let file = parse(src).unwrap();
    match &file.markup {
        Markup::Component(c) => match &c.children[0] {
            Markup::ForLoop(f) => {
                assert_eq!(f.index.as_deref(), Some("i"));
                assert_eq!(f.item, "item");
                assert_eq!(f.collection, "items");
                assert_eq!(f.key_expr.as_deref(), Some("it.id"));
                assert_eq!(f.body.len(), 1);
                assert!(f.empty_block.is_some());
            }
            _ => panic!("expected for loop"),
        },
        _ => panic!(),
    }
}

#[test]
fn if_else_if_else_and_when() {
    let src = "<Column>\n@if (a) {\n<Text>A</Text>\n} else if (b) {\n<Text>B</Text>\n} else {\n<Text>C</Text>\n}\n@when {\nx > 1 -> <Text>big</Text>\nelse -> <Text>small</Text>\n}\n</Column>";
    let file = parse(src).unwrap();
    match &file.markup {
        Markup::Component(c) => {
            match &c.children[0] {
                Markup::IfElse(b) => {
                    assert_eq!(b.condition, "a");
                    assert_eq!(b.else_ifs.len(), 1);
                    assert_eq!(b.else_ifs[0].condition, "b");
                    assert!(b.else_branch.is_some());
                }
                _ => panic!("expected if"),
            }
            match &c.children[1] {
                Markup::When(w) => {
                    assert_eq!(w.branches.len(), 2);
                    assert_eq!(w.branches[0].condition.as_deref(), Some("x > 1"));
                    assert!(w.branches[1].condition.is_none());
                }
                _ => panic!("expected when"),
            }
        }
        _ => panic!(),
    }
}

#[test]
fn text_escapes_and_interpolation() {
    let file = parse("<Text>a {{b}} {c} @user</Text>").unwrap();
    match &file.markup {
        Markup::Component(c) => {
            assert_eq!(c.children.len(), 3);
            match &c.children[0] {
                Markup::Text(t) => assert_eq!(t, "a {b} "),
                _ => panic!(),
            }
            match &c.children[1] {
                Markup::Interpolation(e) => assert_eq!(e, "c"),
                _ => panic!(),
            }
            match &c.children[2] {
                Markup::Text(t) => assert_eq!(t, " @user"),
                _ => panic!(),
            }
        }
        _ => panic!(),
    }
}

#[test]
fn lifecycle_hook_body_is_trimmed() {
    let file = parse("$onMount {\n  load()\n}\n<Text>x</Text>").unwrap();
    assert_eq!(file.lifecycle_hooks.len(), 1);
    assert_eq!(file.lifecycle_hooks[0].hook_type, "onMount");
    assert_eq!(file.lifecycle_hooks[0].body, "load()");
}

#[test]
fn store_only_file_has_empty_markup() {
    let src = "@store\nclass CounterStore {\n  var count = 0\n  private val step: Int = 1\n  val double get() = count * 2\n  fun inc() { count++ }\n}";
    let file = parse(src).unwrap();
    assert_eq!(file.classes.len(), 1);
    let class = &file.classes[0];
    assert_eq!(class.name, "CounterStore");
    assert_eq!(class.annotations, vec!["store".to_string()]);
    assert!(!class.is_object);
    assert_eq!(class.properties.len(), 3);
    assert!(class.properties[0].mutable);
    assert_eq!(class.properties[1].visibility.as_deref(), Some("private"));
    assert_eq!(class.properties[2].getter.as_deref(), Some("count * 2"));
    assert_eq!(class.functions.len(), 1);
    match &file.markup {
        Markup::Text(t) => assert_eq!(t, ""),
        _ => panic!(),
    }
}

#[test]
fn injected_constructor_is_parsed() {
    let src = "@HiltViewModel\nclass Repo @Inject constructor(private val api: Api) {\n  var items = listOf<String>()\n}";
    let file = parse(src).unwrap();
    let ctor = file.classes[0].constructor.as_ref().unwrap();
    assert_eq!(ctor.annotations, vec!["Inject".to_string()]);
    assert_eq!(ctor.parameters, "private val api: Api");
}

#[test]
fn helper_function_with_markup_after_the_component() {
    let src = "<Text>a</Text>\nfun Header(title: String) {\n<Text>{title}</Text>\n}";
    let file = parse(src).unwrap();
    assert_eq!(file.functions.len(), 1);
    assert_eq!(file.functions[0].name, "Header");
    assert_eq!(file.functions[0].params, "title: String");
    assert!(file.functions[0].markup.is_some());
}

#[test]
fn values_keep_strings_arrays_and_ranges() {
    let file = parse("val names = [\"a\", \"b\"]\nval r = 1..10\nval s = \"hi\"\n<Text>x</Text>").unwrap();
    assert_eq!(file.state[0].initial_value, "[\"a\", \"b\"]");
    assert_eq!(file.state[1].initial_value, "RANGE[1..10]");
    assert_eq!(file.state[2].initial_value, "\"hi\"");
}

#[test]
fn parse_for_stores_reads_declarations() {
    let file = parse_for_stores("class Store {\n  var n = 1\n}").unwrap();
    assert_eq!(file.classes.len(), 1);
    assert_eq!(file.classes[0].name, "Store");
}
