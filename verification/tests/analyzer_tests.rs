use whitehall::analyzer::{Analyzer, OptimizationHint, UsageContext};
use whitehall::ast::{
    Component, ComponentProp, ForLoopBlock, IfElseBlock, Markup, PropDeclaration, PropValue,
    StateDeclaration, WhenBlock, WhenBranch, WhitehallFile,
};


#[test]
fn test_analyzer_creates_symbol_table() {
    let ast = WhitehallFile {
        props: vec![PropDeclaration {
            name: "title".to_string(),
            prop_type: "String".to_string(),
            default_value: None,
        }],
        state: vec![StateDeclaration {
            name: "count".to_string(),
            mutable: true,
            type_annotation: Some("Int".to_string()),
            initial_value: "0".to_string(),
            is_derived_state: false,
        }],
        ..Default::default()
    };

    let semantic_info = Analyzer::analyze(&ast).unwrap();

    // Should have collected both symbols
    assert!(semantic_info.symbol_table.contains("title"));
    assert!(semantic_info.symbol_table.contains("count"));

    // Should track mutability
    assert!(semantic_info.mutability_info.mutable_vars.contains("count"));
    assert!(semantic_info
        .mutability_info
        .immutable_vals
        .contains("title"));
}

#[test]
fn test_analyzer_no_optimizations_yet() {
    let ast = WhitehallFile::default();
    let semantic_info = Analyzer::analyze(&ast).unwrap();

    // Phase 0: no optimizations yet
    assert!(semantic_info.optimization_hints.is_empty());
}

// ========== Phase 1: Usage Tracking Tests ==========

#[test]
fn test_tracks_variable_in_interpolation() {

    let ast = WhitehallFile {
        state: vec![StateDeclaration {
            name: "count".to_string(),
            mutable: false,
            type_annotation: Some("Int".to_string()),
            initial_value: "0".to_string(),
            is_derived_state: false,
        }],
        markup: Markup::Interpolation("count".to_string()),
        ..Default::default()
    };

    let semantic_info = Analyzer::analyze(&ast).unwrap();
    let symbol = semantic_info.symbol_table.get("count").unwrap();

    // Should have recorded 1 access
    assert_eq!(symbol.usage_info.access_count, 1);
    assert!(symbol.usage_info.contexts.contains(&UsageContext::InInterpolation));
}

#[test]
fn test_tracks_variable_in_component_prop() {

    let ast = WhitehallFile {
        state: vec![StateDeclaration {
            name: "title".to_string(),
            mutable: false,
            type_annotation: Some("String".to_string()),
            initial_value: "\"Hello\"".to_string(),
            is_derived_state: false,
        }],
        markup: Markup::Component(Component {
            name: "Text".to_string(),
            props: vec![ComponentProp {
                name: "text".to_string(),
                value: PropValue::Expression("title".to_string()),
            }],
            children: vec![],
            self_closing: false,
        }),
        ..Default::default()
    };

    let semantic_info = Analyzer::analyze(&ast).unwrap();
    let symbol = semantic_info.symbol_table.get("title").unwrap();

    assert_eq!(symbol.usage_info.access_count, 1);
    assert!(symbol.usage_info.contexts.contains(&UsageContext::InComponentProp {
        component: "Text".to_string(),
        prop_name: "text".to_string(),
    }));
}

#[test]
fn test_tracks_for_loop_collection_access() {

    let ast = WhitehallFile {
        state: vec![StateDeclaration {
            name: "items".to_string(),
            mutable: false,
            type_annotation: Some("List<String>".to_string()),
            initial_value: "listOf()".to_string(),
            is_derived_state: false,
        }],
        markup: Markup::ForLoop(ForLoopBlock {
            index: None,
            item: "item".to_string(),
            collection: "items".to_string(),
            key_expr: None,
            body: vec![],
            empty_block: None,
        }),
        ..Default::default()
    };

    let semantic_info = Analyzer::analyze(&ast).unwrap();
    let symbol = semantic_info.symbol_table.get("items").unwrap();

    assert_eq!(symbol.usage_info.access_count, 1);
    assert!(symbol.usage_info.contexts.contains(&UsageContext::InForLoopCollection {
        collection: "items".to_string(),
    }));
}

#[test]
fn test_tracks_variable_used_in_loop_body() {

    let ast = WhitehallFile {
        state: vec![
            StateDeclaration {
                name: "posts".to_string(),
                mutable: false,
                type_annotation: Some("List<Post>".to_string()),
                initial_value: "listOf()".to_string(),
                is_derived_state: false,
            },
            StateDeclaration {
                name: "highlight".to_string(),
                mutable: false,
                type_annotation: Some("String".to_string()),
                initial_value: "\"red\"".to_string(),
                is_derived_state: false,
            },
        ],
        markup: Markup::ForLoop(ForLoopBlock {
            index: None,
            item: "post".to_string(),
            collection: "posts".to_string(),
            key_expr: None,
            body: vec![Markup::Component(Component {
                name: "Text".to_string(),
                props: vec![ComponentProp {
                    name: "color".to_string(),
                    value: PropValue::Expression("highlight".to_string()),
                }],
                children: vec![],
                self_closing: false,
            })],
            empty_block: None,
        }),
        ..Default::default()
    };

    let semantic_info = Analyzer::analyze(&ast).unwrap();

    // Check 'posts' collection
    let posts = semantic_info.symbol_table.get("posts").unwrap();
    assert_eq!(posts.usage_info.access_count, 1);
    assert!(posts.usage_info.contexts.contains(&UsageContext::InForLoopCollection {
        collection: "posts".to_string(),
    }));

    // Check 'highlight' used inside loop body
    let highlight = semantic_info.symbol_table.get("highlight").unwrap();
    assert_eq!(highlight.usage_info.access_count, 1);
    assert!(highlight.usage_info.used_in_loops);
    assert!(highlight.usage_info.contexts.contains(&UsageContext::InForLoopBody {
        collection: "posts".to_string(),
    }));
}

#[test]
fn test_tracks_key_expression_usage() {

    let ast = WhitehallFile {
        state: vec![StateDeclaration {
            name: "contacts".to_string(),
            mutable: false,
            type_annotation: Some("List<Contact>".to_string()),
            initial_value: "listOf()".to_string(),
            is_derived_state: false,
        }],
        markup: Markup::ForLoop(ForLoopBlock {
            index: None,
            item: "contact".to_string(),
            collection: "contacts".to_string(),
            key_expr: Some("contact.email".to_string()), // 'contact' is loop variable, not tracked
            body: vec![],
            empty_block: None,
        }),
        ..Default::default()
    };

    let semantic_info = Analyzer::analyze(&ast).unwrap();
    let symbol = semantic_info.symbol_table.get("contacts").unwrap();

    // Should record collection access + potentially key expression
    assert!(symbol.usage_info.access_count >= 1);
    assert!(symbol.usage_info.contexts.contains(&UsageContext::InForLoopCollection {
        collection: "contacts".to_string(),
    }));
}

#[test]
fn test_tracks_condition_usage() {

    let ast = WhitehallFile {
        state: vec![StateDeclaration {
            name: "isVisible".to_string(),
            mutable: true,
            type_annotation: Some("Boolean".to_string()),
            initial_value: "true".to_string(),
            is_derived_state: false,
        }],
        markup: Markup::IfElse(IfElseBlock {
            condition: "isVisible".to_string(),
            then_branch: vec![Markup::Text("Visible".to_string())],
            else_ifs: vec![],
            else_branch: None,
        }),
        ..Default::default()
    };

    let semantic_info = Analyzer::analyze(&ast).unwrap();
    let symbol = semantic_info.symbol_table.get("isVisible").unwrap();

    assert_eq!(symbol.usage_info.access_count, 1);
    assert!(symbol.usage_info.used_in_conditions);
    assert!(symbol.usage_info.contexts.contains(&UsageContext::InCondition {
        condition_type: "if".to_string(),
    }));
}

#[test]
fn test_tracks_complex_expression() {

    let ast = WhitehallFile {
        state: vec![
            StateDeclaration {
                name: "count".to_string(),
                mutable: true,
                type_annotation: Some("Int".to_string()),
                initial_value: "0".to_string(),
                is_derived_state: false,
            },
            StateDeclaration {
                name: "max".to_string(),
                mutable: false,
                type_annotation: Some("Int".to_string()),
                initial_value: "100".to_string(),
                is_derived_state: false,
            },
        ],
        markup: Markup::Component(Component {
            name: "Text".to_string(),
            props: vec![ComponentProp {
                name: "text".to_string(),
                value: PropValue::Expression("count < max".to_string()),
            }],
            children: vec![],
            self_closing: false,
        }),
        ..Default::default()
    };

    let semantic_info = Analyzer::analyze(&ast).unwrap();

    // Both 'count' and 'max' should be tracked
    let count = semantic_info.symbol_table.get("count").unwrap();
    assert_eq!(count.usage_info.access_count, 1);

    let max_sym = semantic_info.symbol_table.get("max").unwrap();
    assert_eq!(max_sym.usage_info.access_count, 1);
}

#[test]
fn test_tracks_multiple_accesses() {

    let ast = WhitehallFile {
        state: vec![StateDeclaration {
            name: "title".to_string(),
            mutable: false,
            type_annotation: Some("String".to_string()),
            initial_value: "\"Hello\"".to_string(),
            is_derived_state: false,
        }],
        markup: Markup::Sequence(vec![
            Markup::Component(Component {
                name: "Text".to_string(),
                props: vec![ComponentProp {
                    name: "text".to_string(),
                    value: PropValue::Expression("title".to_string()),
                }],
                children: vec![],
                self_closing: false,
            }),
            Markup::Interpolation("title".to_string()),
            Markup::Component(Component {
                name: "Text".to_string(),
                props: vec![ComponentProp {
                    name: "text".to_string(),
                    value: PropValue::Expression("title".to_string()),
                }],
                children: vec![],
                self_closing: false,
            }),
        ]),
        ..Default::default()
    };

    let semantic_info = Analyzer::analyze(&ast).unwrap();
    let symbol = semantic_info.symbol_table.get("title").unwrap();

    // Should have 3 accesses total
    assert_eq!(symbol.usage_info.access_count, 3);
}

#[test]
fn test_tracks_when_condition() {

    let ast = WhitehallFile {
        state: vec![StateDeclaration {
            name: "status".to_string(),
            mutable: true,
            type_annotation: Some("String".to_string()),
            initial_value: "\"active\"".to_string(),
            is_derived_state: false,
        }],
        markup: Markup::When(WhenBlock {
            branches: vec![
                WhenBranch {
                    condition: Some("status == \"active\"".to_string()),
                    body: Markup::Text("Active".to_string()),
                },
                WhenBranch {
                    condition: None, // else
                    body: Markup::Text("Inactive".to_string()),
                },
            ],
        }),
        ..Default::default()
    };

    let semantic_info = Analyzer::analyze(&ast).unwrap();
    let symbol = semantic_info.symbol_table.get("status").unwrap();

    assert_eq!(symbol.usage_info.access_count, 1);
    assert!(symbol.usage_info.used_in_conditions);
    assert!(symbol.usage_info.contexts.contains(&UsageContext::InCondition {
        condition_type: "when".to_string(),
    }));
}

// ========== Phase 2: Static Detection Tests ==========

#[test]
fn test_detects_static_collection_high_confidence() {

    // Perfect candidate for optimization:
    // - val collection (StateVal)
    // - Not mutated
    // - Not a prop
    // - No event handlers
    // Expected confidence: 100 (40 + 30 + 20 + 10)
    let ast = WhitehallFile {
        state: vec![StateDeclaration {
            name: "items".to_string(),
            mutable: false, // val
            type_annotation: Some("List<String>".to_string()),
            initial_value: "listOf(\"a\", \"b\", \"c\")".to_string(),
            is_derived_state: false,
        }],
        markup: Markup::ForLoop(ForLoopBlock {
            index: None,
            item: "item".to_string(),
            collection: "items".to_string(),
            key_expr: Some("item".to_string()),
            body: vec![Markup::Component(Component {
                name: "Text".to_string(),
                props: vec![],
                children: vec![Markup::Interpolation("item".to_string())],
                self_closing: false,
            })],
            empty_block: None,
        }),
        ..Default::default()
    };

    let semantic_info = Analyzer::analyze(&ast).unwrap();

    assert_eq!(semantic_info.optimization_hints.len(), 1);
    match &semantic_info.optimization_hints[0] {
        OptimizationHint::StaticCollection { name, confidence } => {
            assert_eq!(name, "items");
            assert_eq!(*confidence, 100);
        }
    }
}

#[test]
fn test_detects_static_collection_medium_confidence() {

    // Medium candidate:
    // - var collection (StateVar) - lose 40 points
    // - Not mutated - get 30 points
    // - Not a prop - get 20 points
    // - No event handlers - get 10 points
    // Expected confidence: 60 (0 + 30 + 20 + 10)
    let ast = WhitehallFile {
        state: vec![StateDeclaration {
            name: "items".to_string(),
            mutable: true, // var
            type_annotation: Some("List<String>".to_string()),
            initial_value: "listOf(\"a\", \"b\", \"c\")".to_string(),
            is_derived_state: false,
        }],
        markup: Markup::ForLoop(ForLoopBlock {
            index: None,
            item: "item".to_string(),
            collection: "items".to_string(),
            key_expr: None,
            body: vec![Markup::Component(Component {
                name: "Text".to_string(),
                props: vec![],
                children: vec![Markup::Interpolation("item".to_string())],
                self_closing: false,
            })],
            empty_block: None,
        }),
        ..Default::default()
    };

    let semantic_info = Analyzer::analyze(&ast).unwrap();

    assert_eq!(semantic_info.optimization_hints.len(), 1);
    match &semantic_info.optimization_hints[0] {
        OptimizationHint::StaticCollection { name, confidence } => {
            assert_eq!(name, "items");
            assert_eq!(*confidence, 60);
        }
    }
}

#[test]
fn test_no_optimization_for_prop_collection() {

    // Phase 6: Prop collection - props could be mutated by parent
    // - val (prop) - get 0 points (props excluded from val bonus)
    // - Not mutated - get 30 points
    // - IS a prop - get 0 points (not StateVal/StateVar)
    // - No event handlers - get 10 points
    // Expected confidence: 40 (0 + 30 + 0 + 10)
    // Below 50 threshold, so NO hint generated
    let ast = WhitehallFile {
        props: vec![PropDeclaration {
            name: "items".to_string(),
            prop_type: "List<String>".to_string(),
            default_value: None,
        }],
        markup: Markup::ForLoop(ForLoopBlock {
            index: None,
            item: "item".to_string(),
            collection: "items".to_string(),
            key_expr: None,
            body: vec![Markup::Component(Component {
                name: "Text".to_string(),
                props: vec![],
                children: vec![Markup::Interpolation("item".to_string())],
                self_closing: false,
            })],
            empty_block: None,
        }),
        ..Default::default()
    };

    let semantic_info = Analyzer::analyze(&ast).unwrap();

    // Phase 6: Should NOT generate hint (confidence 40 < 50 threshold)
    assert_eq!(semantic_info.optimization_hints.len(), 0);
}

#[test]
fn test_no_optimization_with_event_handlers() {

    // Has event handler:
    // - val collection - get 40 points
    // - Not mutated - get 30 points
    // - Not a prop - get 20 points
    // - HAS event handler - lose 10 points
    // Expected confidence: 90 (40 + 30 + 20 + 0)
    let ast = WhitehallFile {
        state: vec![StateDeclaration {
            name: "items".to_string(),
            mutable: false,
            type_annotation: Some("List<String>".to_string()),
            initial_value: "listOf(\"a\", \"b\")".to_string(),
            is_derived_state: false,
        }],
        markup: Markup::ForLoop(ForLoopBlock {
            index: None,
            item: "item".to_string(),
            collection: "items".to_string(),
            key_expr: None,
            body: vec![Markup::Component(Component {
                name: "Button".to_string(),
                props: vec![ComponentProp {
                    name: "onClick".to_string(),
                    value: PropValue::Expression("handleClick".to_string()),
                }],
                children: vec![Markup::Interpolation("item".to_string())],
                self_closing: false,
            })],
            empty_block: None,
        }),
        ..Default::default()
    };

    let semantic_info = Analyzer::analyze(&ast).unwrap();

    // Should still generate hint but with lower confidence
    assert_eq!(semantic_info.optimization_hints.len(), 1);
    match &semantic_info.optimization_hints[0] {
        OptimizationHint::StaticCollection { name, confidence } => {
            assert_eq!(name, "items");
            assert_eq!(*confidence, 90); // Missing event handler bonus
        }
    }
}

#[test]
fn test_no_optimization_below_threshold() {

    // Very poor candidate:
    // - var collection (Prop, but mutable declared elsewhere... actually this is a prop)
    // Let me create a var prop scenario - actually props are always immutable
    // Let's use a mutable var with event handlers
    // - var collection - lose 40 points (0)
    // - Mutated - lose 30 points (0)  // Phase 2 does not track mutations
    // - Not a prop - get 20 points
    // - HAS event handler - lose 10 points (0)
    // Expected confidence: 20 (0 + 0 + 20 + 0) - BUT mutations not tracked yet
    // So actually: 50 (0 + 30 + 20 + 0)
    let ast = WhitehallFile {
        state: vec![StateDeclaration {
            name: "items".to_string(),
            mutable: true, // var
            type_annotation: Some("List<String>".to_string()),
            initial_value: "mutableListOf()".to_string(),
            is_derived_state: false,
        }],
        markup: Markup::ForLoop(ForLoopBlock {
            index: None,
            item: "item".to_string(),
            collection: "items".to_string(),
            key_expr: None,
            body: vec![Markup::Component(Component {
                name: "Button".to_string(),
                props: vec![ComponentProp {
                    name: "onClick".to_string(),
                    value: PropValue::Expression("handleClick".to_string()),
                }],
                children: vec![Markup::Interpolation("item".to_string())],
                self_closing: false,
            })],
            empty_block: None,
        }),
        ..Default::default()
    };

    let semantic_info = Analyzer::analyze(&ast).unwrap();

    // Confidence: 50 (0 + 30 + 20 + 0)
    // Still above threshold of 50, so hint is generated
    assert_eq!(semantic_info.optimization_hints.len(), 1);
    match &semantic_info.optimization_hints[0] {
        OptimizationHint::StaticCollection { name, confidence } => {
            assert_eq!(name, "items");
            assert_eq!(*confidence, 50); // Exactly at threshold
        }
    }
}

#[test]
fn test_detects_multiple_for_loops() {

    // Two separate for loops, both qualify
    let ast = WhitehallFile {
        state: vec![
            StateDeclaration {
                name: "items1".to_string(),
                mutable: false,
                type_annotation: Some("List<String>".to_string()),
                initial_value: "listOf()".to_string(),
                is_derived_state: false,
            },
            StateDeclaration {
                name: "items2".to_string(),
                mutable: false,
                type_annotation: Some("List<String>".to_string()),
                initial_value: "listOf()".to_string(),
                is_derived_state: false,
            },
        ],
        markup: Markup::Sequence(vec![
            Markup::ForLoop(ForLoopBlock {
                index: None,
                item: "item".to_string(),
                collection: "items1".to_string(),
                key_expr: None,
                body: vec![Markup::Component(Component {
                    name: "Text".to_string(),
                    props: vec![],
                    children: vec![],
                    self_closing: false,
                })],
                empty_block: None,
            }),
            Markup::ForLoop(ForLoopBlock {
                index: None,
                item: "item".to_string(),
                collection: "items2".to_string(),
                key_expr: None,
                body: vec![Markup::Component(Component {
                    name: "Text".to_string(),
                    props: vec![],
                    children: vec![],
                    self_closing: false,
                })],
                empty_block: None,
            }),
        ]),
        ..Default::default()
    };

    let semantic_info = Analyzer::analyze(&ast).unwrap();

    // Should detect both loops
    assert_eq!(semantic_info.optimization_hints.len(), 2);

    let names: Vec<String> = semantic_info
        .optimization_hints
        .iter()
        .filter_map(|hint| match hint {
            OptimizationHint::StaticCollection { name, .. } => Some(name.clone()),
        })
        .collect();

    assert!(names.contains(&"items1".to_string()));
    assert!(names.contains(&"items2".to_string()));
}

#[test]
fn test_detects_nested_for_loops() {

    // Nested for loops - both should be detected
    let ast = WhitehallFile {
        state: vec![
            StateDeclaration {
                name: "outer".to_string(),
                mutable: false,
                type_annotation: Some("List<Group>".to_string()),
                initial_value: "listOf()".to_string(),
                is_derived_state: false,
            },
            StateDeclaration {
                name: "inner".to_string(),
                mutable: false,
                type_annotation: Some("List<Item>".to_string()),
                initial_value: "listOf()".to_string(),
                is_derived_state: false,
            },
        ],
        markup: Markup::ForLoop(ForLoopBlock {
            index: None,
            item: "group".to_string(),
            collection: "outer".to_string(),
            key_expr: None,
            body: vec![Markup::ForLoop(ForLoopBlock {
                index: None,
                item: "item".to_string(),
                collection: "inner".to_string(),
                key_expr: None,
                body: vec![Markup::Component(Component {
                    name: "Text".to_string(),
                    props: vec![],
                    children: vec![],
                    self_closing: false,
                })],
                empty_block: None,
            })],
            empty_block: None,
        }),
        ..Default::default()
    };

    let semantic_info = Analyzer::analyze(&ast).unwrap();

    // Should detect both outer and inner loops
    assert_eq!(semantic_info.optimization_hints.len(), 2);
}
