use whitehall::analyzer::{MutabilityInfo, SemanticInfo, StoreRegistry, SymbolTable};
use whitehall::ast::WhitehallFile;
use whitehall::optimizer::Optimizer;

#[test]
fn test_optimizer_returns_empty_optimizations() {
    let ast = WhitehallFile::default();
    let semantic_info = SemanticInfo {
        symbol_table: SymbolTable::new(),
        mutability_info: MutabilityInfo::new(),
        optimization_hints: Vec::new(),
        store_registry: StoreRegistry::new(),
    };

    let optimized_ast = Optimizer::optimize(ast, semantic_info);

    // No hints, so no optimizations
    assert!(optimized_ast.optimizations.is_empty());
}

#[test]
fn test_optimizer_preserves_ast() {
    let ast = WhitehallFile::default();
    let semantic_info = SemanticInfo {
        symbol_table: SymbolTable::new(),
        mutability_info: MutabilityInfo::new(),
        optimization_hints: Vec::new(),
        store_registry: StoreRegistry::new(),
    };

    // The AST types hold recursive markup and are not `Clone`; an equal value
    // is built again for the comparison.
    let optimized_ast = Optimizer::optimize(WhitehallFile::default(), semantic_info);

    // AST should be preserved unchanged
    assert_eq!(optimized_ast.ast.props.len(), ast.props.len());
    assert_eq!(optimized_ast.ast.state.len(), ast.state.len());
}
