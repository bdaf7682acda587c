//! The transpiler's entry points: parse a `.wh` source, analyze it, merge a
//! project-wide store registry, plan optimizations and generate Kotlin.

use vstd::prelude::*;

use crate::analyzer::{events_fit, file_events, Analyzer, StoreRegistry};
use crate::ast::WhitehallFile;
use crate::codegen::{generated, CodeGenerator};
use crate::compose_backend::TranspileResult;
use crate::optimizer::Optimizer;
use crate::parser::{parse_outcome, Parser};
use crate::text::{lit, spec_trim};

verus! {

/// The error of a file whose name uses are more than a `usize` counts.
pub open spec fn uncountable_error() -> Seq<char> {
    "Too many name uses to count"@
}

/// The component type as text.
pub open spec fn type_arg(t: Option<&str>) -> Option<Seq<char>> {
    match t {
        Some(x) => Some(x@),
        None => None,
    }
}

/// What transpiling `input` gives: the parser's error unchanged; else, on
/// the parsed file, what the code generator gives (an error where the names
/// it uses are more than a `usize` counts).
pub open spec fn transpiled(
    r: Result<TranspileResult, String>,
    input: Seq<char>,
    package: Seq<char>,
    name: Seq<char>,
    t: Option<Seq<char>>,
) -> bool {
    exists|pr: Result<WhitehallFile, String>|
        #[trigger] parse_outcome(spec_trim(input), 0, pr) && match pr {
            Err(e) => r == Err::<TranspileResult, String>(e),
            Ok(f) => if file_events(f).len() <= usize::MAX {
                generated(r, package, name, t, f)
            } else {
                r matches Err(x) && x@ == uncountable_error()
            },
        }
}

/// Transpiles Whitehall source to Kotlin/Compose.
pub fn transpile(
    input: &str,
    package: &str,
    component_name: &str,
    component_type: Option<&str>,
) -> (r: Result<TranspileResult, String>)
    requires
        input@.len() < usize::MAX,
    ensures
        transpiled(r, input@, package@, component_name@, type_arg(component_type)),
{
    transpile_with_registry(input, package, component_name, component_type, None)
}

/// Transpiles with an optional project-wide store registry (the file's own
/// registrations take precedence).
pub fn transpile_with_registry(
    input: &str,
    package: &str,
    component_name: &str,
    component_type: Option<&str>,
    global_store_registry: Option<&StoreRegistry>,
) -> (r: Result<TranspileResult, String>)
    requires
        input@.len() < usize::MAX,
        global_store_registry matches Some(g) ==> g.wf(),
    ensures
        transpiled(r, input@, package@, component_name@, type_arg(component_type)),
{
    let mut parser = Parser::new(input);
    let pr = parser.parse();
    let ghost gpr = pr;
    let ast = match pr {
        Ok(f) => f,
        Err(e) => {
            proof {
                assert(parse_outcome(spec_trim(input@), 0, gpr));
            }
            return Err(e);
        },
    };
    if !events_fit(&ast) {
        let r = Err(lit("Too many name uses to count"));
        proof {
            assert(parse_outcome(spec_trim(input@), 0, gpr));
        }
        return r;
    }
    let mut semantic_info = match Analyzer::analyze(&ast) {
        Ok(info) => info,
        Err(e) => {
            return Err(e);
        },
    };
    match global_store_registry {
        Some(global) => {
            let entries = global.iter();
            let mut i: usize = 0;
            while i < entries.len()
                invariant
                    i <= entries@.len(),
                    semantic_info.store_registry.wf(),
                decreases entries.len() - i,
            {
                let (name, info) = entries[i];
                if !semantic_info.store_registry.contains(name.as_str()) {
                    semantic_info.store_registry.insert(name.clone(), info.clone());
                }
                i = i + 1;
            }
        },
        None => {},
    }
    let ghost f = ast;
    let optimized_ast = Optimizer::optimize(ast, semantic_info);
    let codegen = CodeGenerator::new(package, component_name, component_type);
    let r = codegen.generate(&optimized_ast.ast);
    proof {
        assert(parse_outcome(spec_trim(input@), 0, gpr));
        assert(gpr == Ok::<WhitehallFile, String>(f));
    }
    r
}

} // verus!
