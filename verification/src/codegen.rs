//! The code generator: a component's Kotlin from its parsed file, with the
//! Compose backend and no store registry or optimization plans of its own.

use vstd::prelude::*;

use crate::ast::WhitehallFile;
use crate::compose_backend::{ffi_builds_all, ffi_objects, TranspileResult};
use crate::compose_body::standard_of;
use crate::compose_components::{MarkupGen, MarkupState};
use crate::compose_generate::{standard_code, standard_file, standard_fine, standard_flags};
use crate::compose_imports::strs;
use crate::compose_text::ExprContext;
use crate::analyzer::SemanticInfo;
use crate::compose_generate::{compose_fine, compose_outcome};
use crate::compose_wrapper::{same_plans, wrapper_of};
use crate::optimizer::Optimization;

verus! {

/// Generates a component's Kotlin (the Compose backend).
pub struct CodeGenerator {
    pub package: String,
    pub component_name: String,
    pub component_type: Option<String>,
}

/// The component type as text.
pub open spec fn type_text(t: Option<String>) -> Option<Seq<char>> {
    match t {
        Some(x) => Some(x@),
        None => None,
    }
}

/// A fresh generator for a component of type `t`: no nullable, mutable or
/// derived names, no functions, not inside a ViewModel wrapper, no variable
/// types and no optimization plans.
pub open spec fn fresh_gen(b: MarkupGen, t: Option<Seq<char>>) -> bool {
    &&& strs(b.ctx.nullable_vars@).len() == 0
    &&& !b.ctx.in_viewmodel_wrapper
    &&& strs(b.ctx.mutable_vars@).len() == 0
    &&& strs(b.ctx.derived_props@).len() == 0
    &&& strs(b.ctx.function_names@).len() == 0
    &&& b.type_view() == t
    &&& b.var_types@.len() == 0
    &&& b.optimizations@.len() == 0
}

/// A fresh generator for a component of type `t` with the optimization
/// plans `opts`.
pub open spec fn fresh_plans(b: MarkupGen, t: Option<Seq<char>>, opts: Seq<Optimization>) -> bool {
    &&& strs(b.ctx.nullable_vars@).len() == 0
    &&& !b.ctx.in_viewmodel_wrapper
    &&& strs(b.ctx.mutable_vars@).len() == 0
    &&& strs(b.ctx.derived_props@).len() == 0
    &&& strs(b.ctx.function_names@).len() == 0
    &&& b.type_view() == t
    &&& b.var_types@.len() == 0
    &&& same_plans(b.optimizations@, opts)
}

/// The state of a fresh generation.
pub open spec fn fresh_state() -> MarkupState {
    MarkupState { uses_experimental_material3: false, dropdown_count: 0 }
}

/// What generating standard component `name` (in `package`) of `file` with
/// `g` and no registry gives.
pub open spec fn standard_result(
    r: Result<TranspileResult, String>,
    package: Seq<char>,
    name: Seq<char>,
    g: MarkupGen,
    file: WhitehallFile,
) -> bool {
    let f = standard_flags(None, file);
    match (r, standard_code(package, name, None, f, g, fresh_state(), file).0) {
        (Ok(TranspileResult::Single(a)), Ok(b)) => ffi_builds_all(ffi_objects(file.imports@)) && a@
            == standard_file(b, file),
        (Err(a), Err(b)) => a@ == b,
        (Err(_), Ok(_)) => !ffi_builds_all(ffi_objects(file.imports@)),
        _ => false,
    }
}

/// The error of a file that the standard generator cannot render: a prop
/// value it reads is malformed, a name it derives from is unusable, or the
/// markup nests deeper than the indentation can count.
pub open spec fn unrenderable_error() -> Seq<char> {
    "Cannot generate Kotlin: malformed prop value, unusable state name or markup nested too deep"@
}

/// What generating component `name` (in `package`, of type `t`) from `file`
/// gives: with a fresh generator and the standard one made from it, the
/// standard result where that generator can render the file, else the
/// error of an unrenderable file.
pub open spec fn generated(
    r: Result<TranspileResult, String>,
    package: Seq<char>,
    name: Seq<char>,
    t: Option<Seq<char>>,
    file: WhitehallFile,
) -> bool {
    exists|b: MarkupGen, g: MarkupGen|
        fresh_gen(b, t) && #[trigger] standard_of(g, b, file) && if standard_fine(g, file) {
            standard_result(r, package, name, g, file)
        } else {
            r matches Err(e) && e@ == unrenderable_error()
        }
}

impl CodeGenerator {
    /// A generator for component `component_name` in `package`.
    pub fn new(package: &str, component_name: &str, component_type: Option<&str>) -> (r: Self)
        ensures
            r.package@ == package@,
            r.component_name@ == component_name@,
            type_text(r.component_type) == match component_type {
                Some(t) => Some(t@),
                None => None,
            },
    {
        CodeGenerator {
            package: crate::text::lit(package),
            component_name: crate::text::lit(component_name),
            component_type: match component_type {
                Some(t) => Some(crate::text::lit(t)),
                None => None,
            },
        }
    }

    /// The Kotlin of the component of `ast`, by the Compose backend.
    pub fn generate(&self, ast: &WhitehallFile) -> (r: Result<TranspileResult, String>)
        ensures
            generated(r, self.package@, self.component_name@, type_text(self.component_type), *ast),
    {
        let backend = ComposeBackend::new(
            self.package.as_str(),
            self.component_name.as_str(),
            match &self.component_type {
                Some(t) => Some(t.as_str()),
                None => None,
            },
        );
        backend.generate(ast)
    }
}

/// The Compose backend: a component's Kotlin with no store registry and no
/// optimization plans.
pub struct ComposeBackend {
    pub package: String,
    pub component_name: String,
    pub component_type: Option<String>,
}

impl ComposeBackend {
    /// A Compose backend for component `component_name` in `package`.
    pub fn new(package: &str, component_name: &str, component_type: Option<&str>) -> (r: Self)
        ensures
            r.package@ == package@,
            r.component_name@ == component_name@,
            type_text(r.component_type) == match component_type {
                Some(t) => Some(t@),
                None => None,
            },
    {
        ComposeBackend {
            package: crate::text::lit(package),
            component_name: crate::text::lit(component_name),
            component_type: match component_type {
                Some(t) => Some(crate::text::lit(t)),
                None => None,
            },
        }
    }

    /// The Kotlin of the component of `ast`: a standard Compose component
    /// (no registry: no store classes or ViewModels are recognised), its
    /// markup rendered by a fresh generator; an error where that generator
    /// cannot render the file.
    #[verifier::spinoff_prover]
    #[verifier::rlimit(60)]
    pub fn generate(&self, ast: &WhitehallFile) -> (r: Result<TranspileResult, String>)
        ensures
            generated(r, self.package@, self.component_name@, type_text(self.component_type), *ast),
    {
        let base = MarkupGen {
            ctx: ExprContext {
                nullable_vars: Vec::new(),
                in_viewmodel_wrapper: false,
                mutable_vars: Vec::new(),
                derived_props: Vec::new(),
                function_names: Vec::new(),
            },
            component_type: match &self.component_type {
                Some(t) => Some(t.clone()),
                None => None,
            },
            var_types: Vec::new(),
            optimizations: Vec::new(),
        };
        proof {
            assert(strs(base.ctx.nullable_vars@) =~= Seq::<Seq<char>>::empty());
            assert(strs(base.ctx.mutable_vars@) =~= Seq::<Seq<char>>::empty());
            assert(strs(base.ctx.derived_props@) =~= Seq::<Seq<char>>::empty());
            assert(strs(base.ctx.function_names@) =~= Seq::<Seq<char>>::empty());
            assert(fresh_gen(base, type_text(self.component_type)));
        }
        let g = crate::compose_body::standard_gen(&base, ast);
        if !crate::compose_generate::standard_ok(&g, ast) {
            let r = Err(
                crate::text::lit(
                    "Cannot generate Kotlin: malformed prop value, unusable state name or markup nested too deep",
                ),
            );
            proof {
                assert(standard_of(g, base, *ast));
                assert(!standard_fine(g, *ast));
            }
            return r;
        }
        proof {
            assert(standard_of(g, base, *ast));
            assert(standard_fine(g, *ast));
            lemma_no_store_class(ast.classes@);
            assert(!crate::compose_generate::is_inline_component(None, self.component_name@));
        }
        let w = crate::compose_wrapper::wrapper_gen(&base, ast);
        let mut st = MarkupState { uses_experimental_material3: false, dropdown_count: 0 };
        let r = crate::compose_generate::generate(
            self.package.as_str(),
            self.component_name.as_str(),
            None,
            &Vec::new(),
            &base,
            &g,
            &w,
            &mut st,
            ast,
        );
        proof {
            assert(standard_result(r, self.package@, self.component_name@, g, *ast));
        }
        r
    }

    /// The Kotlin of the component of `ast` with the optimization plans
    /// `optimizations` and the store registry of `semantic_info`: a store
    /// class as its ViewModel or singleton, a component with inline state as
    /// its wrapper and ViewModel, else a standard component; an error where
    /// the generators cannot render the file.
    #[verifier::spinoff_prover]
    #[verifier::rlimit(60)]
    pub fn generate_with_optimizations(
        &self,
        ast: &WhitehallFile,
        optimizations: &Vec<Optimization>,
        semantic_info: &SemanticInfo,
    ) -> (r: Result<TranspileResult, String>)
        requires
            semantic_info.store_registry.wf(),
        ensures
            exists|b: MarkupGen, g: MarkupGen, w: MarkupGen|
                fresh_plans(b, type_text(self.component_type), optimizations@) && #[trigger] standard_of(
                    g,
                    b,
                    *ast,
                ) && #[trigger] wrapper_of(w, b, *ast) && if compose_fine(
                    self.component_name@,
                    Some(&semantic_info.store_registry),
                    b,
                    g,
                    w,
                    *ast,
                ) {
                    compose_outcome(
                        r,
                        self.package@,
                        self.component_name@,
                        Some(&semantic_info.store_registry),
                        Seq::empty(),
                        b,
                        g,
                        w,
                        fresh_state(),
                        *ast,
                    )
                } else {
                    r matches Err(e) && e@ == unrenderable_error()
                },
    {
        let base = MarkupGen {
            ctx: ExprContext {
                nullable_vars: Vec::new(),
                in_viewmodel_wrapper: false,
                mutable_vars: Vec::new(),
                derived_props: Vec::new(),
                function_names: Vec::new(),
            },
            component_type: match &self.component_type {
                Some(t) => Some(t.clone()),
                None => None,
            },
            var_types: Vec::new(),
            optimizations: crate::compose_wrapper::copy_plans(optimizations),
        };
        proof {
            assert(strs(base.ctx.nullable_vars@) =~= Seq::<Seq<char>>::empty());
            assert(strs(base.ctx.mutable_vars@) =~= Seq::<Seq<char>>::empty());
            assert(strs(base.ctx.derived_props@) =~= Seq::<Seq<char>>::empty());
            assert(strs(base.ctx.function_names@) =~= Seq::<Seq<char>>::empty());
            assert(fresh_plans(base, type_text(self.component_type), optimizations@));
        }
        let registry = Some(&semantic_info.store_registry);
        let g = crate::compose_body::standard_gen(&base, ast);
        let w = crate::compose_wrapper::wrapper_gen(&base, ast);
        if !crate::compose_generate::compose_fine_of(self.component_name.as_str(), registry, &base, &g, &w, ast) {
            let r = Err(
                crate::text::lit(
                    "Cannot generate Kotlin: malformed prop value, unusable state name or markup nested too deep",
                ),
            );
            proof {
                assert(standard_of(g, base, *ast));
                assert(wrapper_of(w, base, *ast));
            }
            return r;
        }
        let mut st = MarkupState { uses_experimental_material3: false, dropdown_count: 0 };
        let r = crate::compose_generate::generate(
            self.package.as_str(),
            self.component_name.as_str(),
            registry,
            &Vec::new(),
            &base,
            &g,
            &w,
            &mut st,
            ast,
        );
        proof {
            assert(standard_of(g, base, *ast));
            assert(wrapper_of(w, base, *ast));
            assert(compose_outcome(
                r,
                self.package@,
                self.component_name@,
                registry,
                Seq::empty(),
                base,
                g,
                w,
                fresh_state(),
                *ast,
            ));
        }
        r
    }
}

/// Without a registry no class is a store class.
pub proof fn lemma_no_store_class(cs: Seq<crate::ast::ClassDeclaration>)
    ensures
        crate::compose_generate::first_store_class(cs, None) is None,
    decreases cs.len(),
{
    if cs.len() > 0 {
        lemma_no_store_class(cs.drop_first());
    }
}

impl TranspileResult {
    /// The primary file's text: the one file, or the first of several (the
    /// component itself); empty when there is none.
    pub fn primary_content(&self) -> (r: &str)
        ensures
            r@ == match self {
                TranspileResult::Single(s) => s@,
                TranspileResult::Multiple(v) => if v@.len() > 0 {
                    v@[0].1@
                } else {
                    Seq::empty()
                },
            },
    {
        proof {
            reveal_strlit("");
        }
        match self {
            TranspileResult::Single(s) => s.as_str(),
            TranspileResult::Multiple(v) => if v.len() > 0 {
                v[0].1.as_str()
            } else {
                ""
            },
        }
    }
}

} // verus!
