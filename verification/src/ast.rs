//! Abstract syntax tree of a Whitehall file.

use vstd::prelude::*;

verus! {

/// A parsed `.wh` file.
#[derive(Debug, PartialEq)]
pub struct WhitehallFile {
    pub imports: Vec<Import>,
    pub props: Vec<PropDeclaration>,
    pub state: Vec<StateDeclaration>,
    pub functions: Vec<FunctionDeclaration>,
    pub lifecycle_hooks: Vec<LifecycleHook>,
    /// Store classes (`@store` and classes with `var` properties).
    pub classes: Vec<ClassDeclaration>,
    pub markup: Markup,
    /// Kotlin declarations that pass through unchanged.
    pub kotlin_blocks: Vec<KotlinBlock>,
}

/// `import path`, e.g. `$models.User` or `androidx.compose.ui.Modifier`.
#[derive(Debug, Clone, PartialEq)]
pub struct Import {
    pub path: String,
}

/// `@prop val name: Type [= default]`.
#[derive(Debug, Clone, PartialEq)]
pub struct PropDeclaration {
    pub name: String,
    pub prop_type: String,
    pub default_value: Option<String>,
}

/// `var`/`val` state of a component.
#[derive(Debug, Clone, PartialEq)]
pub struct StateDeclaration {
    pub name: String,
    /// `var` (true) or `val` (false).
    pub mutable: bool,
    pub type_annotation: Option<String>,
    pub initial_value: String,
    /// Whether the initial value is `derivedStateOf` (or was written `$derived(..)`).
    pub is_derived_state: bool,
}

/// `fun name(params): ReturnType { body }`.
#[derive(Debug, PartialEq)]
pub struct FunctionDeclaration {
    pub name: String,
    /// The parameter list as written, e.g. `postId: String`.
    pub params: String,
    pub return_type: Option<String>,
    /// The body as written (empty when the body is markup).
    pub body: String,
    pub is_suspend: bool,
    /// The markup of a helper composable whose body is markup.
    pub markup: Option<Markup>,
}

/// `$onMount { .. }` or `$onDispose { .. }`.
#[derive(Debug, Clone, PartialEq)]
pub struct LifecycleHook {
    /// `onMount` or `onDispose`.
    pub hook_type: String,
    pub body: String,
}

/// A store class or object.
#[derive(Debug, PartialEq)]
pub struct ClassDeclaration {
    /// Annotations without `@`, e.g. `store`, `HiltViewModel`.
    pub annotations: Vec<String>,
    /// `object` (true) or `class` (false).
    pub is_object: bool,
    pub name: String,
    pub constructor: Option<ConstructorDeclaration>,
    pub properties: Vec<PropertyDeclaration>,
    pub functions: Vec<FunctionDeclaration>,
}

/// A class constructor, e.g. `@Inject constructor(private val repo: Repo)`.
#[derive(Debug, Clone, PartialEq)]
pub struct ConstructorDeclaration {
    pub annotations: Vec<String>,
    pub parameters: String,
}

/// A property of a store class.
#[derive(Debug, Clone, PartialEq)]
pub struct PropertyDeclaration {
    pub name: String,
    pub mutable: bool,
    pub type_annotation: Option<String>,
    pub initial_value: Option<String>,
    /// The expression of a custom getter, `val x get() = expr`.
    pub getter: Option<String>,
    /// `private`, `protected`, `public`, or none.
    pub visibility: Option<String>,
}

/// Kotlin code that passes through unchanged.
#[derive(Debug, Clone, PartialEq)]
pub struct KotlinBlock {
    pub content: String,
    /// Character index in the (trimmed) source where the block starts.
    pub position: usize,
    pub block_type: KotlinBlockType,
}

/// What a pass-through Kotlin block declares (a hint only).
#[derive(Debug, Clone, Copy, PartialEq, Eq)]
pub enum KotlinBlockType {
    DataClass,
    SealedClass,
    EnumClass,
    TopLevelFunction,
    TypeAlias,
    ObjectDeclaration,
    Unknown,
}

/// Markup: components, text, interpolation and control flow.
#[derive(Debug, PartialEq)]
pub enum Markup {
    Component(Component),
    Text(String),
    /// `{expression}`.
    Interpolation(String),
    Sequence(Vec<Markup>),
    IfElse(IfElseBlock),
    ForLoop(ForLoopBlock),
    When(WhenBlock),
}

/// `@if (cond) { .. } else if (..) { .. } else { .. }`.
#[derive(Debug, PartialEq)]
pub struct IfElseBlock {
    pub condition: String,
    pub then_branch: Vec<Markup>,
    pub else_ifs: Vec<ElseIfBranch>,
    pub else_branch: Option<Vec<Markup>>,
}

#[derive(Debug, PartialEq)]
pub struct ElseIfBranch {
    pub condition: String,
    pub body: Vec<Markup>,
}

/// `@for ([index,] item in collection[, key = { expr }]) { .. } [empty { .. }]`.
#[derive(Debug, PartialEq)]
pub struct ForLoopBlock {
    pub index: Option<String>,
    pub item: String,
    pub collection: String,
    pub key_expr: Option<String>,
    pub body: Vec<Markup>,
    pub empty_block: Option<Vec<Markup>>,
}

/// `@when { cond -> <C/> ... else -> <C/> }`.
#[derive(Debug, PartialEq)]
pub struct WhenBlock {
    pub branches: Vec<WhenBranch>,
}

#[derive(Debug, PartialEq)]
pub struct WhenBranch {
    /// `None` for the `else` branch.
    pub condition: Option<String>,
    pub body: Markup,
}

/// `<Name prop=..>children</Name>` or `<Name ... />`.
#[derive(Debug, PartialEq)]
pub struct Component {
    pub name: String,
    pub props: Vec<ComponentProp>,
    pub children: Vec<Markup>,
    pub self_closing: bool,
}

/// The value of a component prop.
#[derive(Debug, PartialEq)]
pub enum PropValue {
    /// `{expression}` or `"string"` (kept with its quotes).
    Expression(String),
    /// `{<Component />}`.
    Markup(Box<Markup>),
}

#[derive(Debug, PartialEq)]
pub struct ComponentProp {
    pub name: String,
    pub value: PropValue,
}

impl WhitehallFile {
    /// An empty file: no declarations and empty text as markup.
    pub fn new() -> (f: Self)
        ensures
            f.is_empty_file(),
    {
        WhitehallFile {
            imports: Vec::new(),
            props: Vec::new(),
            state: Vec::new(),
            functions: Vec::new(),
            lifecycle_hooks: Vec::new(),
            classes: Vec::new(),
            markup: Markup::Text(String::new()),
            kotlin_blocks: Vec::new(),
        }
    }

    /// No declarations, and the markup is empty text.
    pub open spec fn is_empty_file(&self) -> bool {
        &&& self.imports@.len() == 0
        &&& self.props@.len() == 0
        &&& self.state@.len() == 0
        &&& self.functions@.len() == 0
        &&& self.lifecycle_hooks@.len() == 0
        &&& self.classes@.len() == 0
        &&& self.kotlin_blocks@.len() == 0
        &&& self.markup matches Markup::Text(t) && t@.len() == 0
    }
}

impl Default for WhitehallFile {
    fn default() -> (f: Self)
        ensures
            f.is_empty_file(),
    {
        Self::new()
    }
}

} // verus!
