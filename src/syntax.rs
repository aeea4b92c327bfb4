use vstd::prelude::*;

verus! {

/// A source range in 1-based byte positions, `lo` inclusive and `hi` exclusive.
#[derive(Clone, Copy, PartialEq, Eq, Structural, Debug)]
pub struct Span {
    pub lo: u32,
    pub hi: u32,
}

impl Span {
    /// The range is non-empty-or-empty and starts at a real (1-based) position
    /// no further than `limit + 1`.
    pub open spec fn within(self, limit: nat) -> bool {
        1 <= self.lo <= self.hi <= limit + 1
    }
}

/// The hygienic identity of a binding: its name and the scope tag that the
/// resolver gave it.
#[derive(Clone, Debug)]
pub struct Id {
    pub sym: String,
    pub ctxt: u32,
}

impl View for Id {
    type V = (Seq<char>, u32);

    open spec fn view(&self) -> (Seq<char>, u32) {
        (self.sym@, self.ctxt)
    }
}

impl Id {
    pub fn same(&self, other: &Id) -> (r: bool)
        ensures
            r == (self@ == other@),
    {
        self.ctxt == other.ctxt && self.sym == other.sym
    }

    pub fn copy(&self) -> (r: Id)
        ensures
            r@ == self@,
    {
        Id { sym: self.sym.clone(), ctxt: self.ctxt }
    }
}

/// An identifier occurrence: name, scope tag and where it stands.
#[derive(Clone, Debug)]
pub struct Ident {
    pub sym: String,
    pub ctxt: u32,
    pub span: Span,
}

impl Ident {
    pub open spec fn id_view(&self) -> (Seq<char>, u32) {
        (self.sym@, self.ctxt)
    }

    pub fn to_id(&self) -> (r: Id)
        ensures
            r@ == self.id_view(),
    {
        Id { sym: self.sym.clone(), ctxt: self.ctxt }
    }
}

/// A binding pattern.
#[derive(Debug)]
pub enum Pat {
    Ident(Ident),
    /// Elements in order; `None` is a hole.
    Array(Vec<Option<Pat>>),
    /// `...arg`
    Rest(Box<Pat>),
    /// `left = <default>`; the default expression binds nothing.
    Assign(Box<Pat>),
    Object(Vec<ObjectPatProp>),
    /// Any other shape (an expression target, an invalid pattern).
    Other,
}

#[derive(Debug)]
pub enum ObjectPatProp {
    /// `{ key }` or `{ key = <default> }`
    Assign(Ident),
    /// `{ key: value }`
    KeyValue(Pat),
    /// `{ ...arg }`
    Rest(Pat),
}

/// An expression, reduced to what locating calls needs.
#[derive(Debug)]
pub enum Expr {
    Ident(Ident),
    Call { callee: Box<Expr>, args: Vec<Expr>, span: Span },
    /// `obj.prop` with a non-computed property.
    Member { obj: Box<Expr>, prop: Ident, span: Span },
    /// Any other expression, with its sub-expressions in source order.
    Other(Vec<Expr>),
}

/// One entry of an import assertion object.
#[derive(Clone, Debug)]
pub enum AssertProp {
    /// `key: value`; `key` is `Some` for an identifier key and `value` is
    /// `Some` for a string literal value.
    KeyValue { key: Option<String>, value: Option<String> },
    /// A spread, a method, a shorthand or a computed key.
    Other,
}

#[derive(Clone, Debug)]
pub enum ImportSpecifier {
    /// `{ imported as local }`, `imported` absent for `{ local }`
    Named { local: Ident, imported: Option<String> },
    Default { local: Ident },
    Namespace { local: Ident },
}

#[derive(Clone, Debug)]
pub struct ImportDecl {
    pub specifiers: Vec<ImportSpecifier>,
    pub src: String,
    pub asserts: Option<Vec<AssertProp>>,
    pub span: Span,
}

/// A name in an export list: an identifier or a string literal.
#[derive(Clone, Debug)]
pub enum ModuleExportName {
    Ident(Ident),
    Str(String),
}

#[derive(Clone, Debug)]
pub enum ExportSpecifier {
    Named { orig: ModuleExportName, exported: Option<ModuleExportName> },
    Default { exported: Ident },
    Namespace { name: ModuleExportName },
}

#[derive(Clone, Debug)]
pub struct NamedExport {
    pub specifiers: Vec<ExportSpecifier>,
    pub src: Option<String>,
}

#[derive(Debug)]
pub struct VarDeclarator {
    /// The binding pattern.
    pub name: Pat,
    /// The expressions of the declarator that may hold calls: its
    /// initializer, with any default values of its pattern before it.
    pub init: Option<Expr>,
}

#[derive(Debug)]
pub enum Decl {
    Fn { ident: Ident, body: Vec<Expr> },
    Class { ident: Ident, body: Vec<Expr> },
    Enum { ident: Ident, body: Vec<Expr> },
    Var(Vec<VarDeclarator>),
    /// Type-only declarations and the like.
    Other(Vec<Expr>),
}

/// The declaration of `export default class|function`.
#[derive(Debug)]
pub enum DefaultDecl {
    Class { ident: Option<Ident>, body: Vec<Expr> },
    Fn { ident: Option<Ident>, body: Vec<Expr> },
}

#[derive(Debug)]
pub enum ModuleItem {
    /// A declaration statement at the top level.
    Decl(Decl),
    /// Any other statement, with its expressions in source order.
    Stmt(Vec<Expr>),
    Import(ImportDecl),
    NamedExport(NamedExport),
    ExportDecl(Decl),
    ExportDefaultDecl(DefaultDecl),
    ExportDefaultExpr(Expr),
}

#[derive(Debug)]
pub struct Module {
    pub body: Vec<ModuleItem>,
}

} // verus!
