//! The symbol-description types shared by the analyzers and the output
//! layer.
use vstd::prelude::*;

verus! {

/// The kind of a symbol: twelve kinds any language can have, two that only
/// Rust has (`Impl`, `Macro`), and a catch-all.
#[derive(Debug, Clone, Copy, PartialEq, Eq)]
pub enum SymbolKind {
    Function,
    Method,
    Constructor,
    Class,
    Struct,
    Enum,
    Interface,
    TypeAlias,
    Property,
    Field,
    Variable,
    Module,
    Impl,
    Macro,
    Other,
}

/// How visible a symbol is.
#[derive(Debug, Clone, Copy, PartialEq, Eq)]
pub enum Visibility {
    Public,
    Crate,
    Module,
    Private,
}

/// One symbol found in a file.
#[derive(Debug, Clone)]
pub struct SymbolEntry {
    pub name: String,
    pub kind: SymbolKind,
    pub line: usize,
    pub signature: Option<String>,
    pub owner: Option<String>,
    pub trait_impl: Option<String>,
    pub visibility: Option<Visibility>,
    pub kind_detail: Option<String>,
}

/// The kind of one import binding.
#[derive(Debug, Clone, Copy, PartialEq, Eq)]
pub enum BindingKind {
    Named,
    Default,
    Namespace,
    Glob,
    NamespaceWide,
}

/// Where a Rust module path is anchored.
#[derive(Debug, Clone)]
#[non_exhaustive]
pub enum RustPathAnchor {
    Crate,
    Super,
    Selff,
    Extern(String),
}

/// What a dependency statement refers to.
#[derive(Debug, Clone)]
#[non_exhaustive]
pub enum DependencyTarget {
    File { specifier: String, resolved: Option<camino::Utf8PathBuf>, is_relative: bool },
    RustPath {
        segments: Vec<String>,
        anchor: RustPathAnchor,
        resolved: Option<camino::Utf8PathBuf>,
    },
    Namespace { segments: Vec<String>, is_static: bool, alias: Option<String> },
}

/// One binding of an import: the imported name, its local name and its kind.
#[derive(Debug, Clone)]
pub struct DependencyBinding {
    pub imported: String,
    pub local: String,
    pub kind: BindingKind,
}

} // verus!
