//! The errors of compilation.
use vstd::prelude::*;
use crate::vm::semantics::VMError;

verus! {

/// Why a program could not be compiled.
#[derive(Debug, Clone, PartialEq, Eq)]
pub enum CompileError {
    /// The named variable is not declared where it is used.
    UnknownIdentifier(String),
    /// An instruction refers to the named label, which marks no position.
    UnresolvedLabel(String),
    /// An instruction asks for the number of locals of the named function,
    /// which was never emitted.
    MissingLocalAlloc(String),
    /// A struct declaration names a struct that the metadata does not hold.
    StructNotFound(String),
    /// An operator stands where it cannot: a unary one between two
    /// operands, or a binary one before a single operand.
    UnsupportedOperator,
    /// A count or an offset does not fit the machine's integers.
    LimitExceeded,
    /// A variable is declared where no scope level is open: the level it
    /// would belong to was closed while another function was being emitted.
    NoScope,
    /// The traversal that collects struct declarations came back empty
    /// handed: the program holds no statement to look into.
    NoStructsFound,
}

/// A `CompileError` with names as sequences of characters.
pub enum CompileErrorView {
    UnknownIdentifier(Seq<char>),
    UnresolvedLabel(Seq<char>),
    MissingLocalAlloc(Seq<char>),
    StructNotFound(Seq<char>),
    UnsupportedOperator,
    LimitExceeded,
    NoScope,
    NoStructsFound,
}

impl View for CompileError {
    type V = CompileErrorView;

    open spec fn view(&self) -> CompileErrorView {
        match self {
            CompileError::UnknownIdentifier(id) => CompileErrorView::UnknownIdentifier(id@),
            CompileError::UnresolvedLabel(l) => CompileErrorView::UnresolvedLabel(l@),
            CompileError::MissingLocalAlloc(f) => CompileErrorView::MissingLocalAlloc(f@),
            CompileError::StructNotFound(id) => CompileErrorView::StructNotFound(id@),
            CompileError::UnsupportedOperator => CompileErrorView::UnsupportedOperator,
            CompileError::LimitExceeded => CompileErrorView::LimitExceeded,
            CompileError::NoScope => CompileErrorView::NoScope,
            CompileError::NoStructsFound => CompileErrorView::NoStructsFound,
        }
    }
}

/// Why a source text could not be run.
#[derive(Debug, Clone, PartialEq, Eq)]
pub enum EstaError {
    /// The text is no program.
    Parse,
    /// The program could not be compiled.
    Compile(CompileError),
    /// The machine met an error while it ran the program.
    Run(VMError),
}

/// An `EstaError` with names as sequences of characters.
pub enum EstaErrorView {
    Parse,
    Compile(CompileErrorView),
    Run(VMError),
}

impl View for EstaError {
    type V = EstaErrorView;

    open spec fn view(&self) -> EstaErrorView {
        match self {
            EstaError::Parse => EstaErrorView::Parse,
            EstaError::Compile(e) => EstaErrorView::Compile(e@),
            EstaError::Run(e) => EstaErrorView::Run(*e),
        }
    }
}

impl CompileErrorView {
    /// The text that tells a user of the error.
    pub open spec fn message(self) -> Seq<char> {
        match self {
            CompileErrorView::UnknownIdentifier(id) => "Couldn't find id "@ + id,
            CompileErrorView::UnresolvedLabel(label) => "Couldn't find label "@ + label,
            CompileErrorView::MissingLocalAlloc(name) => "Couldn't find local "@ + name,
            CompileErrorView::StructNotFound(id) => "Couldn't find struct "@ + id,
            CompileErrorView::UnsupportedOperator => "Operator out of place"@,
            CompileErrorView::LimitExceeded => "Program too large"@,
            CompileErrorView::NoScope => "Declaration outside any scope"@,
            CompileErrorView::NoStructsFound => "No structs found"@,
        }
    }
}

impl CompileError {
    /// The text that tells a user of the error; it names the identifier,
    /// label, function or struct that the error is about.
    pub fn message(&self) -> (r: String)
        ensures
            r@ == self@.message(),
    {
        match self {
            CompileError::UnknownIdentifier(id) => "Couldn't find id ".to_owned().concat(
                id.as_str(),
            ),
            CompileError::UnresolvedLabel(label) => "Couldn't find label ".to_owned().concat(
                label.as_str(),
            ),
            CompileError::MissingLocalAlloc(name) => "Couldn't find local ".to_owned().concat(
                name.as_str(),
            ),
            CompileError::StructNotFound(id) => "Couldn't find struct ".to_owned().concat(
                id.as_str(),
            ),
            CompileError::UnsupportedOperator => "Operator out of place".to_owned(),
            CompileError::LimitExceeded => "Program too large".to_owned(),
            CompileError::NoScope => "Declaration outside any scope".to_owned(),
            CompileError::NoStructsFound => "No structs found".to_owned(),
        }
    }
}

impl EstaErrorView {
    /// The text that tells a user of the error.
    pub open spec fn message(self) -> Seq<char> {
        match self {
            EstaErrorView::Parse => "Parsing Error"@,
            EstaErrorView::Compile(e) => e.message(),
            EstaErrorView::Run(e) => e.spec_message(),
        }
    }
}

impl EstaError {
    /// The text that tells a user of the error.
    pub fn message(&self) -> (r: String)
        ensures
            r@ == self@.message(),
    {
        match self {
            EstaError::Parse => "Parsing Error".to_owned(),
            EstaError::Compile(e) => e.message(),
            EstaError::Run(e) => e.message().to_owned(),
        }
    }
}

} // verus!
