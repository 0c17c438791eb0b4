use vstd::prelude::*;

verus! {

/// A byte range in a source text.
#[derive(Clone, Copy, Debug, PartialEq, Eq, Structural)]
pub struct Span {
    pub start: usize,
    pub end: usize,
}

#[derive(Debug, Clone)]
pub struct File {
    pub declarations: Vec<Decl>,
}

#[derive(Debug, Clone)]
pub enum Decl {
    Class(ClassDecl),
    Fun(FunDecl),
    Property(PropertyDecl),
}

/// A declared name and the bytes of the source it was read from.
#[derive(Debug, Clone)]
pub struct Ident {
    pub name: String,
    pub span: Span,
}

#[derive(Debug, Clone)]
pub struct ClassDecl {
    pub name: Ident,
}

#[derive(Debug, Clone)]
pub struct FunDecl {
    pub name: Ident,
}

#[derive(Debug, Clone)]
pub struct PropertyDecl {
    pub name: Ident,
    pub mutability: Mutability,
}

#[derive(Debug, Clone, Copy, PartialEq, Eq, Structural)]
pub enum Mutability {
    Val,
    Var,
}

/// What a declaration declares, without its name.
#[derive(Debug, Clone, Copy, PartialEq, Eq, Structural)]
pub enum DeclKind {
    Class,
    Fun,
    Property(Mutability),
}

/// A declaration seen as its kind, its name and the name's byte range.
pub struct DeclView {
    pub kind: DeclKind,
    pub name: Seq<char>,
    pub span: Span,
}

impl Decl {
    pub open spec fn name_ident(self) -> Ident {
        match self {
            Decl::Class(c) => c.name,
            Decl::Fun(f) => f.name,
            Decl::Property(p) => p.name,
        }
    }

    pub open spec fn kind(self) -> DeclKind {
        match self {
            Decl::Class(_) => DeclKind::Class,
            Decl::Fun(_) => DeclKind::Fun,
            Decl::Property(p) => DeclKind::Property(p.mutability),
        }
    }
}

impl View for Decl {
    type V = DeclView;

    open spec fn view(&self) -> DeclView {
        DeclView { kind: self.kind(), name: self.name_ident().name@, span: self.name_ident().span }
    }
}

} // verus!
