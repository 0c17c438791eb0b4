//! The declaration grammar: a deterministic automaton over the tokens that
//! finds the top-level declarations, keeps delimiters balanced in their
//! bodies, and reports what does not fit.
//!
//! ```text
//! file     := item*
//! item     := "package" qualified ";"?
//!           | "import" qualified ("." "*")? ";"?
//!           | "class" IDENT body
//!           | "fun" ("<" ... ">")? IDENT ("." IDENT)* "(" sig
//!           | ("val" | "var") IDENT sig
//! body     := (group | token)*   up to a declaration keyword outside any group
//! sig      := body, except that a ":" or "=" outside any group starts a tail
//! tail     := (group | token)*   up to a closing delimiter outside any group
//! group    := "(" (group | token)* ")" | "{" ... "}" | "[" ... "]"
//! ```
//!
//! The name of a function is the last IDENT before its `(`.  A type
//! annotation or initialiser of a property or function (the tail) takes
//! every token up to a closing delimiter that closes no group, declaration
//! keywords included.  A token that cannot start or continue an item is
//! reported, and the automaton goes on as in a body; a closing delimiter
//! that closes no group is reported and skipped; input that ends inside a
//! group is reported once.  The whole parse fails when a `class`, `fun`,
//! `val` or `var` misses its name (or a function its `(`), or when a
//! delimiter `(`, `)`, `{`, `}`, `[` or `]` stands among a function's type
//! parameters: that token, or the end of the input, is reported and nothing
//! after it is read.
use vstd::prelude::*;
use crate::parser::ast::{DeclKind, Mutability};
use crate::parser::lexer::{lexeme_fits, Lexeme, LexemeSpec, Token, TokenKind};

verus! {

/// The kind of group a closing delimiter must close.
#[derive(Clone, Copy, Debug, PartialEq, Eq, Structural)]
pub enum Closer {
    Paren,
    Brace,
    Bracket,
}

/// Where the automaton stands.
#[derive(Clone, Copy, Debug, PartialEq, Eq, Structural)]
pub enum Mode {
    /// Expecting the start of an item.
    Item,
    /// In the body of an item (the group stack tells the nesting).
    Rest,
    /// After `package`/`import` or a dot of their name: expecting a name
    /// part (or, after a dot of an import, `*`).
    QualName { import: bool, allow_star: bool },
    /// After a name part of a package or import name.
    QualAfterName { import: bool },
    /// After the `*` of a star import.
    QualAfterStar,
    /// After `class`: expecting the name.
    ClassName,
    /// After `fun`: expecting type parameters or the name.
    FunStart,
    /// Inside the type parameters of a function, this many `<` deep.
    FunTypeParams { depth: usize },
    /// After a function's type parameters: expecting the name.
    FunExpectName,
    /// After a name part of a function (the lexeme index of the last one).
    FunAfterName { name: usize },
    /// After a dot that follows a name part of a function.
    FunAfterDot { name: usize },
    /// After `val` or `var`: expecting the name.
    PropName { mutability: Mutability },
    /// After the name of a property, or the `(` of a function's parameters.
    Signature,
    /// In the type annotation or initialiser of a property or function.
    Tail,
    /// The parse failed; nothing more is read.
    Failed,
}

/// A declaration found: what it declares and the lexeme index of its name.
#[derive(Clone, Copy, Debug, PartialEq, Eq, Structural)]
pub struct DeclSpec {
    pub kind: DeclKind,
    pub name: usize,
}

/// A problem found: an unexpected token (its lexeme index), or the end of
/// the input where more was needed.
#[derive(Clone, Copy, Debug, PartialEq, Eq, Structural)]
pub enum ParseIssue {
    Unexpected(usize),
    EndOfInput,
}

pub struct ParseState {
    pub mode: Mode,
    pub stack: Seq<Closer>,
    pub decls: Seq<DeclSpec>,
    pub issues: Seq<ParseIssue>,
}

pub open spec fn is_sync(k: TokenKind) -> bool {
    k == TokenKind::Package || k == TokenKind::Import || k == TokenKind::Class || k
        == TokenKind::Fun || k == TokenKind::Val || k == TokenKind::Var
}

pub open spec fn opener(k: TokenKind) -> Option<Closer> {
    if k == TokenKind::LParen {
        Some(Closer::Paren)
    } else if k == TokenKind::LBrace {
        Some(Closer::Brace)
    } else if k == TokenKind::LBracket {
        Some(Closer::Bracket)
    } else {
        None
    }
}

pub open spec fn closer(k: TokenKind) -> Option<Closer> {
    if k == TokenKind::RParen {
        Some(Closer::Paren)
    } else if k == TokenKind::RBrace {
        Some(Closer::Brace)
    } else if k == TokenKind::RBracket {
        Some(Closer::Bracket)
    } else {
        None
    }
}

pub open spec fn with_issue(st: ParseState, issue: ParseIssue) -> ParseState {
    ParseState { issues: st.issues.push(issue), ..st }
}

pub open spec fn with_decl(st: ParseState, d: DeclSpec) -> ParseState {
    ParseState { decls: st.decls.push(d), ..st }
}

pub open spec fn with_mode(st: ParseState, mode: Mode) -> ParseState {
    ParseState { mode, ..st }
}

/// A token in a body: an opening delimiter opens a group, the closing
/// delimiter of the innermost group closes it, any other closing delimiter
/// is reported and skipped, anything else is skipped.
pub open spec fn rest_step(st: ParseState, idx: usize, k: TokenKind) -> ParseState {
    group_step(with_mode(st, Mode::Rest), idx, k)
}

/// A token as in a body (see [`rest_step`]), keeping the mode.
pub open spec fn group_step(st: ParseState, idx: usize, k: TokenKind) -> ParseState {
    match opener(k) {
        Some(c) => ParseState { stack: st.stack.push(c), ..st },
        None => match closer(k) {
            Some(c) => if st.stack.len() > 0 && st.stack.last() == c {
                ParseState { stack: st.stack.drop_last(), ..st }
            } else {
                with_issue(st, ParseIssue::Unexpected(idx))
            },
            None => st,
        },
    }
}

/// A token where an item should start: a declaration keyword starts one;
/// anything else is reported and handled as in a body.
pub open spec fn item_step(st: ParseState, idx: usize, k: TokenKind) -> ParseState {
    if k == TokenKind::Package {
        with_mode(st, Mode::QualName { import: false, allow_star: false })
    } else if k == TokenKind::Import {
        with_mode(st, Mode::QualName { import: true, allow_star: false })
    } else if k == TokenKind::Class {
        with_mode(st, Mode::ClassName)
    } else if k == TokenKind::Fun {
        with_mode(st, Mode::FunStart)
    } else if k == TokenKind::Val {
        with_mode(st, Mode::PropName { mutability: Mutability::Val })
    } else if k == TokenKind::Var {
        with_mode(st, Mode::PropName { mutability: Mutability::Var })
    } else {
        rest_step(with_issue(st, ParseIssue::Unexpected(idx)), idx, k)
    }
}

/// The parse fails at a token.
pub open spec fn fail_at(st: ParseState, idx: usize) -> ParseState {
    with_mode(with_issue(st, ParseIssue::Unexpected(idx)), Mode::Failed)
}

/// Going on with a token as at the top of a body.
pub open spec fn resume(st: ParseState, idx: usize, k: TokenKind) -> ParseState {
    if is_sync(k) {
        item_step(st, idx, k)
    } else {
        rest_step(st, idx, k)
    }
}

/// One step of the automaton over the token at lexeme index `idx`
/// (`star` says the token is the operator `*`).
pub open spec fn step(st: ParseState, idx: usize, k: TokenKind, star: bool) -> ParseState {
    match st.mode {
        Mode::Item => item_step(st, idx, k),
        Mode::Rest => if st.stack.len() == 0 && is_sync(k) {
            item_step(st, idx, k)
        } else {
            rest_step(st, idx, k)
        },
        Mode::QualName { import, allow_star } => if k == TokenKind::Ident {
            with_mode(st, Mode::QualAfterName { import })
        } else if import && allow_star && star {
            with_mode(st, Mode::QualAfterStar)
        } else {
            resume(with_issue(st, ParseIssue::Unexpected(idx)), idx, k)
        },
        Mode::QualAfterName { import } => if k == TokenKind::Dot {
            with_mode(st, Mode::QualName { import, allow_star: import })
        } else if k == TokenKind::Semi {
            with_mode(st, Mode::Item)
        } else {
            item_step(with_mode(st, Mode::Item), idx, k)
        },
        Mode::QualAfterStar => if k == TokenKind::Semi {
            with_mode(st, Mode::Item)
        } else {
            item_step(with_mode(st, Mode::Item), idx, k)
        },
        Mode::ClassName => if k == TokenKind::Ident {
            with_mode(with_decl(st, DeclSpec { kind: DeclKind::Class, name: idx }), Mode::Rest)
        } else {
            fail_at(st, idx)
        },
        Mode::FunStart => if k == TokenKind::LAngle {
            with_mode(st, Mode::FunTypeParams { depth: 1 })
        } else if k == TokenKind::Ident {
            with_mode(st, Mode::FunAfterName { name: idx })
        } else {
            fail_at(st, idx)
        },
        Mode::FunTypeParams { depth } => if k == TokenKind::LAngle {
            with_mode(st, Mode::FunTypeParams { depth: (depth + 1) as usize })
        } else if k == TokenKind::RAngle {
            if depth <= 1 {
                with_mode(st, Mode::FunExpectName)
            } else {
                with_mode(st, Mode::FunTypeParams { depth: (depth - 1) as usize })
            }
        } else if opener(k) is Some || closer(k) is Some {
            fail_at(st, idx)
        } else {
            st
        },
        Mode::FunExpectName => if k == TokenKind::Ident {
            with_mode(st, Mode::FunAfterName { name: idx })
        } else {
            fail_at(st, idx)
        },
        Mode::FunAfterName { name } => if k == TokenKind::Dot {
            with_mode(st, Mode::FunAfterDot { name })
        } else if k == TokenKind::LParen {
            group_step(
                with_mode(with_decl(st, DeclSpec { kind: DeclKind::Fun, name }), Mode::Signature),
                idx,
                k,
            )
        } else {
            fail_at(st, idx)
        },
        Mode::FunAfterDot { name } => if k == TokenKind::Ident {
            with_mode(st, Mode::FunAfterName { name: idx })
        } else {
            fail_at(st, idx)
        },
        Mode::PropName { mutability } => if k == TokenKind::Ident {
            with_mode(
                with_decl(st, DeclSpec { kind: DeclKind::Property(mutability), name: idx }),
                Mode::Signature,
            )
        } else {
            fail_at(st, idx)
        },
        Mode::Signature => if st.stack.len() == 0 && is_sync(k) {
            item_step(st, idx, k)
        } else if st.stack.len() == 0 && (k == TokenKind::Colon || k == TokenKind::Eq) {
            with_mode(st, Mode::Tail)
        } else {
            group_step(st, idx, k)
        },
        Mode::Tail => if st.stack.len() == 0 && closer(k) is Some {
            rest_step(st, idx, k)
        } else {
            group_step(st, idx, k)
        },
        Mode::Failed => st,
    }
}

/// At the end of the input: a group still open, or a package or import
/// name still expected, is reported; a `class`, `fun`, `val` or `var`
/// still waiting for its name or parameters makes the parse fail.
pub open spec fn finish(st: ParseState) -> ParseState {
    match st.mode {
        Mode::Item | Mode::QualAfterName { .. } | Mode::QualAfterStar | Mode::Failed => st,
        Mode::Rest | Mode::Signature | Mode::Tail => if st.stack.len() > 0 {
            with_issue(st, ParseIssue::EndOfInput)
        } else {
            st
        },
        Mode::QualName { .. } => with_issue(st, ParseIssue::EndOfInput),
        _ => with_mode(with_issue(st, ParseIssue::EndOfInput), Mode::Failed),
    }
}

pub open spec fn initial_state() -> ParseState {
    ParseState { mode: Mode::Item, stack: Seq::empty(), decls: Seq::empty(), issues: Seq::empty() }
}

/// The lexeme is the operator `*`.
pub open spec fn is_star(s: Seq<char>, l: LexemeSpec) -> bool {
    l.kind == TokenKind::Op && s.subrange(l.start, l.end) == seq!['*']
}

/// The state after the first `n` lexemes.
pub open spec fn run(s: Seq<char>, ls: Seq<LexemeSpec>, n: int) -> ParseState
    decreases n,
{
    if n <= 0 {
        initial_state()
    } else {
        step(run(s, ls, n - 1), (n - 1) as usize, ls[n - 1].kind, is_star(s, ls[n - 1]))
    }
}

/// Every declaration found so far names an identifier before lexeme `n`,
/// and every unexpected token reported so far comes before lexeme `n`.
pub open spec fn indices_ok(ls: Seq<LexemeSpec>, st: ParseState, n: int) -> bool {
    &&& forall|i: int|
        0 <= i < st.decls.len() ==> (#[trigger] st.decls[i]).name < n && ls[st.decls[i].name as int].kind
            == TokenKind::Ident
    &&& forall|i: int|
        0 <= i < st.issues.len() ==> (#[trigger] st.issues[i] matches ParseIssue::Unexpected(j) ==> j < n)
    &&& (st.mode matches Mode::FunAfterName { name } ==> name < n && ls[name as int].kind
        == TokenKind::Ident)
    &&& (st.mode matches Mode::FunAfterDot { name } ==> name < n && ls[name as int].kind
        == TokenKind::Ident)
}

pub proof fn lemma_run_indices(s: Seq<char>, ls: Seq<LexemeSpec>, n: int)
    requires
        0 <= n <= ls.len(),
        ls.len() <= usize::MAX,
    ensures
        indices_ok(ls, run(s, ls, n), n),
        indices_ok(ls, finish(run(s, ls, n)), n),
    decreases n,
{
    if n > 0 {
        lemma_run_indices(s, ls, n - 1);
        let prev = run(s, ls, n - 1);
        let cur = run(s, ls, n);
        assert forall|i: int| 0 <= i < cur.decls.len() implies (#[trigger] cur.decls[i]).name < n
            && ls[cur.decls[i].name as int].kind == TokenKind::Ident by {
            if i < prev.decls.len() {
                assert(cur.decls[i] == prev.decls[i]);
            }
        }
        assert forall|i: int| 0 <= i < cur.issues.len() implies (#[trigger] cur.issues[i] matches ParseIssue::Unexpected(j) ==> j < n) by {
            if i < prev.issues.len() {
                assert(cur.issues[i] == prev.issues[i]);
            }
        }
    }
    let st = run(s, ls, n);
    let fin = finish(st);
    assert forall|i: int| 0 <= i < fin.decls.len() implies (#[trigger] fin.decls[i]).name < n
        && ls[fin.decls[i].name as int].kind == TokenKind::Ident by {
        if i < st.decls.len() {
            assert(fin.decls[i] == st.decls[i]);
        }
    }
    assert forall|i: int| 0 <= i < fin.issues.len() implies (#[trigger] fin.issues[i] matches ParseIssue::Unexpected(j) ==> j < n) by {
        if i < st.issues.len() {
            assert(fin.issues[i] == st.issues[i]);
        }
    }
}

/// The keyword that introduces a property of this mutability.
pub open spec fn property_keyword(m: Mutability) -> TokenKind {
    match m {
        Mutability::Val => TokenKind::Val,
        Mutability::Var => TokenKind::Var,
    }
}

pub open spec fn keywords_ok(ls: Seq<LexemeSpec>, st: ParseState, n: int) -> bool {
    &&& forall|i: int|
        0 <= i < st.decls.len() ==> ((#[trigger] st.decls[i]).kind matches DeclKind::Property(m)
            ==> 1 <= st.decls[i].name && ls[st.decls[i].name - 1].kind == property_keyword(m))
    &&& (st.mode matches Mode::PropName { mutability } ==> 1 <= n && ls[n - 1].kind
        == property_keyword(mutability))
}

proof fn lemma_run_keywords(s: Seq<char>, ls: Seq<LexemeSpec>, n: int)
    requires
        0 <= n <= ls.len(),
        ls.len() <= usize::MAX,
    ensures
        keywords_ok(ls, run(s, ls, n), n),
        keywords_ok(ls, finish(run(s, ls, n)), n),
    decreases n,
{
    lemma_run_indices(s, ls, n);
    if n > 0 {
        lemma_run_keywords(s, ls, n - 1);
        let prev = run(s, ls, n - 1);
        let cur = run(s, ls, n);
        assert forall|i: int| 0 <= i < cur.decls.len() implies ((#[trigger] cur.decls[i]).kind matches DeclKind::Property(m)
            ==> 1 <= cur.decls[i].name && ls[cur.decls[i].name - 1].kind == property_keyword(m)) by {
            if i < prev.decls.len() {
                assert(cur.decls[i] == prev.decls[i]);
            }
        }
    }
    let st = run(s, ls, n);
    let fin = finish(st);
    assert forall|i: int| 0 <= i < fin.decls.len() implies ((#[trigger] fin.decls[i]).kind matches DeclKind::Property(m)
        ==> 1 <= fin.decls[i].name && ls[fin.decls[i].name - 1].kind == property_keyword(m)) by {
        assert(fin.decls[i] == st.decls[i]);
    }
}

/// A property is introduced by its keyword: every property declaration
/// that the grammar finds comes right after a `val` or `var` token, and
/// its mutability is `Var` exactly when that token is `var`.
pub proof fn law_property_mutability_follows_keyword(s: Seq<char>, ls: Seq<LexemeSpec>)
    requires
        ls.len() <= usize::MAX,
    ensures
        forall|i: int|
            0 <= i < parse_spec(s, ls).0.len() ==> ((#[trigger] parse_spec(s, ls).0[i]).kind matches DeclKind::Property(m)
                ==> {
                &&& 1 <= parse_spec(s, ls).0[i].name
                &&& ls[parse_spec(s, ls).0[i].name - 1].kind == TokenKind::Val || ls[parse_spec(s, ls).0[i].name
                    - 1].kind == TokenKind::Var
                &&& (m == Mutability::Var) == (ls[parse_spec(s, ls).0[i].name - 1].kind == TokenKind::Var)
            }),
{
    lemma_run_keywords(s, ls, ls.len() as int);
}

/// The nesting that the delimiters of a token list leave open: opening
/// delimiters counted up, closing ones down, over the first `n` tokens.
pub open spec fn open_groups(ls: Seq<LexemeSpec>, n: int) -> int
    decreases n,
{
    if n <= 0 {
        0
    } else {
        open_groups(ls, n - 1) + if opener(ls[n - 1].kind) is Some {
            1int
        } else if closer(ls[n - 1].kind) is Some {
            -1int
        } else {
            0int
        }
    }
}

pub open spec fn is_body_mode(m: Mode) -> bool {
    m == Mode::Rest || m == Mode::Signature || m == Mode::Tail
}

pub open spec fn nesting_ok(ls: Seq<LexemeSpec>, st: ParseState, n: int) -> bool {
    st.issues.len() == 0 ==> {
        &&& st.mode != Mode::Failed
        &&& st.stack.len() == open_groups(ls, n)
        &&& !is_body_mode(st.mode) ==> st.stack.len() == 0
    }
}

proof fn lemma_run_nesting(s: Seq<char>, ls: Seq<LexemeSpec>, n: int)
    requires
        0 <= n <= ls.len(),
    ensures
        nesting_ok(ls, run(s, ls, n), n),
    decreases n,
{
    if n > 0 {
        lemma_run_nesting(s, ls, n - 1);
        let prev = run(s, ls, n - 1);
        let cur = run(s, ls, n);
        if prev.issues.len() > 0 {
            assert(cur.issues.len() >= prev.issues.len());
        }
    }
}

/// Delimiters that do not balance are always reported: when a token list
/// opens more groups than it closes (the input ends inside a group,
/// whatever is being read there) or closes more than it opens, the grammar
/// reports at least one problem.
pub proof fn law_unbalanced_delimiters_reported(s: Seq<char>, ls: Seq<LexemeSpec>)
    requires
        open_groups(ls, ls.len() as int) != 0,
    ensures
        parse_spec(s, ls).1.len() > 0,
{
    lemma_run_nesting(s, ls, ls.len() as int);
}

/// The declarations and problems that the grammar finds in a token list,
/// and whether the parse failed.
pub open spec fn parse_spec(s: Seq<char>, ls: Seq<LexemeSpec>) -> (Seq<DeclSpec>, Seq<ParseIssue>, bool) {
    let st = finish(run(s, ls, ls.len() as int));
    (st.decls, st.issues, st.mode == Mode::Failed)
}

} // verus!

verus! {

/// The automaton's state while it runs.
pub struct GrammarRun {
    pub mode: Mode,
    pub stack: Vec<Closer>,
    pub decls: Vec<DeclSpec>,
    pub issues: Vec<ParseIssue>,
}

impl View for GrammarRun {
    type V = ParseState;

    open spec fn view(&self) -> ParseState {
        ParseState { mode: self.mode, stack: self.stack@, decls: self.decls@, issues: self.issues@ }
    }
}

fn opener_exec(k: TokenKind) -> (r: Option<Closer>)
    ensures
        r == opener(k),
{
    match k {
        TokenKind::LParen => Some(Closer::Paren),
        TokenKind::LBrace => Some(Closer::Brace),
        TokenKind::LBracket => Some(Closer::Bracket),
        _ => None,
    }
}

fn closer_exec(k: TokenKind) -> (r: Option<Closer>)
    ensures
        r == closer(k),
{
    match k {
        TokenKind::RParen => Some(Closer::Paren),
        TokenKind::RBrace => Some(Closer::Brace),
        TokenKind::RBracket => Some(Closer::Bracket),
        _ => None,
    }
}

fn is_sync_exec(k: TokenKind) -> (b: bool)
    ensures
        b == is_sync(k),
{
    match k {
        TokenKind::Package | TokenKind::Import | TokenKind::Class | TokenKind::Fun
        | TokenKind::Val | TokenKind::Var => true,
        _ => false,
    }
}

impl GrammarRun {
    fn rest_step(&mut self, idx: usize, k: TokenKind)
        ensures
            final(self)@ == rest_step(old(self)@, idx, k),
    {
        self.mode = Mode::Rest;
        self.group_step(idx, k);
    }

    fn group_step(&mut self, idx: usize, k: TokenKind)
        ensures
            final(self)@ == group_step(old(self)@, idx, k),
    {
        match opener_exec(k) {
            Some(c) => {
                self.stack.push(c);
            },
            None => match closer_exec(k) {
                Some(c) => {
                    let n = self.stack.len();
                    if n > 0 && self.stack[n - 1] == c {
                        self.stack.pop();
                        assert(self.stack@ =~= old(self).stack@.drop_last());
                    } else {
                        self.issues.push(ParseIssue::Unexpected(idx));
                    }
                },
                None => {},
            },
        }
    }

    fn item_step(&mut self, idx: usize, k: TokenKind)
        ensures
            final(self)@ == item_step(old(self)@, idx, k),
    {
        match k {
            TokenKind::Package => {
                self.mode = Mode::QualName { import: false, allow_star: false };
            },
            TokenKind::Import => {
                self.mode = Mode::QualName { import: true, allow_star: false };
            },
            TokenKind::Class => {
                self.mode = Mode::ClassName;
            },
            TokenKind::Fun => {
                self.mode = Mode::FunStart;
            },
            TokenKind::Val => {
                self.mode = Mode::PropName { mutability: Mutability::Val };
            },
            TokenKind::Var => {
                self.mode = Mode::PropName { mutability: Mutability::Var };
            },
            _ => {
                self.issues.push(ParseIssue::Unexpected(idx));
                self.rest_step(idx, k);
            },
        }
    }

    fn resume(&mut self, idx: usize, k: TokenKind)
        ensures
            final(self)@ == resume(old(self)@, idx, k),
    {
        if is_sync_exec(k) {
            self.item_step(idx, k);
        } else {
            self.rest_step(idx, k);
        }
    }

    fn step(&mut self, idx: usize, k: TokenKind, star: bool)
        requires
            old(self).mode matches Mode::FunTypeParams { depth } ==> depth < usize::MAX,
        ensures
            final(self)@ == step(old(self)@, idx, k, star),
    {
        match self.mode {
            Mode::Item => self.item_step(idx, k),
            Mode::Rest => {
                if self.stack.len() == 0 && is_sync_exec(k) {
                    self.item_step(idx, k);
                } else {
                    self.rest_step(idx, k);
                }
            },
            Mode::QualName { import, allow_star } => {
                if k == TokenKind::Ident {
                    self.mode = Mode::QualAfterName { import };
                } else if import && allow_star && star {
                    self.mode = Mode::QualAfterStar;
                } else {
                    self.issues.push(ParseIssue::Unexpected(idx));
                    self.resume(idx, k);
                }
            },
            Mode::QualAfterName { import } => {
                if k == TokenKind::Dot {
                    self.mode = Mode::QualName { import, allow_star: import };
                } else if k == TokenKind::Semi {
                    self.mode = Mode::Item;
                } else {
                    self.mode = Mode::Item;
                    self.item_step(idx, k);
                }
            },
            Mode::QualAfterStar => {
                self.mode = Mode::Item;
                if k != TokenKind::Semi {
                    self.item_step(idx, k);
                }
            },
            Mode::ClassName => {
                if k == TokenKind::Ident {
                    self.decls.push(DeclSpec { kind: DeclKind::Class, name: idx });
                    self.mode = Mode::Rest;
                } else {
                    self.fail_at(idx);
                }
            },
            Mode::FunStart => {
                if k == TokenKind::LAngle {
                    self.mode = Mode::FunTypeParams { depth: 1 };
                } else if k == TokenKind::Ident {
                    self.mode = Mode::FunAfterName { name: idx };
                } else {
                    self.fail_at(idx);
                }
            },
            Mode::FunTypeParams { depth } => {
                if k == TokenKind::LAngle {
                    self.mode = Mode::FunTypeParams { depth: depth + 1 };
                } else if k == TokenKind::RAngle {
                    if depth <= 1 {
                        self.mode = Mode::FunExpectName;
                    } else {
                        self.mode = Mode::FunTypeParams { depth: depth - 1 };
                    }
                } else if opener_exec(k).is_some() || closer_exec(k).is_some() {
                    self.fail_at(idx);
                }
            },
            Mode::FunExpectName => {
                if k == TokenKind::Ident {
                    self.mode = Mode::FunAfterName { name: idx };
                } else {
                    self.fail_at(idx);
                }
            },
            Mode::FunAfterName { name } => {
                if k == TokenKind::Dot {
                    self.mode = Mode::FunAfterDot { name };
                } else if k == TokenKind::LParen {
                    self.decls.push(DeclSpec { kind: DeclKind::Fun, name });
                    self.mode = Mode::Signature;
                    self.group_step(idx, k);
                } else {
                    self.fail_at(idx);
                }
            },
            Mode::FunAfterDot { name } => {
                if k == TokenKind::Ident {
                    self.mode = Mode::FunAfterName { name: idx };
                } else {
                    self.fail_at(idx);
                }
            },
            Mode::PropName { mutability } => {
                if k == TokenKind::Ident {
                    self.decls.push(DeclSpec { kind: DeclKind::Property(mutability), name: idx });
                    self.mode = Mode::Signature;
                } else {
                    self.fail_at(idx);
                }
            },
            Mode::Signature => {
                if self.stack.len() == 0 && is_sync_exec(k) {
                    self.item_step(idx, k);
                } else if self.stack.len() == 0 && (k == TokenKind::Colon || k == TokenKind::Eq) {
                    self.mode = Mode::Tail;
                } else {
                    self.group_step(idx, k);
                }
            },
            Mode::Tail => {
                if self.stack.len() == 0 && closer_exec(k).is_some() {
                    self.rest_step(idx, k);
                } else {
                    self.group_step(idx, k);
                }
            },
            Mode::Failed => {},
        }
    }

    fn fail_at(&mut self, idx: usize)
        ensures
            final(self)@ == fail_at(old(self)@, idx),
    {
        self.issues.push(ParseIssue::Unexpected(idx));
        self.mode = Mode::Failed;
    }

    fn finish(&mut self)
        ensures
            final(self)@ == finish(old(self)@),
    {
        match self.mode {
            Mode::Item | Mode::QualAfterName { .. } | Mode::QualAfterStar | Mode::Failed => {},
            Mode::Rest | Mode::Signature | Mode::Tail => {
                if self.stack.len() > 0 {
                    self.issues.push(ParseIssue::EndOfInput);
                }
            },
            Mode::QualName { .. } => {
                self.issues.push(ParseIssue::EndOfInput);
            },
            _ => {
                self.issues.push(ParseIssue::EndOfInput);
                self.mode = Mode::Failed;
            },
        }
    }
}

fn lexeme_is_star(l: &Lexeme, Ghost(s): Ghost<Seq<char>>) -> (b: bool)
    requires
        lexeme_fits(s, *l),
    ensures
        b == is_star(s, l@),
{
    match &l.token {
        Token::Op(p) => {
            let text = p.as_str();
            let r = text.unicode_len() == 1 && text.get_char(0) == '*';
            proof {
                if r {
                    assert(p@ =~= seq!['*']);
                }
            }
            r
        },
        _ => false,
    }
}

/// Runs the grammar over the lexemes of `s` (see [`parse_spec`]).
pub fn parse(lexemes: &Vec<Lexeme>, Ghost(s): Ghost<Seq<char>>) -> (r: (Vec<DeclSpec>, Vec<ParseIssue>, bool))
    requires
        forall|i: int| 0 <= i < lexemes.len() ==> lexeme_fits(s, #[trigger] lexemes@[i]),
    ensures
        (r.0@, r.1@, r.2) == parse_spec(s, lexemes@.map_values(|l: Lexeme| l@)),
{
    let ghost ls = lexemes@.map_values(|l: Lexeme| l@);
    let mut g = GrammarRun { mode: Mode::Item, stack: Vec::new(), decls: Vec::new(), issues: Vec::new() };
    assert(g@ =~= initial_state());
    let mut i: usize = 0;
    while i < lexemes.len()
        invariant
            ls == lexemes@.map_values(|l: Lexeme| l@),
            forall|j: int| 0 <= j < lexemes.len() ==> lexeme_fits(s, #[trigger] lexemes@[j]),
            i <= lexemes.len(),
            g@ == run(s, ls, i as int),
            g.mode matches Mode::FunTypeParams { depth } ==> depth <= i,
        decreases lexemes.len() - i,
    {
        let l = &lexemes[i];
        let star = lexeme_is_star(l, Ghost(s));
        g.step(i, l.token.kind(), star);
        i = i + 1;
    }
    g.finish();
    let failed = g.mode == Mode::Failed;
    (g.decls, g.issues, failed)
}

} // verus!
