//! The abstract syntax tree produced by the parser, together with the
//! mathematical models (`Spec...` types) that the contracts speak about.

use vstd::prelude::*;

verus! {

/// Model of an [`Expression`]: currently only the raw placeholder text.
pub enum SpecExpression {
    Value(Seq<char>),
}

/// Model of a [`Let`] statement: the bound name and its (placeholder) value.
pub struct SpecLet {
    pub name: Seq<char>,
    pub value: SpecExpression,
}

/// Model of a [`Statement`].
pub enum SpecStatement {
    Let(SpecLet),
    Expression(SpecExpression),
}

/// An expression. Expression parsing is not implemented yet: the single
/// variant carries raw placeholder text, and every `Let` value is the empty
/// placeholder.
#[derive(Debug)]
pub enum Expression {
    Value(String),
}

impl View for Expression {
    type V = SpecExpression;

    open spec fn view(&self) -> SpecExpression {
        match self {
            Expression::Value(s) => SpecExpression::Value(s@),
        }
    }
}

/// A `let` statement: `let <name> = <value>;`.
#[derive(Debug)]
pub struct Let {
    pub name: String,
    pub value: Expression,
}

impl View for Let {
    type V = SpecLet;

    open spec fn view(&self) -> SpecLet {
        SpecLet { name: self.name@, value: self.value@ }
    }
}

/// A statement. The parser currently only ever produces the `Let` variant;
/// `Expression` exists in the data model but no code path constructs it.
#[derive(Debug)]
pub enum Statement {
    Let(Let),
    Expression(Expression),
}

impl View for Statement {
    type V = SpecStatement;

    open spec fn view(&self) -> SpecStatement {
        match self {
            Statement::Let(l) => SpecStatement::Let(l@),
            Statement::Expression(e) => SpecStatement::Expression(e@),
        }
    }
}

impl PartialEq for Expression {
    fn eq(&self, other: &Expression) -> (r: bool) {
        match (self, other) {
            (Expression::Value(a), Expression::Value(b)) => *a == *b,
        }
    }
}

impl vstd::std_specs::cmp::PartialEqSpecImpl for Expression {
    open spec fn obeys_eq_spec() -> bool {
        true
    }

    open spec fn eq_spec(&self, other: &Expression) -> bool {
        self@ == other@
    }
}

impl PartialEq for Let {
    fn eq(&self, other: &Let) -> (r: bool) {
        self.name == other.name && self.value == other.value
    }
}

impl vstd::std_specs::cmp::PartialEqSpecImpl for Let {
    open spec fn obeys_eq_spec() -> bool {
        true
    }

    open spec fn eq_spec(&self, other: &Let) -> bool {
        self@ == other@
    }
}

impl PartialEq for Statement {
    fn eq(&self, other: &Statement) -> (r: bool) {
        match (self, other) {
            (Statement::Let(a), Statement::Let(b)) => *a == *b,
            (Statement::Expression(a), Statement::Expression(b)) => *a == *b,
            _ => false,
        }
    }
}

impl vstd::std_specs::cmp::PartialEqSpecImpl for Statement {
    open spec fn obeys_eq_spec() -> bool {
        true
    }

    open spec fn eq_spec(&self, other: &Statement) -> bool {
        self@ == other@
    }
}

/// An ordered sequence of statements, in source order.
pub struct Program {
    pub statements: Vec<Statement>,
}

impl View for Program {
    type V = Seq<SpecStatement>;

    open spec fn view(&self) -> Seq<SpecStatement> {
        self.statements@.map_values(|s: Statement| s@)
    }
}

/// A standalone named value. Part of the data model, but not referenced by
/// the statement or expression variants.
pub struct Identifier {
    pub value: String,
}

impl View for Identifier {
    type V = Seq<char>;

    open spec fn view(&self) -> Seq<char> {
        self.value@
    }
}

} // verus!
