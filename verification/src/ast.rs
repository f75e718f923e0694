//! The abstract syntax tree: pure data, each node owning its children.
//!
//! Every node type has a mathematical mirror (`TypeS`, `ExprS`, ...) over
//! character sequences; the parser's contracts speak of those mirrors.
//! Number literals carry the exact text consumed from the source.
use vstd::prelude::*;

verus! {

broadcast use vstd::seq::axiom_seq_index_decreases;

/// Mirror of `Type`.
pub ghost enum TypeS {
    Number,
    String,
    Boolean,
    Custom(Seq<char>),
}

/// Mirror of `Expression`. Object field order is source order.
pub ghost enum ExprS {
    NumberLiteral(Seq<char>),
    StringLiteral(Seq<char>),
    BooleanLiteral(bool),
    Identifier(Seq<char>),
    Object { fields: Seq<(Seq<char>, ExprS)> },
}

/// Mirror of `TypeField`.
pub ghost struct TypeFieldS {
    pub name: Seq<char>,
    pub field_type: TypeS,
}

/// Mirror of `TypeDefinition`.
pub ghost struct TypeDefinitionS {
    pub name: Seq<char>,
    pub fields: Seq<TypeFieldS>,
}

/// Mirror of `Statement`.
pub ghost enum StatementS {
    Let { name: Seq<char>, value: ExprS },
    Const { name: Seq<char>, value: ExprS },
    TypeDef(TypeDefinitionS),
}

/// Mirror of `Module`.
pub ghost struct ModuleS {
    pub name: Seq<char>,
    pub statements: Seq<StatementS>,
}

/// Mirror of `Program`.
pub ghost struct ProgramS {
    pub modules: Seq<ModuleS>,
}

/// A named type: one of the primitives, or a reference to a user type
/// definition by name, never resolved here.
#[derive(Debug, Clone, PartialEq)]
pub enum Type {
    Number,
    String,
    Boolean,
    Custom(String),
}

impl View for Type {
    type V = TypeS;

    open spec fn view(&self) -> TypeS {
        match self {
            Type::Number => TypeS::Number,
            Type::String => TypeS::String,
            Type::Boolean => TypeS::Boolean,
            Type::Custom(name) => TypeS::Custom(name@),
        }
    }
}

/// An expression: a literal, an identifier, or an object literal whose
/// field order is source order.
#[derive(Debug, PartialEq)]
pub enum Expression {
    NumberLiteral(String),
    StringLiteral(String),
    BooleanLiteral(bool),
    Identifier(String),
    Object { fields: Vec<(String, Expression)> },
}

impl View for Expression {
    type V = ExprS;

    open spec fn view(&self) -> ExprS {
        expr_view(*self)
    }
}

/// The mirror of an expression.
pub open spec fn expr_view(e: Expression) -> ExprS
    decreases e,
{
    match e {
        Expression::NumberLiteral(s) => ExprS::NumberLiteral(s@),
        Expression::StringLiteral(s) => ExprS::StringLiteral(s@),
        Expression::BooleanLiteral(b) => ExprS::BooleanLiteral(b),
        Expression::Identifier(s) => ExprS::Identifier(s@),
        Expression::Object { fields } => ExprS::Object { fields: expr_fields_view(fields@) },
    }
}

/// The mirror of an object literal's field list, in order.
pub open spec fn expr_fields_view(s: Seq<(String, Expression)>) -> Seq<(Seq<char>, ExprS)>
    decreases s,
{
    if s.len() == 0 {
        Seq::empty()
    } else {
        expr_fields_view(s.drop_last()).push((s.last().0@, expr_view(s.last().1)))
    }
}

/// Point-wise meaning of `expr_fields_view`.
pub proof fn lemma_expr_fields_view(s: Seq<(String, Expression)>)
    ensures
        expr_fields_view(s).len() == s.len(),
        forall|i: int|
            0 <= i < s.len() ==> expr_fields_view(s)[i] == (s[i].0@, expr_view(s[i].1)),
    decreases s.len(),
{
    if s.len() > 0 {
        lemma_expr_fields_view(s.drop_last());
    }
}

/// One field of a type definition.
#[derive(Debug, Clone, PartialEq)]
pub struct TypeField {
    pub name: String,
    pub field_type: Type,
}

impl View for TypeField {
    type V = TypeFieldS;

    open spec fn view(&self) -> TypeFieldS {
        TypeFieldS { name: self.name@, field_type: self.field_type@ }
    }
}

/// A named structural type definition with its fields in source order.
#[derive(Debug, Clone, PartialEq)]
pub struct TypeDefinition {
    pub name: String,
    pub fields: Vec<TypeField>,
}

impl View for TypeDefinition {
    type V = TypeDefinitionS;

    open spec fn view(&self) -> TypeDefinitionS {
        TypeDefinitionS {
            name: self.name@,
            fields: Seq::new(self.fields@.len(), |i: int| self.fields@[i]@),
        }
    }
}

/// A statement of a module body.
#[derive(Debug, PartialEq)]
pub enum Statement {
    Let { name: String, value: Box<Expression> },
    Const { name: String, value: Box<Expression> },
    TypeDef(TypeDefinition),
}

impl View for Statement {
    type V = StatementS;

    open spec fn view(&self) -> StatementS {
        match self {
            Statement::Let { name, value } => StatementS::Let { name: name@, value: value@ },
            Statement::Const { name, value } => StatementS::Const { name: name@, value: value@ },
            Statement::TypeDef(d) => StatementS::TypeDef(d@),
        }
    }
}

/// A named top-level container of statements.
#[derive(Debug, PartialEq)]
pub struct Module {
    pub name: String,
    pub statements: Vec<Statement>,
}

impl View for Module {
    type V = ModuleS;

    open spec fn view(&self) -> ModuleS {
        ModuleS {
            name: self.name@,
            statements: Seq::new(self.statements@.len(), |i: int| self.statements@[i]@),
        }
    }
}

/// Root node of the AST: the modules in source order.
#[derive(Debug, PartialEq)]
pub struct Program {
    pub modules: Vec<Module>,
}

impl View for Program {
    type V = ProgramS;

    open spec fn view(&self) -> ProgramS {
        ProgramS { modules: Seq::new(self.modules@.len(), |i: int| self.modules@[i]@) }
    }
}

impl Program {
    /// Creates an empty program.
    pub fn new() -> (p: Program)
        ensures
            p@.modules == Seq::<ModuleS>::empty(),
    {
        let p = Program { modules: Vec::new() };
        proof {
            assert(p@.modules =~= Seq::<ModuleS>::empty());
        }
        p
    }
}

} // verus!
