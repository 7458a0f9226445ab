//! The syntax tree: what the parser builds and the code generator reads.

use vstd::prelude::*;

verus! {

/// An expression. A binary operation owns its two operands.
#[derive(Debug, PartialEq)]
pub enum Expression {
    IntegerLiteral(i32),
    /// A variable, by name. Nothing checks that the name was declared.
    Variable(String),
    StringLiteral(String),
    BinaryOperation { left: Box<Expression>, operator: char, right: Box<Expression> },
}

/// An expression with its texts as sequences of characters.
pub enum ExpressionView {
    IntegerLiteral(i32),
    Variable(Seq<char>),
    StringLiteral(Seq<char>),
    BinaryOperation { left: Box<ExpressionView>, operator: char, right: Box<ExpressionView> },
}

impl View for Expression {
    type V = ExpressionView;

    open spec fn view(&self) -> ExpressionView
        decreases self,
    {
        match self {
            Expression::IntegerLiteral(value) => ExpressionView::IntegerLiteral(*value),
            Expression::Variable(name) => ExpressionView::Variable(name@),
            Expression::StringLiteral(text) => ExpressionView::StringLiteral(text@),
            Expression::BinaryOperation { left, operator, right } => ExpressionView::BinaryOperation {
                left: Box::new((**left).view()),
                operator: *operator,
                right: Box::new((**right).view()),
            },
        }
    }
}

/// The views of a sequence of expressions, in order.
pub open spec fn expression_views(items: Seq<Expression>) -> Seq<ExpressionView> {
    items.map_values(|e: Expression| e@)
}

/// The views of a sequence of strings, in order.
pub open spec fn string_views(texts: Seq<String>) -> Seq<Seq<char>> {
    texts.map_values(|s: String| s@)
}

/// A statement.
#[derive(Debug, PartialEq)]
pub enum Statement {
    /// Stores the value of the expression in the named variable.
    Assignment(String, Expression),
    /// Writes each item to standard output, in order.
    Print(Vec<Expression>),
}

/// A statement with its texts as sequences of characters.
pub enum StatementView {
    Assignment(Seq<char>, ExpressionView),
    Print(Seq<ExpressionView>),
}

impl View for Statement {
    type V = StatementView;

    open spec fn view(&self) -> StatementView {
        match self {
            Statement::Assignment(name, expression) => StatementView::Assignment(
                name@,
                expression@,
            ),
            Statement::Print(items) => StatementView::Print(expression_views(items@)),
        }
    }
}

/// The views of a sequence of statements, in order.
pub open spec fn statement_views(statements: Seq<Statement>) -> Seq<StatementView> {
    statements.map_values(|s: Statement| s@)
}

/// One declaration: some names and the type they share.
#[derive(Debug, PartialEq)]
pub struct VariableDeclaration {
    pub names: Vec<String>,
    pub declared_type: String,
}

/// A declaration with its texts as sequences of characters.
pub struct VariableDeclarationView {
    pub names: Seq<Seq<char>>,
    pub declared_type: Seq<char>,
}

impl View for VariableDeclaration {
    type V = VariableDeclarationView;

    open spec fn view(&self) -> VariableDeclarationView {
        VariableDeclarationView { names: string_views(self.names@), declared_type: self.declared_type@ }
    }
}

/// The views of a sequence of declarations, in order.
pub open spec fn declaration_views(declarations: Seq<VariableDeclaration>) -> Seq<
    VariableDeclarationView,
> {
    declarations.map_values(|d: VariableDeclaration| d@)
}

/// A node of the tree. A parsed text is always a `Program`.
#[derive(Debug, PartialEq)]
pub enum ASTNode {
    Program { variable_section: Vec<VariableDeclaration>, statement_section: Vec<Statement> },
    VariableDeclaration { names: Vec<String>, declared_type: String },
    Assignment { variable: String, expression: Expression },
    Print { items: Vec<Expression> },
}

/// A node with its texts as sequences of characters.
pub enum ASTNodeView {
    Program {
        variable_section: Seq<VariableDeclarationView>,
        statement_section: Seq<StatementView>,
    },
    VariableDeclaration { names: Seq<Seq<char>>, declared_type: Seq<char> },
    Assignment { variable: Seq<char>, expression: ExpressionView },
    Print { items: Seq<ExpressionView> },
}

impl View for ASTNode {
    type V = ASTNodeView;

    open spec fn view(&self) -> ASTNodeView {
        match self {
            ASTNode::Program { variable_section, statement_section } => ASTNodeView::Program {
                variable_section: declaration_views(variable_section@),
                statement_section: statement_views(statement_section@),
            },
            ASTNode::VariableDeclaration { names, declared_type } => ASTNodeView::VariableDeclaration {
                names: string_views(names@),
                declared_type: declared_type@,
            },
            ASTNode::Assignment { variable, expression } => ASTNodeView::Assignment {
                variable: variable@,
                expression: expression@,
            },
            ASTNode::Print { items } => ASTNodeView::Print { items: expression_views(items@) },
        }
    }
}

} // verus!
