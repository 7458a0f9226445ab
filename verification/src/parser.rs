//! The parser: recursive descent over the tokens, one procedure per rule.

use vstd::prelude::*;
use crate::ast::{
    ASTNode,
    ASTNodeView,
    Expression,
    ExpressionView,
    Statement,
    StatementView,
    VariableDeclaration,
    VariableDeclarationView,
    declaration_views,
    expression_views,
    statement_views,
    string_views,
};
use crate::grammar::{
    ExpectationView,
    ParseFaultView,
    Parsed,
    after_consume,
    declarations_at,
    expect_assignment_at,
    expect_keyword_at,
    expect_symbol_at,
    expression_at,
    expression_list_at,
    identifier_list_at,
    lemma_declaration_advances,
    lemma_expression_advances,
    lemma_program_advances,
    lemma_statement_advances,
    lookahead,
    more_expressions_at,
    more_identifiers_at,
    more_terms_at,
    operator_at,
    program_at,
    statement_at,
    statements_at,
    term_at,
};
use crate::chars::classified;
use crate::lexer::{LexError, Token, TokenView, lex, lexed, token_views};
use crate::text::str_equals;

verus! {

/// What a rule asked for when it failed.
#[derive(Debug, PartialEq)]
pub enum Expectation {
    /// The given keyword.
    Keyword(String),
    /// The given symbol.
    Symbol(char),
    /// The assignment operator `:=`.
    Assignment,
    /// An identifier at the start of a list of names.
    Identifier,
    /// An identifier after a comma in a list of names.
    IdentifierAfterComma,
    /// An identifier or `writeln`, which start a statement.
    Statement,
    /// A number, a name or a string.
    Term,
}

impl View for Expectation {
    type V = ExpectationView;

    open spec fn view(&self) -> ExpectationView {
        match self {
            Expectation::Keyword(keyword) => ExpectationView::Keyword(keyword@),
            Expectation::Symbol(symbol) => ExpectationView::Symbol(*symbol),
            Expectation::Assignment => ExpectationView::Assignment,
            Expectation::Identifier => ExpectationView::Identifier,
            Expectation::IdentifierAfterComma => ExpectationView::IdentifierAfterComma,
            Expectation::Statement => ExpectationView::Statement,
            Expectation::Term => ExpectationView::Term,
        }
    }
}

/// The view of a token that may be absent.
pub open spec fn optional_token_view(token: Option<Token>) -> Option<TokenView> {
    match token {
        Some(t) => Some(t@),
        None => None,
    }
}

/// A failed rule: what it asked for, and the offending token, or `None`
/// where the tokens had run out.
#[derive(Debug, PartialEq)]
pub struct ParseFault {
    pub expected: Expectation,
    pub found: Option<Token>,
}

impl View for ParseFault {
    type V = ParseFaultView;

    open spec fn view(&self) -> ParseFaultView {
        ParseFaultView { expected: self.expected@, found: optional_token_view(self.found) }
    }
}

/// Why a token sequence is no program: the rule that failed, and the token
/// that the parser stood at when it gave up.
#[derive(Debug, PartialEq)]
pub struct ParseError {
    pub fault: ParseFault,
    pub lookahead: Option<Token>,
}

/// A parse error with its texts as sequences of characters.
pub struct ParseErrorView {
    pub fault: ParseFaultView,
    pub lookahead: Option<TokenView>,
}

impl View for ParseError {
    type V = ParseErrorView;

    open spec fn view(&self) -> ParseErrorView {
        ParseErrorView { fault: self.fault@, lookahead: optional_token_view(self.lookahead) }
    }
}

/// Whether `result` is the outcome `expected`, view for view.
pub open spec fn agrees<T: View>(
    result: Result<T, ParseFault>,
    expected: Result<T::V, ParseFaultView>,
) -> bool {
    match result {
        Ok(value) => expected == Ok::<T::V, ParseFaultView>(value@),
        Err(fault) => expected == Err::<T::V, ParseFaultView>(fault@),
    }
}

/// Reading the same text twice gives the same tree: whatever tokens two scans
/// of one text return, and whatever trees two parsers make of those tokens
/// from their start, the two trees have the same view.
pub proof fn lemma_same_text_same_tree(
    text: Seq<char>,
    first_tokens: Vec<Token>,
    second_tokens: Vec<Token>,
    first_tree: ASTNode,
    second_tree: ASTNode,
)
    requires
        lexed(Ok(first_tokens), lex(classified(text))),
        lexed(Ok(second_tokens), lex(classified(text))),
        program_at(token_views(first_tokens@), 0).outcome == Ok::<ASTNodeView, ParseFaultView>(
            first_tree@,
        ),
        program_at(token_views(second_tokens@), 0).outcome == Ok::<ASTNodeView, ParseFaultView>(
            second_tree@,
        ),
    ensures
        token_views(first_tokens@) == token_views(second_tokens@),
        first_tree@ == second_tree@,
{
}

/// A text that one run refuses, every run refuses, and for the same reason:
/// two scans of one text fail alike, and two parsers over tokens with the
/// same views fail at the same rule, token and position.
pub proof fn lemma_same_text_same_failure(
    text: Seq<char>,
    first: Result<Vec<Token>, LexError>,
    second: Result<Vec<Token>, LexError>,
)
    requires
        lexed(first, lex(classified(text))),
        lexed(second, lex(classified(text))),
    ensures
        first is Err <==> second is Err,
        first is Err ==> first->Err_0 == second->Err_0,
        first is Ok ==> program_at(token_views(first->Ok_0@), 0) == program_at(
            token_views(second->Ok_0@),
            0,
        ),
{
}

/// A token sequence and a position in it.
pub struct Parser {
    tokens: Vec<Token>,
    current: usize,
}

impl Parser {
    /// The tokens that the parser reads, as views.
    pub closed spec fn stream(&self) -> Seq<TokenView> {
        token_views(self.tokens@)
    }

    /// The position of the lookahead token.
    pub closed spec fn position(&self) -> int {
        self.current as int
    }

    /// A parser at the start of `tokens`.
    pub fn new(tokens: Vec<Token>) -> (parser: Parser)
        ensures
            parser.stream() == token_views(tokens@),
            parser.position() == 0,
    {
        Parser { tokens, current: 0 }
    }

    /// The lookahead token, if the tokens have not run out.
    fn peek(&self) -> (token: Option<&Token>)
        ensures
            match token {
                Some(t) => lookahead(self.stream(), self.position()) == Some(t@),
                None => lookahead(self.stream(), self.position()) is None,
            },
    {
        if self.current < self.tokens.len() {
            Some(&self.tokens[self.current])
        } else {
            None
        }
    }

    /// Takes the lookahead token, if there is one, and moves past it.
    fn consume(&mut self) -> (token: Option<Token>)
        ensures
            final(self).stream() == old(self).stream(),
            final(self).position() == after_consume(old(self).stream(), old(self).position()),
            optional_token_view(token) == lookahead(old(self).stream(), old(self).position()),
    {
        if self.current < self.tokens.len() {
            self.current += 1;
            Some(self.tokens[self.current - 1].clone())
        } else {
            None
        }
    }

    /// Whether the lookahead token is the keyword `keyword`.
    fn match_keyword(&self, keyword: &str) -> (b: bool)
        ensures
            b == (lookahead(self.stream(), self.position()) == Some(
                TokenView::Keyword(keyword@),
            )),
    {
        match self.peek() {
            Some(Token::Keyword(k)) => str_equals(k.as_str(), keyword),
            _ => false,
        }
    }

    /// Whether the lookahead token is the symbol `symbol`.
    fn match_symbol(&self, symbol: char) -> (b: bool)
        ensures
            b == (lookahead(self.stream(), self.position()) == Some(TokenView::Symbol(symbol))),
    {
        match self.peek() {
            Some(Token::Symbol(s)) => *s == symbol,
            _ => false,
        }
    }

    /// Takes one token, which must be the keyword `keyword`.
    fn expect_keyword(&mut self, keyword: &str) -> (r: Result<(), ParseFault>)
        ensures
            final(self).stream() == old(self).stream(),
            final(self).position() == expect_keyword_at(
                old(self).stream(),
                old(self).position(),
                keyword@,
            ).next,
            agrees(
                r,
                expect_keyword_at(old(self).stream(), old(self).position(), keyword@).outcome,
            ),
    {
        let matched = self.match_keyword(keyword);
        let found = self.consume();
        if matched {
            Ok(())
        } else {
            Err(ParseFault { expected: Expectation::Keyword(keyword.to_owned()), found })
        }
    }

    /// Takes one token, which must be the symbol `symbol`.
    fn expect_symbol(&mut self, symbol: char) -> (r: Result<(), ParseFault>)
        ensures
            final(self).stream() == old(self).stream(),
            final(self).position() == expect_symbol_at(
                old(self).stream(),
                old(self).position(),
                symbol,
            ).next,
            agrees(r, expect_symbol_at(old(self).stream(), old(self).position(), symbol).outcome),
    {
        match self.consume() {
            Some(Token::Symbol(s)) => {
                if s == symbol {
                    Ok(())
                } else {
                    Err(
                        ParseFault {
                            expected: Expectation::Symbol(symbol),
                            found: Some(Token::Symbol(s)),
                        },
                    )
                }
            },
            found => Err(ParseFault { expected: Expectation::Symbol(symbol), found }),
        }
    }

    /// Takes one token, which must be `:=`.
    fn expect_assignment(&mut self) -> (r: Result<(), ParseFault>)
        ensures
            final(self).stream() == old(self).stream(),
            final(self).position() == expect_assignment_at(
                old(self).stream(),
                old(self).position(),
            ).next,
            agrees(r, expect_assignment_at(old(self).stream(), old(self).position()).outcome),
    {
        match self.consume() {
            Some(Token::Assignment) => Ok(()),
            found => Err(ParseFault { expected: Expectation::Assignment, found }),
        }
    }

    /// Reads an `IdentList`.
    fn parse_identifier_list(&mut self) -> (r: Result<Vec<String>, ParseFault>)
        ensures
            final(self).stream() == old(self).stream(),
            final(self).position() == identifier_list_at(
                old(self).stream(),
                old(self).position(),
            ).next,
            match r {
                Ok(names) => identifier_list_at(old(self).stream(), old(self).position()).outcome
                    == Ok::<Seq<Seq<char>>, ParseFaultView>(string_views(names@)),
                Err(fault) => identifier_list_at(old(self).stream(), old(self).position()).outcome
                    == Err::<Seq<Seq<char>>, ParseFaultView>(fault@),
            },
    {
        let ghost tokens = self.stream();
        let ghost start = self.position();
        let mut names: Vec<String> = Vec::new();
        match self.consume() {
            Some(Token::Identifier(name)) => {
                names.push(name);
                assert(string_views(names@) =~= seq![name@]);
            },
            found => {
                return Err(ParseFault { expected: Expectation::Identifier, found });
            },
        }
        while self.match_symbol(',')
            invariant
                tokens == old(self).stream(),
                start == old(self).position(),
                self.stream() == tokens,
                identifier_list_at(tokens, start) == more_identifiers_at(
                    tokens,
                    self.position(),
                    string_views(names@),
                ),
            decreases tokens.len() - self.position(),
        {
            let ghost before = string_views(names@);
            self.consume();
            match self.consume() {
                Some(Token::Identifier(name)) => {
                    names.push(name);
                    assert(string_views(names@) =~= before.push(name@));
                },
                found => {
                    return Err(ParseFault { expected: Expectation::IdentifierAfterComma, found });
                },
            }
        }
        Ok(names)
    }

    /// Reads a `Term`.
    fn parse_term(&mut self) -> (r: Result<Expression, ParseFault>)
        ensures
            final(self).stream() == old(self).stream(),
            final(self).position() == term_at(old(self).stream(), old(self).position()).next,
            agrees(r, term_at(old(self).stream(), old(self).position()).outcome),
    {
        match self.consume() {
            Some(Token::IntegerLiteral(value)) => Ok(Expression::IntegerLiteral(value)),
            Some(Token::Identifier(name)) => Ok(Expression::Variable(name)),
            Some(Token::StringLiteral(text)) => Ok(Expression::StringLiteral(text)),
            found => Err(ParseFault { expected: Expectation::Term, found }),
        }
    }

    /// The operator that the lookahead token holds, if it is one of the four.
    fn peek_operator(&self) -> (operator: Option<char>)
        ensures
            operator == operator_at(self.stream(), self.position()),
    {
        match self.peek() {
            Some(Token::Symbol(c)) => {
                if *c == '+' || *c == '-' || *c == '*' || *c == '/' {
                    Some(*c)
                } else {
                    None
                }
            },
            _ => None,
        }
    }

    /// Reads an `Expression`, folding its terms from the left.
    fn parse_expression(&mut self) -> (r: Result<Expression, ParseFault>)
        ensures
            final(self).stream() == old(self).stream(),
            final(self).position() == expression_at(old(self).stream(), old(self).position()).next,
            agrees(r, expression_at(old(self).stream(), old(self).position()).outcome),
    {
        let ghost tokens = self.stream();
        let ghost start = self.position();
        let mut left = self.parse_term()?;
        loop
            invariant
                tokens == old(self).stream(),
                start == old(self).position(),
                self.stream() == tokens,
                expression_at(tokens, start) == more_terms_at(tokens, self.position(), left@),
            ensures
                self.stream() == tokens,
                expression_at(tokens, start) == (Parsed {
                    outcome: Ok::<ExpressionView, ParseFaultView>(left@),
                    next: self.position(),
                }),
            decreases tokens.len() - self.position(),
        {
            match self.peek_operator() {
                Some(operator) => {
                    self.consume();
                    let right = self.parse_term()?;
                    left = Expression::BinaryOperation {
                        left: Box::new(left),
                        operator,
                        right: Box::new(right),
                    };
                },
                None => {
                    break ;
                },
            }
        }
        Ok(left)
    }

    /// Reads an `ExprList`.
    fn parse_expression_list(&mut self) -> (r: Result<Vec<Expression>, ParseFault>)
        ensures
            final(self).stream() == old(self).stream(),
            final(self).position() == expression_list_at(
                old(self).stream(),
                old(self).position(),
            ).next,
            match r {
                Ok(items) => expression_list_at(old(self).stream(), old(self).position()).outcome
                    == Ok::<Seq<ExpressionView>, ParseFaultView>(expression_views(items@)),
                Err(fault) => expression_list_at(old(self).stream(), old(self).position()).outcome
                    == Err::<Seq<ExpressionView>, ParseFaultView>(fault@),
            },
    {
        let ghost tokens = self.stream();
        let ghost start = self.position();
        let mut expressions: Vec<Expression> = Vec::new();
        let first = self.parse_expression()?;
        expressions.push(first);
        assert(expression_views(expressions@) =~= seq![first@]);
        while self.match_symbol(',')
            invariant
                tokens == old(self).stream(),
                start == old(self).position(),
                self.stream() == tokens,
                expression_list_at(tokens, start) == more_expressions_at(
                    tokens,
                    self.position(),
                    expression_views(expressions@),
                ),
            decreases tokens.len() - self.position(),
        {
            let ghost before = expression_views(expressions@);
            let ghost comma = self.position();
            self.consume();
            proof {
                lemma_expression_advances(tokens, comma + 1);
            }
            let item = self.parse_expression()?;
            expressions.push(item);
            assert(expression_views(expressions@) =~= before.push(item@));
        }
        Ok(expressions)
    }

    /// Reads a `Statement`.
    fn parse_statement(&mut self) -> (r: Result<Statement, ParseFault>)
        ensures
            final(self).stream() == old(self).stream(),
            final(self).position() == statement_at(old(self).stream(), old(self).position()).next,
            agrees(r, statement_at(old(self).stream(), old(self).position()).outcome),
    {
        let head: Option<Token> = match self.peek() {
            Some(token) => Some(token.clone()),
            None => None,
        };
        if let Some(Token::Identifier(variable)) = head {
            self.consume();
            self.expect_assignment()?;
            let expression = self.parse_expression()?;
            self.expect_symbol(';')?;
            return Ok(Statement::Assignment(variable, expression));
        }
        if self.match_keyword("writeln") {
            self.consume();
            self.expect_symbol('(')?;
            let items = self.parse_expression_list()?;
            self.expect_symbol(')')?;
            self.expect_symbol(';')?;
            return Ok(Statement::Print(items));
        }
        Err(ParseFault { expected: Expectation::Statement, found: head })
    }

    /// Reads a `StmtSection`: statements up to the keyword `end`, which is
    /// left in place.
    fn parse_statement_section(&mut self) -> (r: Result<Vec<Statement>, ParseFault>)
        ensures
            final(self).stream() == old(self).stream(),
            final(self).position() == statements_at(
                old(self).stream(),
                old(self).position(),
                Seq::empty(),
            ).next,
            match r {
                Ok(statements) => statements_at(
                    old(self).stream(),
                    old(self).position(),
                    Seq::empty(),
                ).outcome == Ok::<Seq<StatementView>, ParseFaultView>(statement_views(statements@)),
                Err(fault) => statements_at(
                    old(self).stream(),
                    old(self).position(),
                    Seq::empty(),
                ).outcome == Err::<Seq<StatementView>, ParseFaultView>(fault@),
            },
    {
        let ghost tokens = self.stream();
        let ghost start = self.position();
        let mut statements: Vec<Statement> = Vec::new();
        assert(statement_views(statements@) =~= Seq::empty());
        while !self.match_keyword("end")
            invariant
                tokens == old(self).stream(),
                start == old(self).position(),
                self.stream() == tokens,
                statements_at(tokens, start, Seq::empty()) == statements_at(
                    tokens,
                    self.position(),
                    statement_views(statements@),
                ),
            decreases tokens.len() - self.position(),
        {
            let ghost before = statement_views(statements@);
            proof {
                lemma_statement_advances(tokens, self.position());
            }
            let statement = self.parse_statement()?;
            statements.push(statement);
            assert(statement_views(statements@) =~= before.push(statement@));
        }
        Ok(statements)
    }

    /// Reads a `VarSection`: declarations up to the keyword `begin`, which is
    /// left in place.
    fn parse_variable_section(&mut self) -> (r: Result<Vec<VariableDeclaration>, ParseFault>)
        ensures
            final(self).stream() == old(self).stream(),
            final(self).position() == declarations_at(
                old(self).stream(),
                old(self).position(),
                Seq::empty(),
            ).next,
            match r {
                Ok(declarations) => declarations_at(
                    old(self).stream(),
                    old(self).position(),
                    Seq::empty(),
                ).outcome == Ok::<Seq<VariableDeclarationView>, ParseFaultView>(
                    declaration_views(declarations@),
                ),
                Err(fault) => declarations_at(
                    old(self).stream(),
                    old(self).position(),
                    Seq::empty(),
                ).outcome == Err::<Seq<VariableDeclarationView>, ParseFaultView>(fault@),
            },
    {
        let ghost tokens = self.stream();
        let ghost start = self.position();
        let mut declarations: Vec<VariableDeclaration> = Vec::new();
        assert(declaration_views(declarations@) =~= Seq::empty());
        while !self.match_keyword("begin")
            invariant
                tokens == old(self).stream(),
                start == old(self).position(),
                self.stream() == tokens,
                declarations_at(tokens, start, Seq::empty()) == declarations_at(
                    tokens,
                    self.position(),
                    declaration_views(declarations@),
                ),
            decreases tokens.len() - self.position(),
        {
            let ghost before = declaration_views(declarations@);
            proof {
                lemma_declaration_advances(tokens, self.position());
            }
            let names = self.parse_identifier_list()?;
            self.expect_symbol(':')?;
            self.expect_keyword("integer")?;
            let declared_type = "integer".to_owned();
            self.expect_symbol(';')?;
            let declaration = VariableDeclaration { names, declared_type };
            declarations.push(declaration);
            assert(declaration_views(declarations@) =~= before.push(declaration@));
        }
        Ok(declarations)
    }

    /// Reads a `Program`.
    fn parse_program(&mut self) -> (r: Result<ASTNode, ParseFault>)
        ensures
            final(self).stream() == old(self).stream(),
            final(self).position() == program_at(old(self).stream(), old(self).position()).next,
            agrees(r, program_at(old(self).stream(), old(self).position()).outcome),
    {
        self.expect_keyword("var")?;
        let variable_section = self.parse_variable_section()?;
        self.expect_keyword("begin")?;
        let statement_section = self.parse_statement_section()?;
        self.expect_keyword("end")?;
        Ok(ASTNode::Program { variable_section, statement_section })
    }

    /// Parses the tokens from the current position as one program.
    ///
    /// The result is the tree of the program, or the first rule that failed
    /// together with the token at which the parser then stood. The tokens stay
    /// as they were; the position moves to where the reading stopped.
    pub fn parse(&mut self) -> (r: Result<ASTNode, ParseError>)
        ensures
            final(self).stream() == old(self).stream(),
            final(self).position() == program_at(old(self).stream(), old(self).position()).next,
            final(self).position() >= old(self).position(),
            match r {
                Ok(tree) => program_at(old(self).stream(), old(self).position()).outcome == Ok::<
                    ASTNodeView,
                    ParseFaultView,
                >(tree@),
                Err(error) => {
                    &&& program_at(old(self).stream(), old(self).position()).outcome == Err::<
                        ASTNodeView,
                        ParseFaultView,
                    >(error@.fault)
                    &&& error@.lookahead == lookahead(final(self).stream(), final(self).position())
                },
            },
    {
        proof {
            lemma_program_advances(self.stream(), self.position());
        }
        match self.parse_program() {
            Ok(tree) => Ok(tree),
            Err(fault) => {
                let lookahead: Option<Token> = match self.peek() {
                    Some(token) => Some(token.clone()),
                    None => None,
                };
                Err(ParseError { fault, lookahead })
            },
        }
    }
}

} // verus!
