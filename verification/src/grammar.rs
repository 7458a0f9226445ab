//! The grammar as functions from a token sequence and a position to what is
//! read there and the position after it.
//!
//! ```text
//! Program     := 'var' VarSection 'begin' StmtSection 'end'
//! VarSection  := (IdentList ':' 'integer' ';')*
//! StmtSection := Statement*
//! Statement   := Identifier ':=' Expression ';'
//!              | 'writeln' '(' ExprList ')' ';'
//! Expression  := Term (('+'|'-'|'*'|'/') Term)*
//! Term        := IntegerLiteral | Identifier | StringLiteral
//! ExprList    := Expression (',' Expression)*
//! IdentList   := Identifier (',' Identifier)*
//! ```
//!
//! One token of lookahead decides every choice. The four operators share one
//! level of precedence and associate to the left.

use vstd::prelude::*;
use crate::ast::{ASTNodeView, ExpressionView, StatementView, VariableDeclarationView};
use crate::lexer::{TokenView, is_operator};

verus! {

/// What a rule asked for when it failed.
pub enum ExpectationView {
    Keyword(Seq<char>),
    Symbol(char),
    Assignment,
    Identifier,
    IdentifierAfterComma,
    Statement,
    Term,
}

/// A failed rule: what it asked for, and the token it met instead, if any.
pub struct ParseFaultView {
    pub expected: ExpectationView,
    pub found: Option<TokenView>,
}

/// What a rule read, or why it failed, and the position it stopped at.
pub struct Parsed<T> {
    pub outcome: Result<T, ParseFaultView>,
    pub next: int,
}

/// A failure with the position it stopped at.
pub open spec fn failed<T>(expected: ExpectationView, found: Option<TokenView>, next: int) -> Parsed<
    T,
> {
    Parsed { outcome: Err(ParseFaultView { expected, found }), next }
}

/// The failure of `p`, handed on by a rule of another result type.
pub open spec fn propagated<S, T>(p: Parsed<S>) -> Parsed<T>
    recommends
        p.outcome is Err,
{
    Parsed { outcome: Err(p.outcome->Err_0), next: p.next }
}

/// The token at `pos`, if there is one.
pub open spec fn lookahead(tokens: Seq<TokenView>, pos: int) -> Option<TokenView> {
    if 0 <= pos < tokens.len() {
        Some(tokens[pos])
    } else {
        None
    }
}

/// The position after taking the token at `pos`: one further, unless the
/// tokens have run out.
pub open spec fn after_consume(tokens: Seq<TokenView>, pos: int) -> int {
    if 0 <= pos < tokens.len() {
        pos + 1
    } else {
        pos
    }
}

/// Takes one token, which must be `wanted`.
pub open spec fn expect_at(
    tokens: Seq<TokenView>,
    pos: int,
    wanted: TokenView,
    expected: ExpectationView,
) -> Parsed<()> {
    let found = lookahead(tokens, pos);
    if found == Some(wanted) {
        Parsed { outcome: Ok(()), next: after_consume(tokens, pos) }
    } else {
        failed(expected, found, after_consume(tokens, pos))
    }
}

/// Takes one token, which must be the keyword `keyword`.
pub open spec fn expect_keyword_at(tokens: Seq<TokenView>, pos: int, keyword: Seq<char>) -> Parsed<
    (),
> {
    expect_at(tokens, pos, TokenView::Keyword(keyword), ExpectationView::Keyword(keyword))
}

/// Takes one token, which must be the symbol `symbol`.
pub open spec fn expect_symbol_at(tokens: Seq<TokenView>, pos: int, symbol: char) -> Parsed<()> {
    expect_at(tokens, pos, TokenView::Symbol(symbol), ExpectationView::Symbol(symbol))
}

/// Takes one token, which must be `:=`.
pub open spec fn expect_assignment_at(tokens: Seq<TokenView>, pos: int) -> Parsed<()> {
    expect_at(tokens, pos, TokenView::Assignment, ExpectationView::Assignment)
}

/// `IdentList`: one identifier, then the pairs of a comma and an identifier.
pub open spec fn identifier_list_at(tokens: Seq<TokenView>, pos: int) -> Parsed<Seq<Seq<char>>> {
    match lookahead(tokens, pos) {
        Some(TokenView::Identifier(name)) => more_identifiers_at(tokens, pos + 1, seq![name]),
        found => failed(ExpectationView::Identifier, found, after_consume(tokens, pos)),
    }
}

/// The rest of an `IdentList` after the names read so far.
pub open spec fn more_identifiers_at(tokens: Seq<TokenView>, pos: int, names: Seq<Seq<char>>) -> Parsed<
    Seq<Seq<char>>,
>
    decreases tokens.len() - pos,
{
    if lookahead(tokens, pos) == Some(TokenView::Symbol(',')) {
        match lookahead(tokens, pos + 1) {
            Some(TokenView::Identifier(name)) => more_identifiers_at(
                tokens,
                pos + 2,
                names.push(name),
            ),
            found => failed(
                ExpectationView::IdentifierAfterComma,
                found,
                after_consume(tokens, pos + 1),
            ),
        }
    } else {
        Parsed { outcome: Ok(names), next: pos }
    }
}

/// `Term`: a number, a name or a string, in one token.
pub open spec fn term_at(tokens: Seq<TokenView>, pos: int) -> Parsed<ExpressionView> {
    let next = after_consume(tokens, pos);
    match lookahead(tokens, pos) {
        Some(TokenView::IntegerLiteral(value)) => Parsed {
            outcome: Ok(ExpressionView::IntegerLiteral(value)),
            next,
        },
        Some(TokenView::Identifier(name)) => Parsed {
            outcome: Ok(ExpressionView::Variable(name)),
            next,
        },
        Some(TokenView::StringLiteral(text)) => Parsed {
            outcome: Ok(ExpressionView::StringLiteral(text)),
            next,
        },
        found => failed(ExpectationView::Term, found, next),
    }
}

/// The operator at `pos`, if the token there is one of the four.
pub open spec fn operator_at(tokens: Seq<TokenView>, pos: int) -> Option<char> {
    match lookahead(tokens, pos) {
        Some(TokenView::Symbol(c)) => if is_operator(c) {
            Some(c)
        } else {
            None
        },
        _ => None,
    }
}

/// `Expression`: a term, then the pairs of an operator and a term, folded
/// from the left.
pub open spec fn expression_at(tokens: Seq<TokenView>, pos: int) -> Parsed<ExpressionView> {
    let first = term_at(tokens, pos);
    match first.outcome {
        Ok(left) => more_terms_at(tokens, first.next, left),
        Err(_) => first,
    }
}

/// The rest of an `Expression` whose part read so far is `left`: every
/// further operator makes `left` the left operand of a new operation.
pub open spec fn more_terms_at(tokens: Seq<TokenView>, pos: int, left: ExpressionView) -> Parsed<
    ExpressionView,
>
    decreases tokens.len() - pos,
{
    match operator_at(tokens, pos) {
        Some(operator) => {
            let second = term_at(tokens, pos + 1);
            match second.outcome {
                Ok(right) => more_terms_at(
                    tokens,
                    second.next,
                    ExpressionView::BinaryOperation {
                        left: Box::new(left),
                        operator,
                        right: Box::new(right),
                    },
                ),
                Err(_) => second,
            }
        },
        None => Parsed { outcome: Ok(left), next: pos },
    }
}

/// `ExprList`: one expression, then the pairs of a comma and an expression.
pub open spec fn expression_list_at(tokens: Seq<TokenView>, pos: int) -> Parsed<
    Seq<ExpressionView>,
> {
    let first = expression_at(tokens, pos);
    match first.outcome {
        Ok(item) => more_expressions_at(tokens, first.next, seq![item]),
        Err(_) => propagated(first),
    }
}

/// The rest of an `ExprList` after the items read so far.
pub open spec fn more_expressions_at(
    tokens: Seq<TokenView>,
    pos: int,
    items: Seq<ExpressionView>,
) -> Parsed<Seq<ExpressionView>>
    decreases tokens.len() - pos,
    via more_expressions_advance
{
    if lookahead(tokens, pos) == Some(TokenView::Symbol(',')) {
        let second = expression_at(tokens, pos + 1);
        match second.outcome {
            Ok(item) => more_expressions_at(tokens, second.next, items.push(item)),
            Err(_) => propagated(second),
        }
    } else {
        Parsed { outcome: Ok(items), next: pos }
    }
}

#[via_fn]
proof fn more_expressions_advance(tokens: Seq<TokenView>, pos: int, items: Seq<ExpressionView>) {
    lemma_expression_advances(tokens, pos + 1);
}

/// `Statement`: an assignment, which starts with an identifier, or a print
/// statement, which starts with `writeln`. Any other token is refused where
/// it stands.
pub open spec fn statement_at(tokens: Seq<TokenView>, pos: int) -> Parsed<StatementView> {
    match lookahead(tokens, pos) {
        Some(TokenView::Identifier(variable)) => {
            let becomes = expect_assignment_at(tokens, pos + 1);
            let value = expression_at(tokens, becomes.next);
            let end = expect_symbol_at(tokens, value.next, ';');
            if becomes.outcome is Err {
                propagated(becomes)
            } else if value.outcome is Err {
                propagated(value)
            } else if end.outcome is Err {
                propagated(end)
            } else {
                Parsed {
                    outcome: Ok(StatementView::Assignment(variable, value.outcome->Ok_0)),
                    next: end.next,
                }
            }
        },
        found => if found == Some(TokenView::Keyword("writeln"@)) {
            let open = expect_symbol_at(tokens, pos + 1, '(');
            let items = expression_list_at(tokens, open.next);
            let close = expect_symbol_at(tokens, items.next, ')');
            let end = expect_symbol_at(tokens, close.next, ';');
            if open.outcome is Err {
                propagated(open)
            } else if items.outcome is Err {
                propagated(items)
            } else if close.outcome is Err {
                propagated(close)
            } else if end.outcome is Err {
                propagated(end)
            } else {
                Parsed { outcome: Ok(StatementView::Print(items.outcome->Ok_0)), next: end.next }
            }
        } else {
            failed(ExpectationView::Statement, found, pos)
        },
    }
}

/// `StmtSection` after the statements read so far: it ends, taking nothing,
/// where the lookahead is `end`, and reads one more statement anywhere else.
pub open spec fn statements_at(
    tokens: Seq<TokenView>,
    pos: int,
    statements: Seq<StatementView>,
) -> Parsed<Seq<StatementView>>
    decreases tokens.len() - pos,
    via statements_advance
{
    if lookahead(tokens, pos) == Some(TokenView::Keyword("end"@)) {
        Parsed { outcome: Ok(statements), next: pos }
    } else {
        let one = statement_at(tokens, pos);
        match one.outcome {
            Ok(statement) => statements_at(tokens, one.next, statements.push(statement)),
            Err(_) => propagated(one),
        }
    }
}

#[via_fn]
proof fn statements_advance(tokens: Seq<TokenView>, pos: int, statements: Seq<StatementView>) {
    lemma_statement_advances(tokens, pos);
}

/// One declaration: `IdentList ':' 'integer' ';'`.
pub open spec fn declaration_at(tokens: Seq<TokenView>, pos: int) -> Parsed<
    VariableDeclarationView,
> {
    let names = identifier_list_at(tokens, pos);
    let colon = expect_symbol_at(tokens, names.next, ':');
    let integer = expect_keyword_at(tokens, colon.next, "integer"@);
    let end = expect_symbol_at(tokens, integer.next, ';');
    if names.outcome is Err {
        propagated(names)
    } else if colon.outcome is Err {
        propagated(colon)
    } else if integer.outcome is Err {
        propagated(integer)
    } else if end.outcome is Err {
        propagated(end)
    } else {
        Parsed {
            outcome: Ok(
                VariableDeclarationView {
                    names: names.outcome->Ok_0,
                    declared_type: "integer"@,
                },
            ),
            next: end.next,
        }
    }
}

/// `VarSection` after the declarations read so far: it ends, taking nothing,
/// where the lookahead is `begin`, and reads one more declaration anywhere
/// else.
pub open spec fn declarations_at(
    tokens: Seq<TokenView>,
    pos: int,
    declarations: Seq<VariableDeclarationView>,
) -> Parsed<Seq<VariableDeclarationView>>
    decreases tokens.len() - pos,
    via declarations_advance
{
    if lookahead(tokens, pos) == Some(TokenView::Keyword("begin"@)) {
        Parsed { outcome: Ok(declarations), next: pos }
    } else {
        let one = declaration_at(tokens, pos);
        match one.outcome {
            Ok(declaration) => declarations_at(tokens, one.next, declarations.push(declaration)),
            Err(_) => propagated(one),
        }
    }
}

#[via_fn]
proof fn declarations_advance(
    tokens: Seq<TokenView>,
    pos: int,
    declarations: Seq<VariableDeclarationView>,
) {
    lemma_declaration_advances(tokens, pos);
}

/// `Program`: the two sections between their keywords.
pub open spec fn program_at(tokens: Seq<TokenView>, pos: int) -> Parsed<ASTNodeView> {
    let var = expect_keyword_at(tokens, pos, "var"@);
    let declarations = declarations_at(tokens, var.next, Seq::empty());
    let begin = expect_keyword_at(tokens, declarations.next, "begin"@);
    let statements = statements_at(tokens, begin.next, Seq::empty());
    let end = expect_keyword_at(tokens, statements.next, "end"@);
    if var.outcome is Err {
        propagated(var)
    } else if declarations.outcome is Err {
        propagated(declarations)
    } else if begin.outcome is Err {
        propagated(begin)
    } else if statements.outcome is Err {
        propagated(statements)
    } else if end.outcome is Err {
        propagated(end)
    } else {
        Parsed {
            outcome: Ok(
                ASTNodeView::Program {
                    variable_section: declarations.outcome->Ok_0,
                    statement_section: statements.outcome->Ok_0,
                },
            ),
            next: end.next,
        }
    }
}

/// The rest of an expression ends no earlier than it starts, and inside the
/// tokens.
pub proof fn lemma_more_terms_advance(tokens: Seq<TokenView>, pos: int, left: ExpressionView)
    ensures
        more_terms_at(tokens, pos, left).next >= pos,
        pos <= tokens.len() ==> more_terms_at(tokens, pos, left).next <= tokens.len(),
    decreases tokens.len() - pos,
{
    if operator_at(tokens, pos) is Some {
        let second = term_at(tokens, pos + 1);
        if let Ok(right) = second.outcome {
            lemma_more_terms_advance(
                tokens,
                second.next,
                ExpressionView::BinaryOperation {
                    left: Box::new(left),
                    operator: operator_at(tokens, pos)->Some_0,
                    right: Box::new(right),
                },
            );
        }
    }
}

/// An expression ends no earlier than it starts, and later where it is read.
pub proof fn lemma_expression_advances(tokens: Seq<TokenView>, pos: int)
    ensures
        expression_at(tokens, pos).next >= pos,
        pos <= tokens.len() ==> expression_at(tokens, pos).next <= tokens.len(),
        expression_at(tokens, pos).outcome is Ok ==> expression_at(tokens, pos).next > pos,
{
    let first = term_at(tokens, pos);
    if let Ok(left) = first.outcome {
        lemma_more_terms_advance(tokens, first.next, left);
    }
}

/// The rest of a list of expressions ends no earlier than it starts.
pub proof fn lemma_more_expressions_advance(
    tokens: Seq<TokenView>,
    pos: int,
    items: Seq<ExpressionView>,
)
    ensures
        more_expressions_at(tokens, pos, items).next >= pos,
        pos <= tokens.len() ==> more_expressions_at(tokens, pos, items).next <= tokens.len(),
    decreases tokens.len() - pos,
{
    if lookahead(tokens, pos) == Some(TokenView::Symbol(',')) {
        lemma_expression_advances(tokens, pos + 1);
        let second = expression_at(tokens, pos + 1);
        if let Ok(item) = second.outcome {
            lemma_more_expressions_advance(tokens, second.next, items.push(item));
        }
    }
}

/// A statement that is read takes at least one token; one that is refused
/// leaves the position no earlier than it was.
pub proof fn lemma_statement_advances(tokens: Seq<TokenView>, pos: int)
    ensures
        statement_at(tokens, pos).next >= pos,
        pos <= tokens.len() ==> statement_at(tokens, pos).next <= tokens.len(),
        statement_at(tokens, pos).outcome is Ok ==> statement_at(tokens, pos).next > pos,
{
    let becomes = expect_assignment_at(tokens, pos + 1);
    lemma_expression_advances(tokens, becomes.next);
    let open = expect_symbol_at(tokens, pos + 1, '(');
    lemma_expression_advances(tokens, open.next);
    let first = expression_at(tokens, open.next);
    if let Ok(item) = first.outcome {
        lemma_more_expressions_advance(tokens, first.next, seq![item]);
    }
}

/// The rest of a list of identifiers ends no earlier than it starts.
pub proof fn lemma_more_identifiers_advance(
    tokens: Seq<TokenView>,
    pos: int,
    names: Seq<Seq<char>>,
)
    ensures
        more_identifiers_at(tokens, pos, names).next >= pos,
        pos <= tokens.len() ==> more_identifiers_at(tokens, pos, names).next <= tokens.len(),
    decreases tokens.len() - pos,
{
    if lookahead(tokens, pos) == Some(TokenView::Symbol(',')) {
        if let Some(TokenView::Identifier(name)) = lookahead(tokens, pos + 1) {
            lemma_more_identifiers_advance(tokens, pos + 2, names.push(name));
        }
    }
}

/// A declaration that is read takes at least one token; one that is refused
/// leaves the position no earlier than it was.
pub proof fn lemma_declaration_advances(tokens: Seq<TokenView>, pos: int)
    ensures
        declaration_at(tokens, pos).next >= pos,
        pos <= tokens.len() ==> declaration_at(tokens, pos).next <= tokens.len(),
        declaration_at(tokens, pos).outcome is Ok ==> declaration_at(tokens, pos).next > pos,
{
    if let Some(TokenView::Identifier(name)) = lookahead(tokens, pos) {
        lemma_more_identifiers_advance(tokens, pos + 1, seq![name]);
    }
}

/// The variable section stops exactly at `begin`: where the lookahead is
/// `begin` it ends at once and takes nothing, and wherever it ends without
/// failure the lookahead is `begin` and lies no earlier than the start.
pub proof fn lemma_variable_section_stops_at_begin(
    tokens: Seq<TokenView>,
    pos: int,
    declarations: Seq<VariableDeclarationView>,
)
    ensures
        lookahead(tokens, pos) == Some(TokenView::Keyword("begin"@)) ==> declarations_at(
            tokens,
            pos,
            declarations,
        ) == (Parsed { outcome: Ok(declarations), next: pos }),
        declarations_at(tokens, pos, declarations).outcome is Ok ==> lookahead(
            tokens,
            declarations_at(tokens, pos, declarations).next,
        ) == Some(TokenView::Keyword("begin"@)),
        declarations_at(tokens, pos, declarations).next >= pos,
    decreases tokens.len() - pos,
{
    if lookahead(tokens, pos) != Some(TokenView::Keyword("begin"@)) {
        lemma_declaration_advances(tokens, pos);
        let one = declaration_at(tokens, pos);
        if let Ok(declaration) = one.outcome {
            lemma_variable_section_stops_at_begin(tokens, one.next, declarations.push(declaration));
        }
    }
}

/// The statement section stops exactly at `end`: where the lookahead is `end`
/// it ends at once and takes nothing, and wherever it ends without failure
/// the lookahead is `end` and lies no earlier than the start.
pub proof fn lemma_statement_section_stops_at_end(
    tokens: Seq<TokenView>,
    pos: int,
    statements: Seq<StatementView>,
)
    ensures
        lookahead(tokens, pos) == Some(TokenView::Keyword("end"@)) ==> statements_at(
            tokens,
            pos,
            statements,
        ) == (Parsed { outcome: Ok(statements), next: pos }),
        statements_at(tokens, pos, statements).outcome is Ok ==> lookahead(
            tokens,
            statements_at(tokens, pos, statements).next,
        ) == Some(TokenView::Keyword("end"@)),
        statements_at(tokens, pos, statements).next >= pos,
    decreases tokens.len() - pos,
{
    if lookahead(tokens, pos) != Some(TokenView::Keyword("end"@)) {
        lemma_statement_advances(tokens, pos);
        let one = statement_at(tokens, pos);
        if let Ok(statement) = one.outcome {
            lemma_statement_section_stops_at_end(tokens, one.next, statements.push(statement));
        }
    }
}

/// Reading a program never moves backwards: the tokens are taken from left
/// to right, and a token once passed is not read again.
pub proof fn lemma_program_advances(tokens: Seq<TokenView>, pos: int)
    ensures
        program_at(tokens, pos).next >= pos,
{
    let var = expect_keyword_at(tokens, pos, "var"@);
    let declarations = declarations_at(tokens, var.next, Seq::empty());
    let begin = expect_keyword_at(tokens, declarations.next, "begin"@);
    lemma_variable_section_stops_at_begin(tokens, var.next, Seq::empty());
    lemma_statement_section_stops_at_end(tokens, begin.next, Seq::empty());
}

/// Tokens without the keyword `end` from `pos` on are no program: reading
/// them ends in a failure.
pub proof fn lemma_missing_end_fails(tokens: Seq<TokenView>, pos: int)
    requires
        forall|i: int| pos <= i < tokens.len() ==> tokens[i] != TokenView::Keyword("end"@),
    ensures
        program_at(tokens, pos).outcome is Err,
{
    let var = expect_keyword_at(tokens, pos, "var"@);
    let declarations = declarations_at(tokens, var.next, Seq::empty());
    let begin = expect_keyword_at(tokens, declarations.next, "begin"@);
    let statements = statements_at(tokens, begin.next, Seq::empty());
    lemma_variable_section_stops_at_begin(tokens, var.next, Seq::empty());
    lemma_statement_section_stops_at_end(tokens, begin.next, Seq::empty());
}

/// Whether every right operand in `e`, along its left spine, is a term.
pub open spec fn left_leaning(e: ExpressionView) -> bool
    decreases e,
{
    match e {
        ExpressionView::BinaryOperation { left, operator, right } => {
            &&& !(*right is BinaryOperation)
            &&& is_operator(operator)
            &&& left_leaning(*left)
        },
        _ => true,
    }
}

/// Reading on from a left-leaning tree gives a left-leaning tree.
pub proof fn lemma_more_terms_left_leaning(tokens: Seq<TokenView>, pos: int, left: ExpressionView)
    requires
        left_leaning(left),
    ensures
        more_terms_at(tokens, pos, left).outcome matches Ok(e) ==> left_leaning(e),
    decreases tokens.len() - pos,
{
    if let Some(operator) = operator_at(tokens, pos) {
        let second = term_at(tokens, pos + 1);
        if let Ok(right) = second.outcome {
            lemma_more_terms_left_leaning(
                tokens,
                second.next,
                ExpressionView::BinaryOperation {
                    left: Box::new(left),
                    operator,
                    right: Box::new(right),
                },
            );
        }
    }
}

/// Every expression that is read is a left-leaning tree over the four
/// operators: no operator binds tighter than another, and each operation has
/// a single term as its right operand.
pub proof fn lemma_expression_left_leaning(tokens: Seq<TokenView>, pos: int)
    ensures
        expression_at(tokens, pos).outcome matches Ok(e) ==> left_leaning(e),
{
    let first = term_at(tokens, pos);
    if let Ok(left) = first.outcome {
        lemma_more_terms_left_leaning(tokens, first.next, left);
    }
}

/// Three terms joined by two operators are grouped from the left, whatever
/// the operators: `a o b p c` is read as `(a o b) p c`.
pub proof fn lemma_three_terms_fold_left(tokens: Seq<TokenView>, pos: int)
    requires
        term_at(tokens, pos).outcome is Ok,
        operator_at(tokens, pos + 1) is Some,
        term_at(tokens, pos + 2).outcome is Ok,
        operator_at(tokens, pos + 3) is Some,
        term_at(tokens, pos + 4).outcome is Ok,
        operator_at(tokens, pos + 5) is None,
    ensures
        expression_at(tokens, pos) == (Parsed {
            outcome: Ok(
                ExpressionView::BinaryOperation {
                    left: Box::new(
                        ExpressionView::BinaryOperation {
                            left: Box::new(term_at(tokens, pos).outcome->Ok_0),
                            operator: operator_at(tokens, pos + 1)->Some_0,
                            right: Box::new(term_at(tokens, pos + 2).outcome->Ok_0),
                        },
                    ),
                    operator: operator_at(tokens, pos + 3)->Some_0,
                    right: Box::new(term_at(tokens, pos + 4).outcome->Ok_0),
                },
            ),
            next: pos + 5,
        }),
{
    let a = term_at(tokens, pos).outcome->Ok_0;
    let b = term_at(tokens, pos + 2).outcome->Ok_0;
    let c = term_at(tokens, pos + 4).outcome->Ok_0;
    let ab = ExpressionView::BinaryOperation {
        left: Box::new(a),
        operator: operator_at(tokens, pos + 1)->Some_0,
        right: Box::new(b),
    };
    let abc = ExpressionView::BinaryOperation {
        left: Box::new(ab),
        operator: operator_at(tokens, pos + 3)->Some_0,
        right: Box::new(c),
    };
    assert(more_terms_at(tokens, pos + 5, abc) == (Parsed { outcome: Ok(abc), next: pos + 5 }));
    assert(more_terms_at(tokens, pos + 3, ab) == more_terms_at(tokens, pos + 5, abc));
    assert(more_terms_at(tokens, pos + 1, a) == more_terms_at(tokens, pos + 3, ab));
}

} // verus!
