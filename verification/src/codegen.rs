//! The code generator: one walk over the tree, which writes the assembly text.

use vstd::prelude::*;
use crate::assembly::{
    CodegenError,
    INT_TO_STRING_ROUTINE,
    assembly,
    cells,
    data_section,
    declaration_cells,
    expression_code,
    items_code,
    items_literals,
    items_unsupported,
    literals_met,
    program_text,
    statement_code,
    statement_literals,
    statement_unsupported,
    statements_code,
    statements_literals,
    statements_unsupported,
    string_constants,
    text_section,
    unsupported_operator,
};
use crate::ast::{
    ASTNode,
    ASTNodeView,
    Expression,
    ExpressionView,
    Statement,
    StatementView,
    declaration_views,
    expression_views,
    statement_views,
    string_views,
};
use crate::text::{push_decimal, push_digits};

verus! {

/// Writes the instructions that leave the value of `expr` in `rax`, and
/// registers the string literals that it holds.
fn generate_expression(expr: &Expression, string_literals: &mut Vec<String>) -> (r: Result<
    String,
    CodegenError,
>)
    ensures
        string_views(final(string_literals)@) == string_views(old(string_literals)@)
            + literals_met(expr@),
        match r {
            Ok(code) => unsupported_operator(expr@) is None && code@ == expression_code(
                expr@,
                old(string_literals)@.len(),
            ),
            Err(error) => unsupported_operator(expr@) matches Some(operator) && error
                == CodegenError::UnsupportedOperator(operator),
        },
    decreases expr,
{
    let ghost before = string_views(string_literals@);
    match expr {
        Expression::IntegerLiteral(value) => {
            let mut code = String::new();
            code.append("mov rax, ");
            push_decimal(&mut code, *value);
            code.append("\n");
            assert(string_views(string_literals@) =~= before + literals_met(expr@));
            Ok(code)
        },
        Expression::Variable(name) => {
            let mut code = String::new();
            code.append("mov rax, [");
            code.append(name.as_str());
            code.append("]\n");
            assert(string_views(string_literals@) =~= before + literals_met(expr@));
            Ok(code)
        },
        Expression::BinaryOperation { left, operator, right } => {
            let mut code = String::new();
            let first = generate_expression(left, string_literals)?;
            code.append(first.as_str());
            code.append("push rax\n");
            let second = generate_expression(right, string_literals)?;
            code.append(second.as_str());
            code.append("pop rbx\n");
            assert(string_views(string_literals@) =~= before + literals_met(expr@));
            if *operator == '+' {
                code.append("add rax, rbx\n");
            } else if *operator == '-' {
                code.append("sub rax, rbx\n");
            } else if *operator == '*' {
                code.append("imul rax, rbx\n");
            } else if *operator == '/' {
                code.append("xor rdx, rdx\nidiv rbx\n");
            } else {
                return Err(CodegenError::UnsupportedOperator(*operator));
            }
            assert(code@ =~= expression_code(expr@, old(string_literals)@.len()));
            Ok(code)
        },
        Expression::StringLiteral(text) => {
            let index = string_literals.len();
            string_literals.push(text.clone());
            let mut code = String::new();
            code.append("mov rax, string_");
            push_digits(&mut code, index as u128);
            code.append("\n");
            assert(string_views(string_literals@) =~= before + literals_met(expr@));
            Ok(code)
        },
    }
}

/// Writes the instructions of one statement, and registers the string
/// literals that it holds.
fn generate_statement(stmt: &Statement, string_literals: &mut Vec<String>) -> (r: Result<
    String,
    CodegenError,
>)
    ensures
        string_views(final(string_literals)@) == string_views(old(string_literals)@)
            + statement_literals(stmt@),
        match r {
            Ok(code) => statement_unsupported(stmt@) is None && code@ == statement_code(
                stmt@,
                old(string_literals)@.len(),
            ),
            Err(error) => statement_unsupported(stmt@) matches Some(operator) && error
                == CodegenError::UnsupportedOperator(operator),
        },
{
    let ghost before = string_views(string_literals@);
    let ghost base = string_literals@.len();
    let mut code = String::new();
    match stmt {
        Statement::Assignment(variable, expression) => {
            let value = generate_expression(expression, string_literals)?;
            code.append(value.as_str());
            code.append("mov [");
            code.append(variable.as_str());
            code.append("], rax\n");
            assert(code@ =~= statement_code(stmt@, base));
        },
        Statement::Print(items) => {
            let ghost views = expression_views(items@);
            assert(string_views(string_literals@) =~= before + items_literals(views.take(0)));
            for at in 0..items.len()
                invariant
                    views == expression_views(items@),
                    stmt@ == StatementView::Print(views),
                    before == string_views(old(string_literals)@),
                    base == old(string_literals)@.len(),
                    items_unsupported(views.take(at as int)) is None,
                    string_views(string_literals@) == before + items_literals(
                        views.take(at as int),
                    ),
                    code@ == items_code(views.take(at as int), base),
            {
                let ghost done = views.take(at as int);
                let ghost registered = string_views(string_literals@);
                assert(views.take(at + 1).drop_last() =~= done);
                assert(views.take(at + 1).last() == items@[at as int]@);
                match &items[at] {
                    Expression::StringLiteral(text) => {
                        let index = string_literals.len();
                        string_literals.push(text.clone());
                        code.append("mov rax, 1\nmov rdi, 1\nmov rsi, string_");
                        push_digits(&mut code, index as u128);
                        code.append("\nmov rdx, ");
                        push_digits(&mut code, text.as_str().as_bytes().len() as u128 + 1);
                        code.append("\nsyscall\n");
                        assert(string_views(string_literals@) =~= registered + seq![text@]);
                    },
                    other => {
                        match generate_expression(other, string_literals) {
                            Ok(value) => {
                                code.append(value.as_str());
                            },
                            Err(error) => {
                                assert(string_views(string_literals@) =~= before + items_literals(
                                    views.take(at + 1),
                                ));
                                proof {
                                    lemma_items_stop(views, at + 1);
                                }
                                return Err(error);
                            },
                        }
                        code.append("mov rdi, buffer\n");
                        code.append("call int_to_string\n");
                        code.append("mov rax, 1\nmov rdi, 1\nmov rsi, buffer\nmov rdx, rbx\nsyscall\n");
                    },
                }
                assert(string_views(string_literals@) =~= before + items_literals(
                    views.take(at + 1),
                ));
                assert(code@ =~= items_code(views.take(at + 1), base));
            }
            assert(views.take(items.len() as int) =~= views);
        },
    }
    Ok(code)
}

/// Where the traversal of a prefix of the items has stopped, the traversal
/// of all items has stopped at the same place.
proof fn lemma_items_stop(items: Seq<ExpressionView>, upto: int)
    requires
        0 <= upto <= items.len(),
        items_unsupported(items.take(upto)) is Some,
    ensures
        items_unsupported(items) == items_unsupported(items.take(upto)),
        items_literals(items) == items_literals(items.take(upto)),
    decreases items.len() - upto,
{
    if upto < items.len() {
        assert(items.take(upto + 1).drop_last() =~= items.take(upto));
        lemma_items_stop(items, upto + 1);
    } else {
        assert(items.take(upto) =~= items);
    }
}

/// Where the traversal of a prefix of the statements has stopped, the
/// traversal of all statements has stopped at the same place.
proof fn lemma_statements_stop(statements: Seq<StatementView>, upto: int)
    requires
        0 <= upto <= statements.len(),
        statements_unsupported(statements.take(upto)) is Some,
    ensures
        statements_unsupported(statements) == statements_unsupported(statements.take(upto)),
    decreases statements.len() - upto,
{
    if upto < statements.len() {
        assert(statements.take(upto + 1).drop_last() =~= statements.take(upto));
        lemma_statements_stop(statements, upto + 1);
    } else {
        assert(statements.take(upto) =~= statements);
    }
}

/// The routine that converts the number in `rax` to text: it divides by ten
/// until nothing is left and writes the digits into the scratch buffer from
/// its end backwards.
fn number_to_string_routine() -> (routine: String)
    ensures
        routine@ == INT_TO_STRING_ROUTINE@,
{
    INT_TO_STRING_ROUTINE.to_owned()
}

/// Writes the assembly text of a program.
///
/// The text declares one cell for every variable, the scratch buffer and one
/// constant for every string literal; its instructions are those of the
/// statements in order, the conversion routine and the exit sequence. A tree
/// whose root is no `Program`, or that holds an operator other than `+`,
/// `-`, `*`, `/`, has no text.
pub fn generate_code(ast: ASTNode) -> (r: Result<String, CodegenError>)
    ensures
        match r {
            Ok(text) => assembly(ast@) == Ok::<Seq<char>, CodegenError>(text@),
            Err(error) => assembly(ast@) == Err::<Seq<char>, CodegenError>(error),
        },
{
    let mut assembly = String::new();
    let mut data_section = String::new();
    data_section.append("section .data\n");
    let mut text_section = String::new();
    text_section.append("section .text\n");
    text_section.append("global _start\n_start:\n");
    let mut string_literals: Vec<String> = Vec::new();
    match ast {
        ASTNode::Program { variable_section, statement_section } => {
            let ghost declarations = declaration_views(variable_section@);
            let ghost statements = statement_views(statement_section@);
            for d in 0..variable_section.len()
                invariant
                    declarations == declaration_views(variable_section@),
                    data_section@ == "section .data\n"@ + declaration_cells(
                        declarations.take(d as int),
                    ),
            {
                let names = &variable_section[d].names;
                let ghost name_views = string_views(names@);
                let ghost so_far = data_section@;
                for n in 0..names.len()
                    invariant
                        name_views == string_views(names@),
                        data_section@ == so_far + cells(name_views.take(n as int)),
                {
                    data_section.append(names[n].as_str());
                    data_section.append(" dq 0\n");
                    assert(name_views.take(n + 1).drop_last() =~= name_views.take(n as int));
                    assert(data_section@ =~= so_far + cells(name_views.take(n + 1)));
                }
                assert(name_views.take(names.len() as int) =~= name_views);
                assert(declarations.take(d + 1).drop_last() =~= declarations.take(d as int));
                assert(declarations.take(d + 1).last().names == name_views);
                assert(data_section@ =~= "section .data\n"@ + declaration_cells(
                    declarations.take(d + 1),
                ));
            }
            assert(declarations.take(variable_section.len() as int) =~= declarations);
            data_section.append("buffer db 0, 0, 0, 0, 0, 0, 0, 0, 0, 0, 0\n");

            assert(string_views(string_literals@) =~= statements_literals(statements.take(0)));
            for s in 0..statement_section.len()
                invariant
                    statements == statement_views(statement_section@),
                    ast@ == (ASTNodeView::Program {
                        variable_section: declarations,
                        statement_section: statements,
                    }),
                    statements_unsupported(statements.take(s as int)) is None,
                    string_views(string_literals@) == statements_literals(
                        statements.take(s as int),
                    ),
                    text_section@ == "section .text\n"@ + "global _start\n_start:\n"@
                        + statements_code(statements.take(s as int), 0),
            {
                assert(statements.take(s + 1).drop_last() =~= statements.take(s as int));
                assert(statements.take(s + 1).last() == statement_section@[s as int]@);
                match generate_statement(&statement_section[s], &mut string_literals) {
                    Ok(code) => {
                        text_section.append(code.as_str());
                    },
                    Err(error) => {
                        proof {
                            lemma_statements_stop(statements, s + 1);
                        }
                        return Err(error);
                    },
                }
                assert(text_section@ =~= "section .text\n"@ + "global _start\n_start:\n"@
                    + statements_code(statements.take(s + 1), 0));
            }
            assert(statements.take(statement_section.len() as int) =~= statements);

            let ghost literals = string_views(string_literals@);
            let ghost so_far = data_section@;
            for i in 0..string_literals.len()
                invariant
                    literals == string_views(string_literals@),
                    data_section@ == so_far + string_constants(literals.take(i as int)),
            {
                data_section.append("string_");
                push_digits(&mut data_section, i as u128);
                data_section.append(" db '");
                data_section.append(string_literals[i].as_str());
                data_section.append("', 0\n");
                assert(literals.take(i + 1).drop_last() =~= literals.take(i as int));
                assert(data_section@ =~= so_far + string_constants(literals.take(i + 1)));
            }
            assert(literals.take(string_literals.len() as int) =~= literals);

            text_section.append(number_to_string_routine().as_str());
            assembly.append(data_section.as_str());
            assembly.append(text_section.as_str());
            assembly.append("mov rax, 60\nxor rdi, rdi\nsyscall\n");
            assert(assembly@ =~= program_text(declarations, statements));
            Ok(assembly)
        },
        _ => Err(CodegenError::UnsupportedNode),
    }
}

} // verus!
