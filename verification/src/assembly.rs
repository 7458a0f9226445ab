//! The assembly text of a program, stated over the views of the tree.
//!
//! The text has a data section and an instruction section. Values are
//! computed in `rax`; a binary operation keeps its left operand on the stack
//! while the right one is computed. Output goes through the `write` system
//! call, the end of the run through `exit`.

use vstd::prelude::*;
use crate::ast::{ASTNodeView, ExpressionView, StatementView, VariableDeclarationView};
use crate::lexer::is_operator;
use crate::text::decimal;

verus! {

/// The routine that turns the number in `rax` into text in the scratch buffer.
pub const INT_TO_STRING_ROUTINE: &'static str = "\nint_to_string:\n    xor rcx, rcx        ; Clear RCX (digit counter)\n    mov rbx, rdi        ; Save the buffer address in RBX\n    add rbx, 10         ; Point to the end of the buffer\n    mov byte [rbx], 0   ; Null-terminate the string\n\nconvert_loop:\n    xor rdx, rdx        ; Clear RDX (remainder)\n    mov rcx, 10         ; Load the divisor (10) into RCX\n    div rcx             ; Divide RAX by RCX, quotient in RAX, remainder in RDX\n    add dl, '0'         ; Convert remainder to ASCII\n    dec rbx             ; Move buffer pointer backward\n    mov [rbx], dl       ; Store ASCII character in buffer\n    inc rcx             ; Increment digit counter\n    test rax, rax       ; Check if quotient is 0\n    jnz convert_loop    ; Repeat if RAX is not 0\n\n    mov rdi, rbx        ; Update RDI to point to the start of the string\n    mov rbx, 10         ; Return the string length in RBX\n    ret\n";

/// Why a tree has no assembly text.
#[derive(Clone, Copy, Debug, PartialEq, Eq, Structural)]
pub enum CodegenError {
    /// The root of the tree is not a `Program`.
    UnsupportedNode,
    /// A binary operation with an operator other than `+`, `-`, `*`, `/`.
    UnsupportedOperator(char),
}

/// The number of bytes that `text` takes in UTF-8.
pub open spec fn utf8_len(text: Seq<char>) -> nat {
    vstd::utf8::encode_utf8(text).len()
}

/// The first operator of `e` that has no instruction, in the order in which
/// the operations are completed: left operand, right operand, then the
/// operation itself.
pub open spec fn unsupported_operator(e: ExpressionView) -> Option<char>
    decreases e,
{
    match e {
        ExpressionView::BinaryOperation { left, operator, right } => {
            if unsupported_operator(*left) is Some {
                unsupported_operator(*left)
            } else if unsupported_operator(*right) is Some {
                unsupported_operator(*right)
            } else if !is_operator(operator) {
                Some(operator)
            } else {
                None
            }
        },
        _ => None,
    }
}

/// The string literals of `e` in the order in which the traversal meets
/// them, up to the point where it stops at an operator without instruction.
pub open spec fn literals_met(e: ExpressionView) -> Seq<Seq<char>>
    decreases e,
{
    match e {
        ExpressionView::StringLiteral(text) => seq![text],
        ExpressionView::BinaryOperation { left, operator, right } => {
            if unsupported_operator(*left) is Some {
                literals_met(*left)
            } else {
                literals_met(*left) + literals_met(*right)
            }
        },
        _ => Seq::empty(),
    }
}

/// The instructions that combine `rax` with `rbx` by `operator`.
pub open spec fn operator_code(operator: char) -> Seq<char> {
    if operator == '+' {
        "add rax, rbx\n"@
    } else if operator == '-' {
        "sub rax, rbx\n"@
    } else if operator == '*' {
        "imul rax, rbx\n"@
    } else if operator == '/' {
        "xor rdx, rdx\nidiv rbx\n"@
    } else {
        Seq::empty()
    }
}

/// The instructions that leave the value of `e` in `rax`, where `base`
/// string literals were registered before.
pub open spec fn expression_code(e: ExpressionView, base: nat) -> Seq<char>
    decreases e,
{
    match e {
        ExpressionView::IntegerLiteral(value) => "mov rax, "@ + decimal(value as int) + "\n"@,
        ExpressionView::Variable(name) => "mov rax, ["@ + name + "]\n"@,
        ExpressionView::StringLiteral(_) => "mov rax, string_"@ + decimal(base as int) + "\n"@,
        ExpressionView::BinaryOperation { left, operator, right } => expression_code(*left, base)
            + "push rax\n"@ + expression_code(*right, base + literals_met(*left).len())
            + "pop rbx\n"@ + operator_code(operator),
    }
}

/// The instructions that write one item of a print statement. A string
/// literal is written from its constant, with one byte more than its text; any
/// other item is computed, converted in the scratch buffer and written from
/// there.
pub open spec fn item_code(item: ExpressionView, base: nat) -> Seq<char> {
    match item {
        ExpressionView::StringLiteral(text) => "mov rax, 1\nmov rdi, 1\nmov rsi, string_"@
            + decimal(base as int) + "\nmov rdx, "@ + decimal((utf8_len(text) + 1) as int) + "\nsyscall\n"@,
        _ => expression_code(item, base) + "mov rdi, buffer\n"@ + "call int_to_string\n"@
            + "mov rax, 1\nmov rdi, 1\nmov rsi, buffer\nmov rdx, rbx\nsyscall\n"@,
    }
}

/// The first operator without instruction among the items, in order.
pub open spec fn items_unsupported(items: Seq<ExpressionView>) -> Option<char>
    decreases items.len(),
{
    if items.len() == 0 {
        None
    } else if items_unsupported(items.drop_last()) is Some {
        items_unsupported(items.drop_last())
    } else {
        unsupported_operator(items.last())
    }
}

/// The string literals of the items, in order, up to the point where the
/// traversal stops.
pub open spec fn items_literals(items: Seq<ExpressionView>) -> Seq<Seq<char>>
    decreases items.len(),
{
    if items.len() == 0 {
        Seq::empty()
    } else if items_unsupported(items.drop_last()) is Some {
        items_literals(items.drop_last())
    } else {
        items_literals(items.drop_last()) + literals_met(items.last())
    }
}

/// The instructions that write the items, in order.
pub open spec fn items_code(items: Seq<ExpressionView>, base: nat) -> Seq<char>
    decreases items.len(),
{
    if items.len() == 0 {
        Seq::empty()
    } else {
        items_code(items.drop_last(), base) + item_code(
            items.last(),
            base + items_literals(items.drop_last()).len(),
        )
    }
}

/// The first operator without instruction in a statement.
pub open spec fn statement_unsupported(statement: StatementView) -> Option<char> {
    match statement {
        StatementView::Assignment(_, expression) => unsupported_operator(expression),
        StatementView::Print(items) => items_unsupported(items),
    }
}

/// The string literals that a statement registers, in order.
pub open spec fn statement_literals(statement: StatementView) -> Seq<Seq<char>> {
    match statement {
        StatementView::Assignment(_, expression) => literals_met(expression),
        StatementView::Print(items) => items_literals(items),
    }
}

/// The instructions of a statement, where `base` string literals were
/// registered before.
pub open spec fn statement_code(statement: StatementView, base: nat) -> Seq<char> {
    match statement {
        StatementView::Assignment(variable, expression) => expression_code(expression, base)
            + "mov ["@ + variable + "], rax\n"@,
        StatementView::Print(items) => items_code(items, base),
    }
}

/// The first operator without instruction among the statements, in order.
pub open spec fn statements_unsupported(statements: Seq<StatementView>) -> Option<char>
    decreases statements.len(),
{
    if statements.len() == 0 {
        None
    } else if statements_unsupported(statements.drop_last()) is Some {
        statements_unsupported(statements.drop_last())
    } else {
        statement_unsupported(statements.last())
    }
}

/// The string literals that the statements register, in order, up to the
/// point where the traversal stops.
pub open spec fn statements_literals(statements: Seq<StatementView>) -> Seq<Seq<char>>
    decreases statements.len(),
{
    if statements.len() == 0 {
        Seq::empty()
    } else if statements_unsupported(statements.drop_last()) is Some {
        statements_literals(statements.drop_last())
    } else {
        statements_literals(statements.drop_last()) + statement_literals(statements.last())
    }
}

/// The instructions of the statements, in order.
pub open spec fn statements_code(statements: Seq<StatementView>, base: nat) -> Seq<char>
    decreases statements.len(),
{
    if statements.len() == 0 {
        Seq::empty()
    } else {
        statements_code(statements.drop_last(), base) + statement_code(
            statements.last(),
            base + statements_literals(statements.drop_last()).len(),
        )
    }
}

/// One zeroed 8-byte cell for each name, labelled by the name.
pub open spec fn cells(names: Seq<Seq<char>>) -> Seq<char>
    decreases names.len(),
{
    if names.len() == 0 {
        Seq::empty()
    } else {
        cells(names.drop_last()) + names.last() + " dq 0\n"@
    }
}

/// The cells of all declared names, declaration by declaration.
pub open spec fn declaration_cells(declarations: Seq<VariableDeclarationView>) -> Seq<char>
    decreases declarations.len(),
{
    if declarations.len() == 0 {
        Seq::empty()
    } else {
        declaration_cells(declarations.drop_last()) + cells(declarations.last().names)
    }
}

/// One constant for each string literal, labelled by its index and closed
/// by a zero byte.
pub open spec fn string_constants(literals: Seq<Seq<char>>) -> Seq<char>
    decreases literals.len(),
{
    if literals.len() == 0 {
        Seq::empty()
    } else {
        string_constants(literals.drop_last()) + "string_"@ + decimal(literals.len() - 1 as int)
            + " db '"@ + literals.last() + "', 0\n"@
    }
}

/// The data section: the cells, the scratch buffer, the string constants.
pub open spec fn data_section(
    declarations: Seq<VariableDeclarationView>,
    statements: Seq<StatementView>,
) -> Seq<char> {
    "section .data\n"@ + declaration_cells(declarations)
        + "buffer db 0, 0, 0, 0, 0, 0, 0, 0, 0, 0, 0\n"@ + string_constants(
        statements_literals(statements),
    )
}

/// The instruction section: the entry point, the statements, the conversion
/// routine.
pub open spec fn text_section(statements: Seq<StatementView>) -> Seq<char> {
    "section .text\n"@ + "global _start\n_start:\n"@ + statements_code(statements, 0)
        + INT_TO_STRING_ROUTINE@
}

/// The whole text of a program: data, instructions, and the exit sequence.
pub open spec fn program_text(
    declarations: Seq<VariableDeclarationView>,
    statements: Seq<StatementView>,
) -> Seq<char> {
    data_section(declarations, statements) + text_section(statements)
        + "mov rax, 60\nxor rdi, rdi\nsyscall\n"@
}

/// The assembly text of a tree. Only a `Program` has one, and only if each
/// of its operators is one of the four.
pub open spec fn assembly(tree: ASTNodeView) -> Result<Seq<char>, CodegenError> {
    match tree {
        ASTNodeView::Program { variable_section, statement_section } => {
            match statements_unsupported(statement_section) {
                Some(operator) => Err(CodegenError::UnsupportedOperator(operator)),
                None => Ok(program_text(variable_section, statement_section)),
            }
        },
        _ => Err(CodegenError::UnsupportedNode),
    }
}

/// A print statement without items writes nothing, registers no string
/// literal and cannot fail.
pub proof fn lemma_empty_print_emits_nothing(base: nat)
    ensures
        statement_code(StatementView::Print(Seq::empty()), base) == Seq::<char>::empty(),
        statement_literals(StatementView::Print(Seq::empty())) == Seq::<Seq<char>>::empty(),
        statement_unsupported(StatementView::Print(Seq::empty())) is None,
{
}

} // verus!
