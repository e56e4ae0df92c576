//! The parts of a Lua chunk the table readers look at, as plain values.
//!
//! nvim-treesitter's tables are parsed with `full_moon`, StyLua's own parser,
//! so anything StyLua accepts is read; what the parse gives back is turned
//! into these values, which the rest of the build works on.
use vstd::prelude::*;

use full_moon::ast::{Ast, Expression, Field, LastStmt, Stmt};
use full_moon::tokenizer::{Symbol, TokenReference, TokenType};

verus! {

/// A Lua expression, as far as the tables need it.
pub enum LuaValue {
    /// A table constructor and its fields, in source order.
    Table(Vec<LuaField>),
    /// A string literal, its quotes removed: `'a'`, `"a"` and `[[a]]` all
    /// read the same.
    Str(String),
    /// `true` or `false`.
    Bool(bool),
    /// A number literal, as written.
    Number(String),
    /// Anything else.
    Other,
}

/// One field of a table constructor.
pub enum LuaField {
    /// `name = value`.
    Named { key: String, value: LuaValue },
    /// `[key] = value`.
    Bracketed { key: LuaValue, value: LuaValue },
    /// A value with no key, as in `{ 'a', 'b' }`.
    Positional(LuaValue),
    /// A field of some other form.
    Other,
}

/// A statement of a chunk, as far as the tables need it.
pub enum LuaStatement {
    /// `local ... = ...`, with the expressions assigned, in order.
    Local(Vec<LuaValue>),
    /// Anything else.
    Other,
}

/// How a chunk ends.
pub enum LastStatement {
    /// `return ...`, with the expressions returned, in order.
    Return(Vec<LuaValue>),
    /// No final statement, or a `break`.
    Other,
}

/// A parsed Lua chunk.
pub struct LuaChunk {
    /// The statements before the last, in order.
    pub statements: Vec<LuaStatement>,
    /// The chunk's final statement.
    pub last: LastStatement,
}

#[verifier::external_type_specification]
#[verifier::external_body]
pub struct ExAst(Ast);

#[verifier::external_type_specification]
#[verifier::external_body]
pub struct ExExpression(Expression);

#[verifier::external_type_specification]
#[verifier::external_body]
pub struct ExField(Field);

#[verifier::external_type_specification]
#[verifier::external_body]
pub struct ExTokenReference(TokenReference);

/// What `full_moon::parse` makes of `source`: the chunk, or the text of the
/// first error it reports.
pub uninterp spec fn lua_parse(source: Seq<char>) -> Result<LuaChunk, Seq<char>>;

/// Parse Lua source with `full_moon::parse`.
///
/// Trusted: the chunk is `full_moon`'s syntax tree taken over field by field
/// into the values above, and the error is the `Display` text of the first
/// error it reports, `unknown error` if it reports none. The result depends on
/// `source` alone.
#[verifier::external_body]
pub fn parse_lua(source: &str) -> (r: Result<LuaChunk, String>)
    ensures
        match r {
            Ok(chunk) => lua_parse(source@) == Ok::<LuaChunk, Seq<char>>(chunk),
            Err(first) => lua_parse(source@) == Err::<LuaChunk, Seq<char>>(first@),
        },
{
    match full_moon::parse(source) {
        Ok(ast) => Ok(chunk_of(&ast)),
        Err(errors) => Err(
            errors.first().map(ToString::to_string).unwrap_or_else(|| "unknown error".to_string()),
        ),
    }
}

/// Takes a `full_moon` syntax tree over into a [`LuaChunk`], for [`parse_lua`].
#[verifier::external_body]
fn chunk_of(ast: &Ast) -> LuaChunk {
    let block = ast.nodes();
    let statements = block.stmts().map(|stmt| match stmt {
        Stmt::LocalAssignment(local) => LuaStatement::Local(local.expressions().iter().map(value_of).collect()),
        _ => LuaStatement::Other,
    }).collect();
    let last = match block.last_stmt() {
        Some(LastStmt::Return(returned)) => LastStatement::Return(returned.returns().iter().map(value_of).collect()),
        _ => LastStatement::Other,
    };
    LuaChunk { statements, last }
}

/// Takes a `full_moon` expression over into a [`LuaValue`], for [`parse_lua`].
#[verifier::external_body]
fn value_of(expr: &Expression) -> LuaValue {
    match expr {
        Expression::TableConstructor(table) => LuaValue::Table(table.fields().iter().map(field_of).collect()),
        Expression::String(token) => token_value(token),
        Expression::Symbol(token) => token_value(token),
        Expression::Number(token) => token_value(token),
        _ => LuaValue::Other,
    }
}

/// Takes a literal token over into a [`LuaValue`], for [`parse_lua`].
#[verifier::external_body]
fn token_value(token: &TokenReference) -> LuaValue {
    match token.token_type() {
        TokenType::StringLiteral { literal, .. } => LuaValue::Str(literal.to_string()),
        TokenType::Symbol { symbol: Symbol::True } => LuaValue::Bool(true),
        TokenType::Symbol { symbol: Symbol::False } => LuaValue::Bool(false),
        TokenType::Number { text } => LuaValue::Number(text.to_string()),
        _ => LuaValue::Other,
    }
}

/// Takes a `full_moon` table field over into a [`LuaField`], for [`parse_lua`].
#[verifier::external_body]
fn field_of(field: &Field) -> LuaField {
    match field {
        Field::NameKey { key, value, .. } => LuaField::Named { key: key.token().to_string(), value: value_of(value) },
        Field::ExpressionKey { key, value, .. } => LuaField::Bracketed { key: value_of(key), value: value_of(value) },
        Field::NoKey(value) => LuaField::Positional(value_of(value)),
        _ => LuaField::Other,
    }
}

} // verus!
