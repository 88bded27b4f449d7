//! The Solidity parse tree, as `solang-parser` builds it from source text.
//!
//! `solang_parser::parse` turns a source into its parse tree and comments.
//! The functions here carry that tree, part for part, into the library's
//! own tree (`solidity_tree`), which the verified extraction reads: each
//! variant of the parser's types becomes the library variant of the same
//! shape, and what extraction never reads becomes `Other`.

use vstd::prelude::*;

use solang_parser::pt;
use solang_parser::pt::Expression as Ex;
use solang_parser::pt::Statement as St;
use solang_parser::pt::ContractPart as PtContractPart;
use solang_parser::pt::ImportPath as PtImportPath;
use solang_parser::pt::Visibility as PtVisibility;

use crate::parser::solidity::{FunctionName, ImportPath, SolImport, SolType, SolVisibility, TypeExpr};
use crate::parser::solidity_tree::{
    ContractKind, ContractPart, DefinitionKind, SolAttribute, SolComment, SolExpr, SolFunction,
    SolStmt, SourcePart,
};

verus! {

#[verifier::external_type_specification]
#[verifier::external_body]
pub struct ExLoc(pt::Loc);

#[verifier::external_type_specification]
#[verifier::external_body]
pub struct ExVisibility(PtVisibility);

#[verifier::external_type_specification]
#[verifier::external_body]
pub struct ExFunctionAttribute(pt::FunctionAttribute);

#[verifier::external_type_specification]
#[verifier::external_body]
pub struct ExVariableAttribute(pt::VariableAttribute);

#[verifier::external_type_specification]
#[verifier::external_body]
pub struct ExExpression(pt::Expression);

#[verifier::external_type_specification]
#[verifier::external_body]
pub struct ExType(pt::Type);

#[verifier::external_type_specification]
#[verifier::external_body]
pub struct ExImportPath(PtImportPath);

#[verifier::external_type_specification]
#[verifier::external_body]
pub struct ExImport(pt::Import);

#[verifier::external_type_specification]
#[verifier::external_body]
pub struct ExFunctionDefinition(pt::FunctionDefinition);

#[verifier::external_type_specification]
#[verifier::external_body]
pub struct ExStatement(pt::Statement);

#[verifier::external_type_specification]
#[verifier::external_body]
pub struct ExVariableDefinition(pt::VariableDefinition);

#[verifier::external_type_specification]
#[verifier::external_body]
pub struct ExContractPart(PtContractPart);

#[verifier::external_type_specification]
#[verifier::external_body]
pub struct ExContractDefinition(pt::ContractDefinition);

#[verifier::external_type_specification]
#[verifier::external_body]
pub struct ExSourceUnitPart(pt::SourceUnitPart);

#[verifier::external_type_specification]
#[verifier::external_body]
pub struct ExComment(pt::Comment);

/// Whether a source parses, and what its tree and comments are then: the
/// result of `solang_parser::parse` on it, carried into the library's tree.
pub uninterp spec fn solang_unit(source: Seq<char>) -> Option<(Seq<SourcePart>, Seq<SolComment>)>;

#[verifier::external_body]
fn offsets(loc: &pt::Loc) -> (r: Option<(usize, usize)>) {
    match loc {
        pt::Loc::File(_, start, end) => Some((*start, *end)),
        pt::Loc::Builtin => None,
        pt::Loc::CommandLine => None,
        pt::Loc::Implicit => None,
        pt::Loc::Codegen => None,
    }
}

#[verifier::external_body]
fn visibility_of(v: &PtVisibility) -> (r: SolVisibility) {
    match v {
        PtVisibility::Public(_) => SolVisibility::Public,
        PtVisibility::External(_) => SolVisibility::External,
        PtVisibility::Internal(_) => SolVisibility::Internal,
        PtVisibility::Private(_) => SolVisibility::Private,
    }
}

#[verifier::external_body]
fn function_attribute(a: &pt::FunctionAttribute) -> (r: SolAttribute) {
    match a {
        pt::FunctionAttribute::Visibility(v) => SolAttribute::Visibility(visibility_of(v)),
        pt::FunctionAttribute::BaseOrModifier(_, base) => SolAttribute::Invocation(
            offsets(&base.loc),
            base.name.identifiers.iter().map(|id| id.name.clone()).collect(),
        ),
        _ => SolAttribute::Other,
    }
}

#[verifier::external_body]
fn variable_attribute(a: &pt::VariableAttribute) -> (r: SolAttribute) {
    match a {
        pt::VariableAttribute::Visibility(v) => SolAttribute::Visibility(visibility_of(v)),
        _ => SolAttribute::Other,
    }
}

#[verifier::external_body]
fn type_expr(e: &pt::Expression) -> (r: TypeExpr) {
    match e {
        Ex::Type(_, ty) => TypeExpr::Type(sol_type(ty)),
        Ex::Variable(id) => TypeExpr::Variable(id.name.clone()),
        Ex::MemberAccess(_, x, m) => TypeExpr::MemberAccess(Box::new(type_expr(x)), m.name.clone()),
        Ex::ArraySubscript(_, x, n) => TypeExpr::ArraySubscript(
            Box::new(type_expr(x)),
            n.as_ref().map(|s| Box::new(type_expr(s))),
        ),
        _ => TypeExpr::Other,
    }
}

#[verifier::external_body]
fn sol_type(ty: &pt::Type) -> (r: SolType) {
    match ty {
        pt::Type::Int(n) => SolType::Int(*n),
        pt::Type::Uint(n) => SolType::Uint(*n),
        pt::Type::Bytes(n) => SolType::Bytes(*n),
        pt::Type::Mapping { key, value, .. } => {
            SolType::Mapping(Box::new(type_expr(key)), Box::new(type_expr(value)))
        },
        pt::Type::Function { .. } => SolType::Function,
        pt::Type::DynamicBytes => SolType::DynamicBytes,
        _ => plain_type(ty),
    }
}

#[verifier::external_body]
fn plain_type(ty: &pt::Type) -> (r: SolType) {
    match ty {
        pt::Type::Address => SolType::Address,
        pt::Type::AddressPayable => SolType::AddressPayable,
        pt::Type::Payable => SolType::Payable,
        pt::Type::Bool => SolType::Bool,
        pt::Type::String => SolType::String,
        _ => SolType::Rational,
    }
}

#[verifier::external_body]
fn import_path(path: &PtImportPath) -> (r: ImportPath) {
    match path {
        PtImportPath::Filename(lit) => ImportPath::Filename(lit.string.clone()),
        PtImportPath::Path(p) => ImportPath::Path(
            p.identifiers.iter().map(|id| id.name.clone()).collect(),
        ),
    }
}

#[verifier::external_body]
fn sol_import(import: &pt::Import) -> (r: SolImport) {
    match import {
        pt::Import::Plain(path, _) => SolImport::Plain(import_path(path)),
        pt::Import::GlobalSymbol(path, alias, _) => {
            SolImport::GlobalSymbol(import_path(path), alias.name.clone())
        },
        pt::Import::Rename(path, renames, _) => SolImport::Rename(
            import_path(path),
            renames.iter().map(|(id, _)| id.name.clone()).collect(),
        ),
    }
}

#[verifier::external_body]
fn boxed(e: &pt::Expression) -> (r: Box<SolExpr>) {
    Box::new(sol_expr(e))
}

#[verifier::external_body]
fn opt_boxed(e: &Option<Box<pt::Expression>>) -> (r: Option<Box<SolExpr>>) {
    e.as_ref().map(|x| boxed(x))
}

#[verifier::external_body]
fn sol_expr(e: &pt::Expression) -> (r: SolExpr) {
    match e {
        Ex::Variable(id) => SolExpr::Variable(id.name.clone()),
        Ex::MemberAccess(_, x, m) => SolExpr::MemberAccess(boxed(x), m.name.clone()),
        Ex::FunctionCall(loc, f, args) => {
            SolExpr::FunctionCall(offsets(loc), boxed(f), args.iter().map(sol_expr).collect())
        },
        Ex::FunctionCallBlock(loc, f, _) => SolExpr::FunctionCallBlock(offsets(loc), boxed(f)),
        Ex::ConditionalOperator(_, c, a, b) => SolExpr::Conditional(boxed(c), boxed(a), boxed(b)),
        _ => indexed_expr(e),
    }
}

#[verifier::external_body]
fn indexed_expr(e: &pt::Expression) -> (r: SolExpr) {
    match e {
        Ex::ArraySubscript(_, a, i) => SolExpr::ArraySubscript(boxed(a), opt_boxed(i)),
        Ex::ArraySlice(_, a, s, t) => SolExpr::ArraySlice(boxed(a), opt_boxed(s), opt_boxed(t)),
        Ex::ArrayLiteral(_, es) => SolExpr::ArrayLiteral(es.iter().map(sol_expr).collect()),
        Ex::Delete(_, x) => SolExpr::Delete(boxed(x)),
        _ => operator_expr(e),
    }
}

/// Operators, by the operands `Expression::components` gives: two for a
/// binary operator or an assignment, one for a unary operator, an
/// increment or decrement, parentheses or `new`.
#[verifier::external_body]
fn operator_expr(e: &pt::Expression) -> (r: SolExpr) {
    match e.components() {
        (Some(l), Some(r)) => SolExpr::Binary(boxed(l), boxed(r)),
        (Some(x), None) => SolExpr::Unary(boxed(x)),
        (None, Some(x)) => SolExpr::Unary(boxed(x)),
        (None, None) => SolExpr::Other,
    }
}

#[verifier::external_body]
fn stmt_box(s: &pt::Statement) -> (r: Box<SolStmt>) {
    Box::new(sol_stmt(s))
}

#[verifier::external_body]
fn sol_stmt(s: &pt::Statement) -> (r: SolStmt) {
    match s {
        St::Expression(_, e) => SolStmt::Expression(sol_expr(e)),
        St::VariableDefinition(_, _, init) => SolStmt::VariableDefinition(init.as_ref().map(sol_expr)),
        St::If(_, c, t, f) => SolStmt::If(sol_expr(c), stmt_box(t), f.as_ref().map(|x| stmt_box(x))),
        St::While(_, c, b) => SolStmt::While(sol_expr(c), stmt_box(b)),
        St::DoWhile(_, b, c) => SolStmt::DoWhile(stmt_box(b), sol_expr(c)),
        _ => compound_stmt(s),
    }
}

#[verifier::external_body]
fn compound_stmt(s: &pt::Statement) -> (r: SolStmt) {
    match s {
        St::For(_, init, c, u, b) => SolStmt::For(
            init.as_ref().map(|x| stmt_box(x)),
            c.as_ref().map(|x| sol_expr(x)),
            u.as_ref().map(|x| sol_expr(x)),
            b.as_ref().map(|x| stmt_box(x)),
        ),
        St::Block { statements, .. } => SolStmt::Block(statements.iter().map(sol_stmt).collect()),
        _ => flow_stmt(s),
    }
}

#[verifier::external_body]
fn flow_stmt(s: &pt::Statement) -> (r: SolStmt) {
    match s {
        St::Return(_, v) => SolStmt::Return(v.as_ref().map(sol_expr)),
        St::Emit(_, e) => SolStmt::Emit(sol_expr(e)),
        St::Try(_, e, _, clauses) => SolStmt::Try(
            sol_expr(e),
            clauses.iter().map(|c| match c {
                pt::CatchClause::Simple(_, _, body) => sol_stmt(body),
                pt::CatchClause::Named(_, _, _, body) => sol_stmt(body),
            }).collect(),
        ),
        _ => SolStmt::Other,
    }
}

#[verifier::external_body]
fn function_name(func: &pt::FunctionDefinition) -> (r: FunctionName) {
    match func.ty {
        pt::FunctionTy::Constructor => FunctionName::Constructor,
        pt::FunctionTy::Fallback => FunctionName::Fallback,
        pt::FunctionTy::Receive => FunctionName::Receive,
        pt::FunctionTy::Function => FunctionName::Named(func.name.as_ref().map(|n| n.name.clone())),
        pt::FunctionTy::Modifier => FunctionName::Named(func.name.as_ref().map(|n| n.name.clone())),
    }
}

#[verifier::external_body]
fn sol_function(func: &pt::FunctionDefinition) -> (r: SolFunction) {
    SolFunction {
        name: function_name(func),
        attributes: func.attributes.iter().map(function_attribute).collect(),
        loc: offsets(&func.loc),
        body: func.body.as_ref().map(sol_stmt),
    }
}

#[verifier::external_body]
fn variable_part(var: &pt::VariableDefinition) -> (r: ContractPart) {
    ContractPart::Variable(
        var.name.as_ref().map(|n| n.name.clone()),
        var.attrs.iter().map(variable_attribute).collect(),
        type_expr(&var.ty),
        offsets(&var.loc),
    )
}

#[verifier::external_body]
fn contract_part(part: &PtContractPart) -> (r: ContractPart) {
    match part {
        PtContractPart::FunctionDefinition(f) => ContractPart::Function(sol_function(f)),
        PtContractPart::VariableDefinition(var) => variable_part(var),
        PtContractPart::Using(u) => ContractPart::Using(u.ty.as_ref().map(type_expr)),
        _ => definition_part(part),
    }
}

#[verifier::external_body]
fn definition_part(part: &PtContractPart) -> (r: ContractPart) {
    match part {
        PtContractPart::EventDefinition(d) => ContractPart::Definition(DefinitionKind::Event, d.name.as_ref().map(|i| i.name.clone()), offsets(&d.loc)),
        PtContractPart::StructDefinition(d) => ContractPart::Definition(DefinitionKind::Struct, d.name.as_ref().map(|i| i.name.clone()), offsets(&d.loc)),
        _ => type_definition_part(part),
    }
}

#[verifier::external_body]
fn type_definition_part(part: &PtContractPart) -> (r: ContractPart) {
    match part {
        PtContractPart::EnumDefinition(d) => ContractPart::Definition(DefinitionKind::Enum, d.name.as_ref().map(|i| i.name.clone()), offsets(&d.loc)),
        PtContractPart::ErrorDefinition(d) => ContractPart::Definition(DefinitionKind::Error, d.name.as_ref().map(|i| i.name.clone()), offsets(&d.loc)),
        _ => ContractPart::Other,
    }
}

#[verifier::external_body]
fn contract_definition(def: &pt::ContractDefinition) -> (r: SourcePart) {
    let kind = match def.ty {
        pt::ContractTy::Contract(_) => ContractKind::Contract,
        pt::ContractTy::Interface(_) => ContractKind::Interface,
        pt::ContractTy::Library(_) => ContractKind::Library,
        pt::ContractTy::Abstract(_) => ContractKind::Abstract,
    };
    let name = def.name.as_ref().map(|n| n.name.clone());
    SourcePart::Contract(kind, name, offsets(&def.loc), def.parts.iter().map(contract_part).collect())
}

#[verifier::external_body]
fn source_part(part: &pt::SourceUnitPart) -> (r: SourcePart) {
    match part {
        pt::SourceUnitPart::ContractDefinition(def) => contract_definition(def),
        pt::SourceUnitPart::ImportDirective(import) => SourcePart::Import(sol_import(import)),
        pt::SourceUnitPart::FunctionDefinition(func) => SourcePart::Function(sol_function(func)),
        _ => definition_unit_part(part),
    }
}

#[verifier::external_body]
fn definition_unit_part(part: &pt::SourceUnitPart) -> (r: SourcePart) {
    match part {
        pt::SourceUnitPart::StructDefinition(d) => SourcePart::Definition(DefinitionKind::Struct, d.name.as_ref().map(|i| i.name.clone()), offsets(&d.loc)),
        pt::SourceUnitPart::EnumDefinition(d) => SourcePart::Definition(DefinitionKind::Enum, d.name.as_ref().map(|i| i.name.clone()), offsets(&d.loc)),
        _ => event_unit_part(part),
    }
}

#[verifier::external_body]
fn event_unit_part(part: &pt::SourceUnitPart) -> (r: SourcePart) {
    match part {
        pt::SourceUnitPart::ErrorDefinition(d) => SourcePart::Definition(DefinitionKind::Error, d.name.as_ref().map(|i| i.name.clone()), offsets(&d.loc)),
        pt::SourceUnitPart::EventDefinition(d) => SourcePart::Definition(DefinitionKind::Event, d.name.as_ref().map(|i| i.name.clone()), offsets(&d.loc)),
        _ => SourcePart::Other,
    }
}

#[verifier::external_body]
fn sol_comment(comment: &pt::Comment) -> (r: SolComment) {
    match comment {
        pt::Comment::DocLine(loc, text) => SolComment::DocLine(offsets(loc), text.clone()),
        pt::Comment::DocBlock(loc, text) => SolComment::DocBlock(offsets(loc), text.clone()),
        pt::Comment::Line(..) => SolComment::Other,
        pt::Comment::Block(..) => SolComment::Other,
    }
}

/// `solang_parser::parse` on `source` (as file 0), its tree and comments
/// carried into the library's tree: `None` exactly when the parser reports
/// an error.
#[verifier::external_body]
pub fn solang_tree(source: &str) -> (r: Option<(Vec<SourcePart>, Vec<SolComment>)>)
    ensures
        match r {
            Some((parts, comments)) => solang_unit(source@) == Some((parts@, comments@)),
            None => solang_unit(source@) is None,
        },
{
    let (unit, comments) = solang_parser::parse(source, 0).ok()?;
    Some((unit.0.iter().map(source_part).collect(), comments.iter().map(sol_comment).collect()))
}

} // verus!
