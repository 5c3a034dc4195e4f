//! What a step of an evaluation comes to.
//!
//! [`transition`] is the meaning of the language: it says, for every state
//! of a machine and every answer of its driver, what the machine is after
//! the step and what it asks for.

use vstd::prelude::*;
use crate::arith::{int_add, int_div, int_mul, int_neg, int_rem, int_sub};
use crate::ast::{
    decl_of, Assignment, BinaryOperator, Declaration, Expr, IndexKind, Literal, Operator,
    UnaryOperator,
};
use crate::builtin::{
    char_of, length_of, ord_of, printed, printed_lines, range_of, repeat_of, text_piece,
};
use crate::dec::{dec_is_zero, dec_neg, Dec, DecRequest, Rel, ONE_BITS};
use crate::env::{assigned, declared_binding, lookup, Constness, EntryModel, ScopeModel};
use crate::error::{ErrorModel, IOErrorModel};
use crate::machine::{ActionModel, EventModel, Frame, MachineModel, Pending, State, Step};
use crate::operators::{
    absent_from, assoc_put, bool_of, both, dec_of, entries_of, entry_at, int_of, items_of,
    key_absent_from, list_at, list_with, lists_joined, maps_joined, not_in, ordered, text_at,
    text_of, text_with,
};
use crate::text::{int_text, minus_count, parsed_int};
use crate::types::{infer_contained, Type, TypeModel};
use crate::value::{
    default_of, has_default, type_of, unbroken, value_eq, Builtin, Func, ValueModel,
};

verus! {

/// What an operator on two values comes to: a value, an error, or a
/// computation on decimals to ask for.
pub ghost enum OutcomeModel<'p> {
    Value(ValueModel<'p>),
    Fail(ErrorModel<'p>),
    Ask(DecRequest),
}

/// The outcome that is a value or an error.
pub open spec fn lift<'p>(r: Result<ValueModel<'p>, ErrorModel<'p>>) -> OutcomeModel<'p> {
    match r {
        Ok(v) => OutcomeModel::Value(v),
        Err(e) => OutcomeModel::Fail(e),
    }
}

/// The error that `op` is not defined on values of the given types.
pub open spec fn undefined<'p>(op: Operator, types: Seq<TypeModel>) -> ErrorModel<'p> {
    ErrorModel::InvalidOperatorOnTypes { op, types }
}

/// How many operands an expression has: the expressions that are evaluated,
/// in order, before the expression itself.
pub open spec fn operand_count(expr: &Expr) -> nat {
    match expr {
        Expr::Literal(Literal::List(items)) => items.len() as nat,
        Expr::Literal(Literal::Mapping(pairs)) => (2 * pairs.len()) as nat,
        Expr::FunctionCall { args, .. } => args.len() as nat,
        Expr::Minus(_) => 1,
        Expr::Not(_) => 1,
        Expr::Indexing(ix) => match ix.index {
            IndexKind::Single { .. } => 2,
            IndexKind::Range { .. } => 3,
        },
        Expr::Multiplication(_) => 2,
        Expr::Addition(_) => 2,
        Expr::Comparison(_) => 2,
        Expr::Logical(_) => 2,
        Expr::Return(Some(_)) => 1,
        Expr::Break(Some(_)) => 1,
        Expr::TypeCast(_, _) => 1,
        Expr::ForIn { .. } => 1,
        _ => 0,
    }
}

/// The operand `i` of an expression: the items of a list, the keys and
/// values of a map by turns, the arguments of a call; the operand of an
/// operator, or its left and its right one; the collection, the index or the
/// start, and the end of an indexing; what is returned, cast or walked.
pub open spec fn operand<'p>(expr: &'p Expr, i: int) -> &'p Expr
    recommends
        0 <= i < operand_count(expr),
{
    match expr {
        Expr::Literal(Literal::List(items)) => &items[i],
        Expr::Literal(Literal::Mapping(pairs)) => if i % 2 == 0 {
            &pairs[i / 2].0
        } else {
            &pairs[i / 2].1
        },
        Expr::FunctionCall { args, .. } => &args[i],
        Expr::Minus(u) => &*u.expr,
        Expr::Not(u) => &*u.expr,
        Expr::Indexing(ix) => if i == 0 {
            &*ix.collection
        } else {
            match &ix.index {
                IndexKind::Single { index } => &**index,
                IndexKind::Range { start, end } => if i == 1 {
                    &**start
                } else {
                    &**end
                },
            }
        },
        Expr::Multiplication(b) => if i == 0 {
            &*b.left
        } else {
            &*b.right
        },
        Expr::Addition(b) => if i == 0 {
            &*b.left
        } else {
            &*b.right
        },
        Expr::Comparison(b) => if i == 0 {
            &*b.left
        } else {
            &*b.right
        },
        Expr::Logical(b) => if i == 0 {
            &*b.left
        } else {
            &*b.right
        },
        Expr::Return(Some(e)) => &**e,
        Expr::Break(Some(e)) => &**e,
        Expr::TypeCast(e, _) => &**e,
        Expr::ForIn { collection, .. } => &**collection,
        _ => expr,
    }
}

/// The declarations that an expression starts with, each evaluated in the
/// scope that the expression opens.
pub open spec fn vars_of(expr: &Expr) -> Seq<Declaration> {
    match expr {
        Expr::FunctionDefinition { args, .. } => args@,
        Expr::If { vars, .. } => vars@,
        Expr::For { vars, .. } => vars@,
        Expr::ForWhile { vars, .. } => vars@,
        Expr::ForIn { vars, .. } => vars@,
        _ => Seq::empty(),
    }
}

/// The index of the first of `types` that differs from the first of all.
pub open spec fn first_other(types: Seq<TypeModel>) -> Option<int>
    decreases types.len(),
{
    if types.len() == 0 {
        None
    } else {
        match first_other(types.drop_last()) {
            Some(i) => Some(i),
            None => if types.last() != types[0] {
                Some(types.len() - 1)
            } else {
                None
            },
        }
    }
}

/// What a list literal comes to: the list of its items, which must all
/// have the type of the first.
pub open spec fn list_literal<'p>(items: Seq<ValueModel<'p>>) -> Result<
    ValueModel<'p>,
    ErrorModel<'p>,
> {
    match first_other(Seq::new(items.len(), |i: int| type_of(items[i]))) {
        Some(i) => Err(
            ErrorModel::MismatchedTypes {
                got: seq![TypeModel::List(Box::new(type_of(items[i])))],
                expected: seq![TypeModel::List(Box::new(type_of(items[0])))],
            },
        ),
        None => Ok(ValueModel::List(items)),
    }
}

/// The first `n` entries made of keys and values by turns, each put in
/// after those before it.
pub open spec fn paired_upto<'p>(flat: Seq<ValueModel<'p>>, n: int) -> Seq<
    (ValueModel<'p>, ValueModel<'p>),
>
    decreases n,
{
    if n <= 0 {
        Seq::empty()
    } else {
        assoc_put(paired_upto(flat, n - 1), flat[2 * n - 2], flat[2 * n - 1])
    }
}

/// The entries made of keys and values by turns, each put in after those
/// before it; a key that is left without value is dropped.
pub open spec fn paired<'p>(flat: Seq<ValueModel<'p>>) -> Seq<(ValueModel<'p>, ValueModel<'p>)> {
    paired_upto(flat, flat.len() as int / 2)
}

/// The type of a map with one entry.
pub open spec fn entry_type(entry: (ValueModel, ValueModel)) -> TypeModel {
    TypeModel::Mapping(Box::new(type_of(entry.0)), Box::new(type_of(entry.1)))
}

/// What a map literal comes to: the map of its entries, whose keys must all
/// have the type of the first key, and whose values that of the first value.
pub open spec fn map_literal<'p>(flat: Seq<ValueModel<'p>>) -> Result<
    ValueModel<'p>,
    ErrorModel<'p>,
> {
    let entries = paired(flat);
    match first_other(Seq::new(entries.len(), |i: int| entry_type(entries[i]))) {
        Some(i) => Err(
            ErrorModel::MismatchedTypes {
                got: seq![entry_type(entries[i])],
                expected: seq![entry_type(entries[0])],
            },
        ),
        None => Ok(ValueModel::Mapping(entries)),
    }
}

/// What an operator on two integers comes to, on two values.
pub open spec fn on_ints<'p>(
    l: ValueModel<'p>,
    r: ValueModel<'p>,
    f: spec_fn(i64, i64) -> OutcomeModel<'p>,
) -> OutcomeModel<'p> {
    match both(int_of(l), int_of(r)) {
        Ok((a, b)) => f(a, b),
        Err(e) => OutcomeModel::Fail(e),
    }
}

/// What an operator on two decimals comes to, on two values.
pub open spec fn on_decs<'p>(
    l: ValueModel<'p>,
    r: ValueModel<'p>,
    f: spec_fn(u64, u64) -> OutcomeModel<'p>,
) -> OutcomeModel<'p> {
    match both(dec_of(l), dec_of(r)) {
        Ok((a, b)) => f(a, b),
        Err(e) => OutcomeModel::Fail(e),
    }
}

/// What an operator on two texts comes to, on two values.
pub open spec fn on_texts<'p>(
    l: ValueModel<'p>,
    r: ValueModel<'p>,
    f: spec_fn(Seq<char>, Seq<char>) -> Seq<char>,
) -> OutcomeModel<'p> {
    match both(text_of(l), text_of(r)) {
        Ok((a, b)) => OutcomeModel::Value(ValueModel::Str(f(a, b))),
        Err(e) => OutcomeModel::Fail(e),
    }
}

/// What unary minus comes to: the negation of an integer or of a decimal.
/// The operator is chosen by the type of the value.
pub open spec fn negated<'p>(op: UnaryOperator, v: ValueModel<'p>) -> Result<
    ValueModel<'p>,
    ErrorModel<'p>,
> {
    match type_of(v) {
        TypeModel::Int => match int_of(v) {
            Ok(i) => Ok(ValueModel::Int(int_neg(i))),
            Err(e) => Err(e),
        },
        TypeModel::Dec => match dec_of(v) {
            Ok(d) => Ok(ValueModel::Dec(dec_neg(d))),
            Err(e) => Err(e),
        },
        _ => Err(undefined(Operator::UnaryOperator(op), seq![type_of(v)])),
    }
}

/// What `not` comes to: the negation of a boolean.
pub open spec fn inverted<'p>(op: UnaryOperator, v: ValueModel<'p>) -> Result<
    ValueModel<'p>,
    ErrorModel<'p>,
> {
    match type_of(v) {
        TypeModel::Bool => match bool_of(v) {
            Ok(b) => Ok(ValueModel::Bool(!b)),
            Err(e) => Err(e),
        },
        _ => Err(undefined(Operator::UnaryOperator(op), seq![type_of(v)])),
    }
}

/// What `+` and `-` come to. The operator is chosen by the types of the
/// two values.
///
/// On integers the sum and the difference, on decimals the request for
/// them. On strings `+` joins and `-` removes from the left every character
/// of the right. On lists `+` joins and `-` removes from the left every item
/// that equals one of the right. On maps `+` puts the entries of the right
/// into the left and `-` removes from the left the keys of the right.
pub open spec fn added<'p>(op: BinaryOperator, l: ValueModel<'p>, r: ValueModel<'p>)
    -> OutcomeModel<'p> {
    match (op, type_of(l), type_of(r)) {
        (BinaryOperator::Add, TypeModel::Int, TypeModel::Int) => on_ints(
            l,
            r,
            |a: i64, b: i64| OutcomeModel::Value(ValueModel::Int(int_add(a, b))),
        ),
        (BinaryOperator::Add, TypeModel::Dec, TypeModel::Dec) => on_decs(
            l,
            r,
            |a: u64, b: u64| OutcomeModel::Ask(DecRequest::Add(Dec { bits: a }, Dec { bits: b })),
        ),
        (BinaryOperator::Add, TypeModel::Str, TypeModel::Str) => on_texts(
            l,
            r,
            |a: Seq<char>, b: Seq<char>| a + b,
        ),
        (BinaryOperator::Add, TypeModel::List(_), TypeModel::List(_)) => lift(lists_joined(l, r)),
        (BinaryOperator::Add, TypeModel::Mapping(_, _), TypeModel::Mapping(_, _)) => lift(
            maps_joined(l, r),
        ),
        (BinaryOperator::Subtract, TypeModel::Int, TypeModel::Int) => on_ints(
            l,
            r,
            |a: i64, b: i64| OutcomeModel::Value(ValueModel::Int(int_sub(a, b))),
        ),
        (BinaryOperator::Subtract, TypeModel::Dec, TypeModel::Dec) => on_decs(
            l,
            r,
            |a: u64, b: u64|
                OutcomeModel::Ask(DecRequest::Subtract(Dec { bits: a }, Dec { bits: b })),
        ),
        (BinaryOperator::Subtract, TypeModel::Str, TypeModel::Str) => on_texts(
            l,
            r,
            |a: Seq<char>, b: Seq<char>| a.filter(not_in(b)),
        ),
        (BinaryOperator::Subtract, TypeModel::List(_), TypeModel::List(_)) => match both(
            items_of(l),
            items_of(r),
        ) {
            Ok((a, b)) => OutcomeModel::Value(ValueModel::List(a.filter(absent_from(b)))),
            Err(e) => OutcomeModel::Fail(e),
        },
        (BinaryOperator::Subtract, TypeModel::Mapping(_, _), TypeModel::Mapping(_, _)) => match both(
            entries_of(l),
            entries_of(r),
        ) {
            Ok((a, b)) => OutcomeModel::Value(ValueModel::Mapping(a.filter(key_absent_from(b)))),
            Err(e) => OutcomeModel::Fail(e),
        },
        _ => OutcomeModel::Fail(
            undefined(Operator::BinaryOperator(op), seq![type_of(l), type_of(r)]),
        ),
    }
}

/// What `*`, `/` and `%` come to: on integers the product, the quotient
/// and the remainder, on decimals the request for them. Division by zero,
/// for the quotient and for the remainder, is an error. The operator is chosen by the
/// types of the two values.
pub open spec fn multiplied<'p>(op: BinaryOperator, l: ValueModel<'p>, r: ValueModel<'p>)
    -> OutcomeModel<'p> {
    match (op, type_of(l), type_of(r)) {
        (BinaryOperator::Times, TypeModel::Int, TypeModel::Int) => on_ints(
            l,
            r,
            |a: i64, b: i64| OutcomeModel::Value(ValueModel::Int(int_mul(a, b))),
        ),
        (BinaryOperator::Times, TypeModel::Dec, TypeModel::Dec) => on_decs(
            l,
            r,
            |a: u64, b: u64|
                OutcomeModel::Ask(DecRequest::Multiply(Dec { bits: a }, Dec { bits: b })),
        ),
        (BinaryOperator::Divide, TypeModel::Int, TypeModel::Int) => on_ints(
            l,
            r,
            |a: i64, b: i64|
                if b == 0 {
                    OutcomeModel::Fail(ErrorModel::DivideByZero)
                } else {
                    OutcomeModel::Value(ValueModel::Int(int_div(a, b)))
                },
        ),
        (BinaryOperator::Divide, TypeModel::Dec, TypeModel::Dec) => on_decs(
            l,
            r,
            |a: u64, b: u64|
                if dec_is_zero(b) {
                    OutcomeModel::Fail(ErrorModel::DivideByZero)
                } else {
                    OutcomeModel::Ask(DecRequest::Divide(Dec { bits: a }, Dec { bits: b }))
                },
        ),
        (BinaryOperator::Modulo, TypeModel::Int, TypeModel::Int) => on_ints(
            l,
            r,
            |a: i64, b: i64|
                if b == 0 {
                    OutcomeModel::Fail(ErrorModel::DivideByZero)
                } else {
                    OutcomeModel::Value(ValueModel::Int(int_rem(a, b)))
                },
        ),
        (BinaryOperator::Modulo, TypeModel::Dec, TypeModel::Dec) => on_decs(
            l,
            r,
            |a: u64, b: u64|
                if dec_is_zero(b) {
                    OutcomeModel::Fail(ErrorModel::DivideByZero)
                } else {
                    OutcomeModel::Ask(DecRequest::Remainder(Dec { bits: a }, Dec { bits: b }))
                },
        ),
        _ => OutcomeModel::Fail(
            undefined(Operator::BinaryOperator(op), seq![type_of(l), type_of(r)]),
        ),
    }
}

/// What a comparison comes to.
pub open spec fn compared<'p>(op: BinaryOperator, l: ValueModel<'p>, r: ValueModel<'p>) -> Result<
    ValueModel<'p>,
    ErrorModel<'p>,
> {
    match op {
        BinaryOperator::Equal => Ok(ValueModel::Bool(value_eq(l, r))),
        BinaryOperator::NotEqual => Ok(ValueModel::Bool(!value_eq(l, r))),
        BinaryOperator::Greater => ordered(op, l, r, |rel: Rel| rel is Greater),
        BinaryOperator::GreaterEqual => ordered(op, l, r, |rel: Rel| !(rel is Less)),
        BinaryOperator::Less => ordered(op, l, r, |rel: Rel| rel is Less),
        BinaryOperator::LessEqual => ordered(op, l, r, |rel: Rel| !(rel is Greater)),
        _ => Err(undefined(Operator::BinaryOperator(op), seq![type_of(l), type_of(r)])),
    }
}

/// The error for an operand of `and` or `or` that is no boolean.
pub open spec fn no_bool<'p>(v: ValueModel<'p>) -> ErrorModel<'p> {
    ErrorModel::MismatchedTypes { got: seq![type_of(v)], expected: seq![TypeModel::Bool] }
}

/// What `and` and `or` come to. Both operands have been evaluated.
pub open spec fn combined<'p>(op: BinaryOperator, l: ValueModel<'p>, r: ValueModel<'p>) -> Result<
    ValueModel<'p>,
    ErrorModel<'p>,
> {
    match op {
        BinaryOperator::And => match (unbroken(l), unbroken(r)) {
            (ValueModel::Bool(a), ValueModel::Bool(b)) => Ok(ValueModel::Bool(a && b)),
            (ValueModel::Bool(_), _) => Err(no_bool(r)),
            _ => Err(no_bool(l)),
        },
        BinaryOperator::Or => match (unbroken(l), unbroken(r)) {
            (ValueModel::Bool(a), ValueModel::Bool(b)) => Ok(ValueModel::Bool(a || b)),
            (ValueModel::Bool(_), _) => Err(no_bool(r)),
            _ => Err(no_bool(l)),
        },
        _ => Err(
            undefined(Operator::BinaryOperator(op), seq![TypeModel::Bool, TypeModel::Bool]),
        ),
    }
}

/// Whether the type of `c` is that of a map whose keys have the type `t`.
pub open spec fn keyed_by(c: ValueModel, t: TypeModel) -> bool {
    match type_of(c) {
        TypeModel::Mapping(k, _) => *k == t,
        _ => false,
    }
}

/// What indexing comes to: a string or a list by an integer or a range of
/// integers, a map by one key of the type of its keys, and an empty map by
/// any one key, which it does not have. The operator is chosen by the types
/// of the values.
pub open spec fn indexed<'p>(
    op: BinaryOperator,
    c: ValueModel<'p>,
    start: ValueModel<'p>,
    end: Option<ValueModel<'p>>,
) -> Result<ValueModel<'p>, ErrorModel<'p>> {
    match (type_of(c), type_of(start)) {
        (TypeModel::Str, TypeModel::Int) => text_at(c, start, end),
        (TypeModel::List(_), TypeModel::Int) => list_at(c, start, end),
        _ => if end is None && (keyed_by(c, type_of(start)) || empty_map(c)) {
            entry_at(c, start)
        } else {
            Err(
                undefined(
                    Operator::BinaryOperator(op),
                    seq![
                        type_of(c),
                        type_of(start),
                        match end {
                            Some(e) => type_of(e),
                            None => type_of(start),
                        },
                    ],
                ),
            )
        },
    }
}

/// Whether a value is a map without entries.
pub open spec fn empty_map(c: ValueModel) -> bool {
    c is Mapping && c->Mapping_0.len() == 0
}

/// What the assignment of `element` to the place `index` of `collection`
/// comes to: the collection with the element in that place. A string and a
/// list take an integer as index; a map takes a key of the type of its keys,
/// and an empty map any key. The operator is chosen by the types of the
/// collection and the index, without their break wrappers.
pub open spec fn set_indexed<'p>(
    collection: ValueModel<'p>,
    index: ValueModel<'p>,
    element: ValueModel<'p>,
) -> Result<ValueModel<'p>, ErrorModel<'p>> {
    let c = unbroken(collection);
    let i = unbroken(index);
    match (type_of(c), type_of(i)) {
        (TypeModel::Str, TypeModel::Int) => text_with(collection, index, element),
        (TypeModel::List(_), TypeModel::Int) => list_with(collection, index, element),
        (TypeModel::Mapping(k, _), t) => if *k == t || empty_map(c) {
            match entries_of(collection) {
                Ok(entries) => Ok(ValueModel::Mapping(assoc_put(entries, index, element))),
                Err(e) => Err(e),
            }
        } else {
            Err(
                undefined(
                    Operator::BinaryOperator(BinaryOperator::SetIndexing),
                    seq![type_of(c), type_of(i)],
                ),
            )
        },
        _ => Err(
            undefined(
                Operator::BinaryOperator(BinaryOperator::SetIndexing),
                seq![type_of(c), type_of(i)],
            ),
        ),
    }
}

/// What the operator of an assignment makes of the value that the name has
/// and the value assigned.
pub open spec fn assign_op<'p>(op: BinaryOperator, current: ValueModel<'p>, v: ValueModel<'p>)
    -> OutcomeModel<'p> {
    match op {
        BinaryOperator::Is => OutcomeModel::Value(v),
        BinaryOperator::And => lift(combined(op, current, v)),
        BinaryOperator::Or => lift(combined(op, current, v)),
        BinaryOperator::Greater => lift(compared(op, current, v)),
        BinaryOperator::Less => lift(compared(op, current, v)),
        BinaryOperator::GreaterEqual => lift(compared(op, current, v)),
        BinaryOperator::LessEqual => lift(compared(op, current, v)),
        BinaryOperator::Equal => lift(compared(op, current, v)),
        BinaryOperator::NotEqual => lift(compared(op, current, v)),
        BinaryOperator::Add => added(op, current, v),
        BinaryOperator::Subtract => added(op, current, v),
        BinaryOperator::Times => multiplied(op, current, v),
        BinaryOperator::Divide => multiplied(op, current, v),
        BinaryOperator::Modulo => multiplied(op, current, v),
        _ => OutcomeModel::Fail(ErrorModel::InvalidAssignmentOperator(op)),
    }
}

/// What a declaration with the value `v` comes to: the environment with
/// the name bound in the scope `env`.
///
/// The type of the value is reconciled with the declared type. The
/// declaration fails where they cannot be reconciled, and, where the value
/// was given in the program, where the reconciled type is not the declared
/// one. It fails too where the name cannot be declared: in the root scope,
/// where the name is bound there already.
pub open spec fn declared<'p>(
    env: Seq<ScopeModel<'p>>,
    scope: usize,
    decl: &Declaration,
    v: ValueModel<'p>,
    given: bool,
) -> Result<Seq<ScopeModel<'p>>, ErrorModel<'p>> {
    let d = decl_of(*decl);
    let wrong = ErrorModel::MismatchedTypes {
        got: seq![type_of(v)],
        expected: seq![d.declared_type@],
    };
    match infer_contained(type_of(v), d.declared_type@) {
        None => Err(wrong),
        Some(t) => if given && t != d.declared_type@ {
            Err(wrong)
        } else {
            match declared_binding(
                env,
                scope as int,
                d.name@,
                EntryModel {
                    v,
                    c: if decl is Var {
                        Constness::Var
                    } else {
                        Constness::Const
                    },
                    t: d.declared_type@,
                },
            ) {
                Some(next) => Ok(next),
                None => Err(ErrorModel::IdentifierNotFound(d.name@)),
            }
        },
    }
}

/// The environment after the arguments from `i` on were assigned to the
/// parameters, and the error that ended the assignments, if one did.
pub open spec fn bound_args<'p>(
    env: Seq<ScopeModel<'p>>,
    scope: usize,
    decls: Seq<Declaration>,
    args: Seq<ValueModel<'p>>,
    i: int,
) -> (Seq<ScopeModel<'p>>, Option<ErrorModel<'p>>)
    decreases decls.len() - i,
{
    if i < 0 || i >= decls.len() || i >= args.len() {
        (env, None)
    } else {
        match assigned(env, scope as int, decl_of(decls[i]).name@, args[i], true) {
            Err(e) => (env, Some(e)),
            Ok(next) => bound_args(next, scope, decls, args, i + 1),
        }
    }
}

/// The items that a `for`-`in` loop walks: the characters of a string, each
/// as a string; the items of a list; the keys of a map.
pub open spec fn walked<'p>(c: ValueModel<'p>) -> Result<Seq<ValueModel<'p>>, ErrorModel<'p>> {
    match c {
        ValueModel::Str(s) => Ok(Seq::new(s.len(), |i: int| ValueModel::Str(seq![s[i]]))),
        ValueModel::List(items) => Ok(items),
        ValueModel::Mapping(entries) => Ok(Seq::new(entries.len(), |i: int| entries[i].0)),
        _ => Err(
            ErrorModel::MismatchedTypes {
                got: seq![type_of(c)],
                expected: seq![
                    TypeModel::Str,
                    TypeModel::List(Box::new(TypeModel::Unit)),
                    TypeModel::Mapping(Box::new(TypeModel::Unit), Box::new(TypeModel::Unit)),
                ],
            },
        ),
    }
}

/// The step that follows an outcome.
pub open spec fn follow<'p>(m: MachineModel<'p>, o: OutcomeModel<'p>) -> Step<'p> {
    match o {
        OutcomeModel::Value(v) => m.give(v),
        OutcomeModel::Fail(e) => m.fail(e),
        OutcomeModel::Ask(request) => m.ask(Pending::Dec, ActionModel::Compute(request)),
    }
}

/// The step that binds the name of a declaration to `v` and yields `v`.
pub open spec fn bind<'p>(
    m: MachineModel<'p>,
    decl: &'p Declaration,
    env: usize,
    v: ValueModel<'p>,
    given: bool,
) -> Step<'p> {
    match declared(m.env, env, decl, v, given) {
        Ok(next) => m.in_env(next).give(v),
        Err(e) => m.fail(e),
    }
}

/// The step that evaluates a declaration: its value is that of its
/// expression, or, without one, the default value of its type; a type
/// without default value is an error.
pub open spec fn declare<'p>(m: MachineModel<'p>, decl: &'p Declaration, env: usize) -> Step<'p> {
    let d = decl_of(*decl);
    match d.expr {
        Some(init) => m.push_frame(Frame::Declare { decl, env }).go(State::Eval { expr: &*init, env }),
        None => if has_default(d.declared_type@) {
            bind(m, decl, env, default_of(d.declared_type@), false)
        } else {
            m.fail(ErrorModel::NotImplemented)
        },
    }
}

/// The step that assigns `v` to `name` as seen from the scope `env`, and
/// yields it.
pub open spec fn store<'p>(m: MachineModel<'p>, name: Seq<char>, env: usize, v: ValueModel<'p>)
    -> Step<'p> {
    match assigned(m.env, env as int, name, v, false) {
        Ok(next) => m.in_env(next).give(v),
        Err(e) => m.fail(e),
    }
}

/// The step that calls a function of the language.
pub open spec fn native<'p>(m: MachineModel<'p>, builtin: Builtin, args: Seq<ValueModel<'p>>)
    -> Step<'p> {
    match builtin {
        Builtin::Print => m.ask(Pending::Written, ActionModel::Print(printed(args))),
        Builtin::PrintLine => m.ask(
            Pending::Written,
            ActionModel::Print(
                if args.len() == 0 {
                    text_piece("\n"@)
                } else {
                    printed_lines(args)
                },
            ),
        ),
        Builtin::Len => m.settle(length_of(args)),
        Builtin::Range => m.settle(range_of(args)),
        Builtin::Repeat => m.settle(repeat_of(args)),
        Builtin::InputChar => m.ask(Pending::Char, ActionModel::ReadChar),
        Builtin::InputLine => m.ask(Pending::Line, ActionModel::ReadLine),
        Builtin::InputAll => m.ask(Pending::All, ActionModel::ReadAll),
        Builtin::Ordinal => m.settle(ord_of(args)),
        Builtin::Character => m.settle(char_of(args)),
    }
}

/// The step that calls the function that `name` is bound to, with the
/// values `args`.
///
/// A function of the program takes as many arguments as it has parameters.
/// Each is assigned to its parameter in the scope that the function owns,
/// whether the parameter is constant or not; then the body is evaluated in
/// a new scope inside that one, the scope is closed, and the break wrapper
/// is taken off the value of the body.
pub open spec fn call<'p>(
    m: MachineModel<'p>,
    name: Seq<char>,
    env: usize,
    args: Seq<ValueModel<'p>>,
) -> Step<'p> {
    match lookup(m.env, env as int, name) {
        None => m.fail(ErrorModel::IdentifierNotFound(name)),
        Some(entry) => match unbroken(entry.v) {
            ValueModel::Func(Func::Native(builtin)) => native(m, builtin, args),
            ValueModel::Func(Func::Declared { decls, ret, body, env: closed }) => if decls.len()
                != args.len() {
                m.fail(
                    ErrorModel::NotEnoughArguments {
                        want: decls.len(),
                        got: args.len() as usize,
                    },
                )
            } else {
                let (next, failure) = bound_args(m.env, closed, decls@, args, 0);
                match failure {
                    Some(e) => m.in_env(next).fail(e),
                    None => m.in_env(next).open_scope(closed).push_frame(Frame::Unbreak).push_frame(
                        Frame::Close { env: next.len() as usize },
                    ).push_frame(
                        Frame::Sequence { exprs: body, next: 0, env: next.len() as usize },
                    ).go(State::Ready),
                }
            },
            _ => m.fail(ErrorModel::CallingNonCallable { name }),
        },
    }
}

/// The step that starts the rounds of a `for`-`in` loop, after its
/// declarations: the first of them must declare a variable, and the topmost
/// value must be a string, a list or a map.
pub open spec fn for_in_start<'p>(m: MachineModel<'p>, owner: &'p Expr, env: usize) -> Step<'p> {
    if vars_of(owner).len() == 0 || m.values.len() == 0 {
        m.fail(ErrorModel::NotImplemented)
    } else if !(vars_of(owner)[0] is Var) {
        m.fail(ErrorModel::ForInFirstDeclMustBeVar)
    } else {
        match walked(m.top(0)) {
            Err(e) => m.fail(e),
            Ok(items) => m.drop_values(1).push_value(ValueModel::List(items)).push_value(
                ValueModel::Unit,
            ).push_frame(Frame::ForIn { expr: owner, env, next: 0 }).go(State::Ready),
        }
    }
}

/// The body of a loop.
pub open spec fn body_of<'p>(expr: &'p Expr) -> &'p Vec<Expr> {
    match expr {
        Expr::For { body, .. } => body,
        Expr::ForWhile { body, .. } => body,
        Expr::ForIn { body, .. } => body,
        Expr::FunctionDefinition { body, .. } => body,
        Expr::Block(body) => body,
        _ => arbitrary(),
    }
}

/// The step that starts the round `next` of a `for`-`in` loop, or ends the
/// loop: the list of items lies under the topmost value, the last value of
/// the body.
pub open spec fn for_in_next<'p>(m: MachineModel<'p>, expr: &'p Expr, env: usize, next: usize)
    -> Step<'p> {
    if m.values.len() < 2 || !(m.top(1) is List) || !(expr is ForIn) || vars_of(expr).len() == 0 {
        m.fail(ErrorModel::NotImplemented)
    } else {
        let items = m.top(1)->List_0;
        if next < items.len() {
            match assigned(
                m.env,
                env as int,
                decl_of(vars_of(expr)[0]).name@,
                items[next as int],
                false,
            ) {
                Err(e) => m.fail(e),
                Ok(env2) => m.in_env(env2).push_frame(
                    Frame::ForIn { expr, env, next: (next + 1) as usize },
                ).push_frame(Frame::Sequence { exprs: body_of(expr), next: 0, env }).go(
                    State::Ready,
                ),
            }
        } else {
            m.drop_values(2).give(m.top(0))
        }
    }
}

/// The step that follows the declarations of `owner`.
pub open spec fn after_vars<'p>(m: MachineModel<'p>, owner: &'p Expr, env: usize) -> Step<'p> {
    match owner {
        Expr::FunctionDefinition { args, ret, body } => m.give(
            ValueModel::Func(Func::Declared { decls: args, ret, body, env }),
        ),
        Expr::If { condition, .. } => m.push_frame(Frame::IfCond { expr: owner, env }).go(
            State::Eval { expr: &**condition, env },
        ),
        Expr::For { body, .. } => m.push_frame(Frame::Loop { expr: owner, env }).push_frame(
            Frame::Sequence { exprs: body, next: 0, env },
        ).go(State::Ready),
        Expr::ForWhile { condition, .. } => m.push_value(ValueModel::Unit).push_frame(
            Frame::WhileCond { expr: owner, env },
        ).go(State::Eval { expr: &**condition, env }),
        Expr::ForIn { .. } => for_in_start(m, owner, env),
        _ => m.fail(ErrorModel::NotImplemented),
    }
}

/// The step that casts the value `v` to the type `ty`.
///
/// Integers, decimals, strings and booleans are cast to each other: a
/// number to a boolean by whether it is not zero, a string by whether it is
/// not empty; a boolean to one or zero; anything to a string as it is
/// written; a string to a number as it reads. What needs arithmetic on
/// decimals is asked for. A list is cast item by item, a map key by key and
/// value by value. Nothing else is cast.
pub open spec fn cast<'p>(m: MachineModel<'p>, v: ValueModel<'p>, ty: &'p Type) -> Step<'p> {
    match (v, ty) {
        (ValueModel::Int(_), Type::Int) => m.give(v),
        (ValueModel::Dec(d), Type::Int) => m.ask(
            Pending::Int,
            ActionModel::Compute(DecRequest::ToInt(Dec { bits: d })),
        ),
        (ValueModel::Str(s), Type::Int) => if minus_count(s) >= 2 {
            m.fail(ErrorModel::StringToValueParseFailed(v, ty@))
        } else {
            match parsed_int(s) {
                Some(i) => m.give(ValueModel::Int(i)),
                None => m.fail(ErrorModel::StringToValueParseFailed(v, ty@)),
            }
        },
        (ValueModel::Bool(b), Type::Int) => m.give(
            ValueModel::Int(
                if b {
                    1
                } else {
                    0
                },
            ),
        ),
        (ValueModel::Int(i), Type::Dec) => m.ask(
            Pending::Dec,
            ActionModel::Compute(DecRequest::FromInt(i)),
        ),
        (ValueModel::Dec(_), Type::Dec) => m.give(v),
        (ValueModel::Str(s), Type::Dec) => m.push_value(v).ask(
            Pending::Parsed { ty },
            ActionModel::ParseDec(s),
        ),
        (ValueModel::Bool(b), Type::Dec) => m.give(
            ValueModel::Dec(
                if b {
                    ONE_BITS
                } else {
                    0
                },
            ),
        ),
        (ValueModel::Int(i), Type::Str) => m.give(ValueModel::Str(int_text(i as int))),
        (ValueModel::Dec(d), Type::Str) => m.ask(
            Pending::Text,
            ActionModel::Compute(DecRequest::ToText(Dec { bits: d })),
        ),
        (ValueModel::Str(_), Type::Str) => m.give(v),
        (ValueModel::Bool(b), Type::Str) => m.give(
            ValueModel::Str(
                if b {
                    "true"@
                } else {
                    "false"@
                },
            ),
        ),
        (ValueModel::Int(i), Type::Bool) => m.give(ValueModel::Bool(i != 0)),
        (ValueModel::Dec(d), Type::Bool) => m.give(ValueModel::Bool(!dec_is_zero(d))),
        (ValueModel::Str(s), Type::Bool) => m.give(ValueModel::Bool(s.len() != 0)),
        (ValueModel::Bool(_), Type::Bool) => m.give(v),
        (ValueModel::List(_), Type::List(item)) => m.push_value(v).push_frame(
            Frame::CastItems { ty: &**item, next: 0 },
        ).go(State::Ready),
        (ValueModel::Mapping(_), Type::Mapping(key, value)) => m.push_value(v).push_frame(
            Frame::CastEntries { key: &**key, value: &**value, next: 0 },
        ).go(State::Ready),
        _ => m.fail(ErrorModel::CannotCastValueToType(v, ty@)),
    }
}

/// The step that evaluates `expr` once the values of its operands, `args`,
/// are there.
pub open spec fn apply<'p>(
    m: MachineModel<'p>,
    expr: &'p Expr,
    env: usize,
    args: Seq<ValueModel<'p>>,
) -> Step<'p> {
    if args.len() < operand_count(expr) {
        m.fail(ErrorModel::NotImplemented)
    } else {
        apply_operator(m, expr, env, args)
    }
}

/// The step that evaluates `expr` on the values of its operands, of which
/// none is missing.
pub open spec fn apply_operator<'p>(
    m: MachineModel<'p>,
    expr: &'p Expr,
    env: usize,
    args: Seq<ValueModel<'p>>,
) -> Step<'p> {
    match expr {
        Expr::Literal(Literal::List(_)) => m.settle(list_literal(args)),
        Expr::Literal(Literal::Mapping(_)) => m.settle(map_literal(args)),
        Expr::FunctionCall { name, .. } => call(m, name@, env, args),
        Expr::Minus(u) => m.settle(negated(u.op, unbroken(args[0]))),
        Expr::Not(u) => m.settle(inverted(u.op, args[0])),
        Expr::Indexing(ix) => m.settle(
            indexed(
                ix.op,
                unbroken(args[0]),
                unbroken(args[1]),
                if args.len() > 2 {
                    Some(unbroken(args[2]))
                } else {
                    None
                },
            ),
        ),
        Expr::Multiplication(b) => follow(
            m,
            multiplied(b.op, unbroken(args[0]), unbroken(args[1])),
        ),
        Expr::Addition(b) => follow(m, added(b.op, unbroken(args[0]), unbroken(args[1]))),
        Expr::Comparison(b) => m.settle(compared(b.op, unbroken(args[0]), unbroken(args[1]))),
        Expr::Logical(b) => m.settle(combined(b.op, unbroken(args[0]), unbroken(args[1]))),
        Expr::Return(Some(_)) => m.give(ValueModel::Break(Box::new(args[0]))),
        Expr::Break(Some(_)) => m.give(ValueModel::Break(Box::new(args[0]))),
        Expr::TypeCast(_, ty) => m.push_value(unbroken(args[0])).go(State::Cast { ty }),
        Expr::ForIn { vars, .. } => if vars.len() < 1 {
            m.fail(ErrorModel::NotEnoughArguments { want: 1, got: 0 })
        } else {
            m.open_scope(env).push_value(args[0]).push_frame(
                Frame::Close { env: m.env.len() as usize },
            ).push_frame(Frame::Vars { owner: expr, next: 0, env: m.env.len() as usize }).go(
                State::Ready,
            )
        },
        _ => m.fail(ErrorModel::NotImplemented),
    }
}

/// The step that goes on with the operands of `expr`, of which `count` have
/// their values on top of the values: the next operand is evaluated, or,
/// where there is none left, `expr` itself.
pub open spec fn operands_ready<'p>(m: MachineModel<'p>, expr: &'p Expr, env: usize, count: usize)
    -> Step<'p> {
    if count < operand_count(expr) {
        m.push_frame(Frame::Operands { expr, env, count }).go(
            State::Eval { expr: operand(expr, count as int), env },
        )
    } else if m.values.len() < count {
        m.fail(ErrorModel::NotImplemented)
    } else {
        apply(m.drop_values(count as int), expr, env, m.top_values(count as int))
    }
}

/// The step that opens a scope inside `env` for `expr`, which starts with
/// declarations: they are evaluated in the new scope, then what follows them
/// in `expr`; at the end the scope is closed.
pub open spec fn scoped<'p>(m: MachineModel<'p>, expr: &'p Expr, env: usize) -> Step<'p> {
    m.open_scope(env).push_frame(Frame::Close { env: m.env.len() as usize }).push_frame(
        Frame::Vars { owner: expr, next: 0, env: m.env.len() as usize },
    ).go(State::Ready)
}

/// The step that evaluates `expr` in the scope `env`.
///
/// A block, a conditional and a loop open a scope of their own, which is
/// closed when they are done. The definition of a function opens the scope
/// that the function owns, which stays.
pub open spec fn eval<'p>(m: MachineModel<'p>, expr: &'p Expr, env: usize) -> Step<'p> {
    match expr {
        Expr::Literal(Literal::Int(i)) => m.give(ValueModel::Int(*i)),
        Expr::Literal(Literal::Dec(d)) => m.give(ValueModel::Dec(d.bits)),
        Expr::Literal(Literal::Str(s)) => m.give(ValueModel::Str(s@)),
        Expr::Literal(Literal::Bool(b)) => m.give(ValueModel::Bool(*b)),
        Expr::Identifier(name) => match lookup(m.env, env as int, name@) {
            Some(entry) => m.give(entry.v),
            None => m.fail(ErrorModel::IdentifierNotFound(name@)),
        },
        Expr::Declaration(decl) => declare(m, decl, env),
        Expr::Assignment(a) => match lookup(m.env, env as int, a.name@) {
            Some(entry) => m.push_value(entry.v).push_frame(
                Frame::AssignValue { assignment: a, env },
            ).go(State::Eval { expr: &*a.expr, env }),
            None => m.fail(ErrorModel::IdentifierNotFound(a.name@)),
        },
        Expr::Block(exprs) => m.open_scope(env).push_frame(
            Frame::Close { env: m.env.len() as usize },
        ).push_frame(Frame::Sequence { exprs, next: 0, env: m.env.len() as usize }).go(
            State::Ready,
        ),
        Expr::Return(None) => m.give(ValueModel::Break(Box::new(ValueModel::Unit))),
        Expr::Break(None) => m.give(ValueModel::Break(Box::new(ValueModel::Unit))),
        Expr::FunctionDefinition { .. } => m.open_scope(env).push_frame(
            Frame::Vars { owner: expr, next: 0, env: m.env.len() as usize },
        ).go(State::Ready),
        Expr::If { .. } => scoped(m, expr, env),
        Expr::For { .. } => scoped(m, expr, env),
        Expr::ForWhile { .. } => scoped(m, expr, env),
        Expr::TypeName(t) => m.give(ValueModel::Type(t@)),
        _ => operands_ready(m, expr, env, 0),
    }
}

/// The item `next` of the flat sequence of the keys and values of
/// `entries`, by turns.
pub open spec fn flat_item<'p>(entries: Seq<(ValueModel<'p>, ValueModel<'p>)>, next: int)
    -> ValueModel<'p> {
    if next % 2 == 0 {
        entries[next / 2].0
    } else {
        entries[next / 2].1
    }
}

/// The step that goes on with `frame`, which was the topmost frame of `m`
/// before.
pub open spec fn ready<'p>(m: MachineModel<'p>, frame: Frame<'p>) -> Step<'p> {
    match frame {
        Frame::Sequence { exprs, next, env } => if next < exprs.len() {
            m.push_frame(Frame::Sequence { exprs, next: (next + 1) as usize, env }).go(
                State::Eval { expr: &exprs[next as int], env },
            )
        } else {
            m.give(ValueModel::Unit)
        },
        Frame::Vars { owner, next, env } => if next < vars_of(owner).len() {
            m.push_frame(Frame::Vars { owner, next: (next + 1) as usize, env }).go(
                State::Declare { decl: &vars_of(owner)[next as int], env },
            )
        } else {
            after_vars(m, owner, env)
        },
        Frame::ForIn { expr, env, next } => for_in_next(m, expr, env, next),
        Frame::CastItems { ty, next } => if m.values.len() <= next || !(m.top(next as int) is List) {
            m.fail(ErrorModel::NotImplemented)
        } else {
            let items = m.top(next as int)->List_0;
            if next < items.len() {
                m.push_frame(frame).push_value(items[next as int]).go(State::Cast { ty })
            } else {
                m.drop_values(next + 1).give(ValueModel::List(m.top_values(next as int)))
            }
        },
        Frame::CastEntries { key, value, next } => if m.values.len() <= next || !(m.top(
            next as int,
        ) is Mapping) {
            m.fail(ErrorModel::NotImplemented)
        } else {
            let entries = m.top(next as int)->Mapping_0;
            if next < 2 * entries.len() {
                m.push_frame(frame).push_value(flat_item(entries, next as int)).go(
                    State::Cast {
                        ty: if next % 2 == 0 {
                            key
                        } else {
                            value
                        },
                    },
                )
            } else {
                m.drop_values(next + 1).give(
                    ValueModel::Mapping(paired(m.top_values(next as int))),
                )
            }
        },
        _ => m.fail(ErrorModel::NotImplemented),
    }
}

/// The step that hands the value `v` to `frame`; both were topmost in `m`
/// before.
pub open spec fn deliver<'p>(m: MachineModel<'p>, frame: Frame<'p>, v: ValueModel<'p>) -> Step<
    'p,
> {
    match frame {
        Frame::Sequence { exprs, next, env } => if v is Break || next >= exprs.len() {
            m.give(v)
        } else {
            ready(m, frame)
        },
        Frame::Unbreak => m.give(unbroken(v)),
        Frame::Close { env } => m.close_scope(env).give(v),
        Frame::Operands { expr, env, count } => if count < usize::MAX {
            operands_ready(m.push_value(v), expr, env, (count + 1) as usize)
        } else {
            m.fail(ErrorModel::NotImplemented)
        },
        Frame::Declare { decl, env } => bind(m, decl, env, v, true),
        Frame::Vars { .. } => ready(m, frame),
        Frame::IfCond { expr, env } => match expr {
            Expr::If { when_true, when_false, .. } => match unbroken(v) {
                ValueModel::Bool(true) => m.go(State::Eval { expr: &**when_true, env }),
                ValueModel::Bool(false) => match when_false {
                    Some(e) => m.go(State::Eval { expr: &**e, env }),
                    None => m.give(ValueModel::Unit),
                },
                _ => m.fail(no_bool(v)),
            },
            _ => m.fail(ErrorModel::NotImplemented),
        },
        Frame::Loop { expr, env } => match expr {
            Expr::For { body, .. } => if v is Break {
                m.give(unbroken(v))
            } else {
                m.push_frame(frame).push_frame(Frame::Sequence { exprs: body, next: 0, env }).go(
                    State::Ready,
                )
            },
            _ => m.fail(ErrorModel::NotImplemented),
        },
        Frame::WhileCond { expr, env } => match expr {
            Expr::ForWhile { body, .. } => if m.values.len() < 1 {
                m.fail(ErrorModel::NotImplemented)
            } else {
                match unbroken(v) {
                    ValueModel::Bool(true) => m.push_frame(Frame::WhileBody { expr, env }).push_frame(
                        Frame::Sequence { exprs: body, next: 0, env },
                    ).go(State::Ready),
                    ValueModel::Bool(false) => m.go(State::Return),
                    _ => m.fail(no_bool(v)),
                }
            },
            _ => m.fail(ErrorModel::NotImplemented),
        },
        Frame::WhileBody { expr, env } => match expr {
            Expr::ForWhile { condition, .. } => if m.values.len() < 1 {
                m.fail(ErrorModel::NotImplemented)
            } else if v is Break {
                m.drop_values(1).give(unbroken(v))
            } else {
                m.drop_values(1).push_value(v).push_frame(Frame::WhileCond { expr, env }).go(
                    State::Eval { expr: &**condition, env },
                )
            },
            _ => m.fail(ErrorModel::NotImplemented),
        },
        Frame::ForIn { expr, env, next } => if m.values.len() < 2 {
            m.fail(ErrorModel::NotImplemented)
        } else if v is Break {
            m.drop_values(2).give(unbroken(v))
        } else {
            for_in_next(m.drop_values(1).push_value(v), expr, env, next)
        },
        Frame::AssignValue { assignment, env } => if m.values.len() < 1 {
            m.fail(ErrorModel::NotImplemented)
        } else {
            follow(
                m.push_frame(Frame::AssignResult { assignment, env }),
                assign_op(assignment.op, m.top(0), v),
            )
        },
        Frame::AssignResult { assignment, env } => if m.values.len() < 1 {
            m.fail(ErrorModel::NotImplemented)
        } else {
            match assignment.index {
                Some(index) => m.push_value(v).push_frame(
                    Frame::AssignIndex { assignment, env },
                ).go(State::Eval { expr: &*index, env }),
                None => store(m.drop_values(1), assignment.name@, env, v),
            }
        },
        Frame::AssignIndex { assignment, env } => if m.values.len() < 2 {
            m.fail(ErrorModel::NotImplemented)
        } else {
            match set_indexed(m.top(1), v, m.top(0)) {
                Err(e) => m.fail(e),
                Ok(c) => store(m.drop_values(2), assignment.name@, env, c),
            }
        },
        Frame::CastItems { ty, next } => if next < usize::MAX {
            ready(m.push_value(v), Frame::CastItems { ty, next: (next + 1) as usize })
        } else {
            m.fail(ErrorModel::NotImplemented)
        },
        Frame::CastEntries { key, value, next } => if next < usize::MAX {
            ready(m.push_value(v), Frame::CastEntries { key, value, next: (next + 1) as usize })
        } else {
            m.fail(ErrorModel::NotImplemented)
        },
    }
}

/// The step that takes the answer of the driver. An answer that was not
/// waited for ends the evaluation.
pub open spec fn resume<'p>(m: MachineModel<'p>, pending: Pending<'p>, event: EventModel) -> Step<
    'p,
> {
    match (pending, event) {
        (Pending::Written, EventModel::Written) => m.give(ValueModel::Unit),
        (Pending::Char, EventModel::Char(Some(c))) => m.give(ValueModel::Str(seq![c])),
        (Pending::Char, EventModel::Char(None)) => m.fail(
            ErrorModel::IOError(IOErrorModel::CouldNotGetChar),
        ),
        (Pending::Line, EventModel::Line(Ok(line))) => m.give(ValueModel::Str(line)),
        (Pending::Line, EventModel::Line(Err(kind))) => m.fail(
            ErrorModel::IOError(IOErrorModel::ErrorKind(kind)),
        ),
        (Pending::All, EventModel::All(text)) => m.give(ValueModel::Str(text)),
        (Pending::Dec, EventModel::Dec(d)) => m.give(ValueModel::Dec(d.bits)),
        (Pending::Int, EventModel::Int(i)) => m.give(ValueModel::Int(i)),
        (Pending::Text, EventModel::Text(text)) => m.give(ValueModel::Str(text)),
        (Pending::Parsed { ty }, EventModel::Dec(d)) => if m.values.len() < 1 {
            m.fail(ErrorModel::NotImplemented)
        } else {
            m.drop_values(1).give(ValueModel::Dec(d.bits))
        },
        (Pending::Parsed { ty }, EventModel::NoDec) => if m.values.len() < 1 {
            m.fail(ErrorModel::NotImplemented)
        } else {
            m.fail(ErrorModel::StringToValueParseFailed(m.top(0), ty@))
        },
        _ => m.fail(ErrorModel::NotImplemented),
    }
}

/// What a step comes to.
///
/// A machine that waits takes the answer. One that evaluates an expression
/// or a declaration starts on it. One that is ready goes on with its topmost
/// frame; one that returns hands its topmost value to its topmost frame, or,
/// where no frame is left, ends with that value. One that casts, casts its
/// topmost value.
pub open spec fn transition<'p>(m: MachineModel<'p>, event: EventModel) -> Step<'p> {
    match m.state {
        State::Idle => (m, ActionModel::Idle),
        State::Waiting(pending) => resume(m, pending, event),
        State::Eval { expr, env } => eval(m, expr, env),
        State::Declare { decl, env } => declare(m, decl, env),
        State::Cast { ty } => if m.values.len() < 1 {
            m.fail(ErrorModel::NotImplemented)
        } else {
            cast(m.drop_values(1), m.top(0), ty)
        },
        State::Ready => if m.frames.len() < 1 {
            m.fail(ErrorModel::NotImplemented)
        } else {
            ready(m.pop_frame(), m.frames.last())
        },
        State::Return => if m.values.len() < 1 {
            m.fail(ErrorModel::NotImplemented)
        } else if m.frames.len() < 1 {
            (
                MachineModel {
                    env: m.env,
                    frames: Seq::empty(),
                    values: Seq::empty(),
                    state: State::Idle,
                },
                ActionModel::Finished(m.top(0)),
            )
        } else {
            deliver(m.pop_frame().drop_values(1), m.frames.last(), m.top(0))
        },
    }
}

} // verus!
