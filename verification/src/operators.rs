//! The operators of the language, each on the kinds of value it is defined
//! for.

use vstd::prelude::*;
use crate::arith::{div64, int_add, int_div, int_mul, int_neg, int_rem, int_sub, neg64, rem64};
use crate::ast::{BinaryOperator, Operator};
use crate::dec::{dec_is_zero, dec_neg, Dec, DecRequest, Rel};
use crate::env::Env;
use crate::error::{result_view, ErrorModel, RuntimeError};
use crate::text::{from_chars, push_chars, to_chars};
use crate::types::{Type, TypeModel};
use crate::value::{
    assoc_index, entries_view, find_entry, homogeneous, list_view, type_of, unbroken, value_eq,
    value_order, Value, ValueModel,
};

verus! {

/// The error for a value of another type than `expected`: it names the
/// type that the value has, and the type that was expected.
pub open spec fn mismatch<'p>(v: ValueModel<'p>, expected: TypeModel) -> ErrorModel<'p> {
    ErrorModel::MismatchedTypes { got: seq![type_of(v)], expected: seq![expected] }
}

/// The integer that a value is, looking through a break wrapper.
pub open spec fn int_of<'p>(v: ValueModel<'p>) -> Result<i64, ErrorModel<'p>> {
    match unbroken(v) {
        ValueModel::Int(i) => Ok(i),
        _ => Err(mismatch(v, TypeModel::Int)),
    }
}

/// The decimal that a value is, looking through a break wrapper.
pub open spec fn dec_of<'p>(v: ValueModel<'p>) -> Result<u64, ErrorModel<'p>> {
    match unbroken(v) {
        ValueModel::Dec(d) => Ok(d),
        _ => Err(mismatch(v, TypeModel::Dec)),
    }
}

/// The boolean that a value is, looking through a break wrapper.
pub open spec fn bool_of<'p>(v: ValueModel<'p>) -> Result<bool, ErrorModel<'p>> {
    match unbroken(v) {
        ValueModel::Bool(b) => Ok(b),
        _ => Err(mismatch(v, TypeModel::Bool)),
    }
}

/// The text that a value is, looking through a break wrapper.
pub open spec fn text_of<'p>(v: ValueModel<'p>) -> Result<Seq<char>, ErrorModel<'p>> {
    match unbroken(v) {
        ValueModel::Str(s) => Ok(s),
        _ => Err(mismatch(v, TypeModel::Str)),
    }
}

/// The type of a list of items of unknown type.
pub open spec fn any_list() -> TypeModel {
    TypeModel::List(Box::new(TypeModel::Unit))
}

/// The type of a map of keys and values of unknown type.
pub open spec fn any_map() -> TypeModel {
    TypeModel::Mapping(Box::new(TypeModel::Unit), Box::new(TypeModel::Unit))
}

/// The items of the list that a value is, looking through a break wrapper.
pub open spec fn items_of<'p>(v: ValueModel<'p>) -> Result<Seq<ValueModel<'p>>, ErrorModel<'p>> {
    match unbroken(v) {
        ValueModel::List(items) => Ok(items),
        _ => Err(mismatch(v, any_list())),
    }
}

/// The entries of the map that a value is, looking through a break wrapper.
pub open spec fn entries_of<'p>(v: ValueModel<'p>) -> Result<
    Seq<(ValueModel<'p>, ValueModel<'p>)>,
    ErrorModel<'p>,
> {
    match unbroken(v) {
        ValueModel::Mapping(entries) => Ok(entries),
        _ => Err(mismatch(v, any_map())),
    }
}

/// Both of two results, or the first error among them.
pub open spec fn both<A, B, E>(a: Result<A, E>, b: Result<B, E>) -> Result<(A, B), E> {
    match a {
        Err(e) => Err(e),
        Ok(x) => match b {
            Err(e) => Err(e),
            Ok(y) => Ok((x, y)),
        },
    }
}

/// The error for a value of another kind than `expected`.
pub fn mismatched<'p>(v: &Value<'p>, expected: Type) -> (e: RuntimeError<'p>)
    ensures
        e@ == mismatch(v@, expected@),
{
    let mut got: Vec<Type> = Vec::new();
    got.push(v.type_of());
    let mut want: Vec<Type> = Vec::new();
    want.push(expected);
    let e = RuntimeError::MismatchedTypes { got, expected: want };
    assert(e@->MismatchedTypes_got =~= seq![type_of(v@)]);
    assert(e@->MismatchedTypes_expected =~= seq![expected@]);
    e
}

/// The value inside a break wrapper, or the value itself where it has none.
pub fn peel<'a, 'p>(v: &'a Value<'p>) -> (r: &'a Value<'p>)
    ensures
        r@ == unbroken(v@),
{
    match v {
        Value::Break(inner) => &**inner,
        _ => v,
    }
}

/// The integer that a value is.
pub fn as_int<'p>(v: &Value<'p>) -> (r: Result<i64, RuntimeError<'p>>)
    ensures
        match int_of(v@) {
            Ok(i) => r == Ok::<i64, RuntimeError<'p>>(i),
            Err(e) => r is Err && r->Err_0@ == e,
        },
{
    match peel(v) {
        Value::Int(i) => Ok(*i),
        _ => Err(mismatched(v, Type::Int)),
    }
}

/// The decimal that a value is.
pub fn as_dec<'p>(v: &Value<'p>) -> (r: Result<Dec, RuntimeError<'p>>)
    ensures
        match dec_of(v@) {
            Ok(d) => r is Ok && r->Ok_0.bits == d,
            Err(e) => r is Err && r->Err_0@ == e,
        },
{
    match peel(v) {
        Value::Dec(d) => Ok(*d),
        _ => Err(mismatched(v, Type::Dec)),
    }
}

/// The boolean that a value is.
pub fn as_bool<'p>(v: &Value<'p>) -> (r: Result<bool, RuntimeError<'p>>)
    ensures
        match bool_of(v@) {
            Ok(b) => r == Ok::<bool, RuntimeError<'p>>(b),
            Err(e) => r is Err && r->Err_0@ == e,
        },
{
    match peel(v) {
        Value::Bool(b) => Ok(*b),
        _ => Err(mismatched(v, Type::Bool)),
    }
}

/// The text that a value is.
pub fn as_text<'a, 'p>(v: &'a Value<'p>) -> (r: Result<&'a String, RuntimeError<'p>>)
    ensures
        match text_of(v@) {
            Ok(s) => r is Ok && r->Ok_0@ == s,
            Err(e) => r is Err && r->Err_0@ == e,
        },
{
    match peel(v) {
        Value::Str(s) => Ok(s),
        _ => Err(mismatched(v, Type::Str)),
    }
}

/// The items of the list that a value is.
pub fn as_items<'a, 'p>(v: &'a Value<'p>) -> (r: Result<&'a Vec<Value<'p>>, RuntimeError<'p>>)
    ensures
        match items_of(v@) {
            Ok(items) => r is Ok && crate::value::list_view(r->Ok_0@) == items,
            Err(e) => r is Err && r->Err_0@ == e,
        },
{
    match peel(v) {
        Value::List(items) => {
            proof {
                crate::value::lemma_list_view(*items);
            }
            Ok(items)
        },
        _ => Err(mismatched(v, Type::List(Box::new(Type::Unit)))),
    }
}

/// The entries of the map that a value is.
pub fn as_entries<'a, 'p>(v: &'a Value<'p>) -> (r: Result<
    &'a Vec<(Value<'p>, Value<'p>)>,
    RuntimeError<'p>,
>)
    ensures
        match entries_of(v@) {
            Ok(entries) => r is Ok && crate::value::entries_view(r->Ok_0@) == entries,
            Err(e) => r is Err && r->Err_0@ == e,
        },
{
    match peel(v) {
        Value::Mapping(entries) => {
            proof {
                crate::value::lemma_mapping_view(*entries);
            }
            Ok(entries)
        },
        _ => Err(mismatched(v, Type::Mapping(Box::new(Type::Unit), Box::new(Type::Unit)))),
    }
}

/// The negation of an integer.
pub fn ineg<'p>(left: Value<'p>, _env: &Env<'p>) -> (r: Result<Value<'p>, RuntimeError<'p>>)
    ensures
        result_view(r) == match int_of(left@) {
            Ok(i) => Ok(ValueModel::Int(int_neg(i))),
            Err(e) => Err(e),
        },
{
    let i = as_int(&left)?;
    Ok(Value::Int(neg64(i)))
}

/// The sum of two integers.
pub fn iadd<'p>(left: Value<'p>, right: Value<'p>, _env: &Env<'p>) -> (r: Result<
    Value<'p>,
    RuntimeError<'p>,
>)
    ensures
        result_view(r) == match both(int_of(left@), int_of(right@)) {
            Ok((a, b)) => Ok(ValueModel::Int(int_add(a, b))),
            Err(e) => Err(e),
        },
{
    let a = as_int(&left)?;
    let b = as_int(&right)?;
    Ok(Value::Int(a.wrapping_add(b)))
}

/// The difference of two integers.
pub fn isub<'p>(left: Value<'p>, right: Value<'p>, _env: &Env<'p>) -> (r: Result<
    Value<'p>,
    RuntimeError<'p>,
>)
    ensures
        result_view(r) == match both(int_of(left@), int_of(right@)) {
            Ok((a, b)) => Ok(ValueModel::Int(int_sub(a, b))),
            Err(e) => Err(e),
        },
{
    let a = as_int(&left)?;
    let b = as_int(&right)?;
    Ok(Value::Int(a.wrapping_sub(b)))
}

/// The product of two integers.
pub fn imul<'p>(left: Value<'p>, right: Value<'p>, _env: &Env<'p>) -> (r: Result<
    Value<'p>,
    RuntimeError<'p>,
>)
    ensures
        result_view(r) == match both(int_of(left@), int_of(right@)) {
            Ok((a, b)) => Ok(ValueModel::Int(int_mul(a, b))),
            Err(e) => Err(e),
        },
{
    let a = as_int(&left)?;
    let b = as_int(&right)?;
    Ok(Value::Int(a.wrapping_mul(b)))
}

/// The quotient of two integers, rounded towards zero. Division by zero
/// is an error.
pub fn idiv<'p>(left: Value<'p>, right: Value<'p>, _env: &Env<'p>) -> (r: Result<
    Value<'p>,
    RuntimeError<'p>,
>)
    ensures
        result_view(r) == match both(int_of(left@), int_of(right@)) {
            Ok((a, b)) => if b == 0 {
                Err(ErrorModel::DivideByZero)
            } else {
                Ok(ValueModel::Int(int_div(a, b)))
            },
            Err(e) => Err(e),
        },
{
    let a = as_int(&left)?;
    let b = as_int(&right)?;
    if b == 0 {
        Err(RuntimeError::DivideByZero)
    } else {
        Ok(Value::Int(div64(a, b)))
    }
}

/// The remainder of the division of two integers; it has the sign of the
/// dividend. Division by zero is an error.
pub fn imod<'p>(left: Value<'p>, right: Value<'p>, _env: &Env<'p>) -> (r: Result<
    Value<'p>,
    RuntimeError<'p>,
>)
    ensures
        result_view(r) == match both(int_of(left@), int_of(right@)) {
            Ok((a, b)) => if b == 0 {
                Err(ErrorModel::DivideByZero)
            } else {
                Ok(ValueModel::Int(int_rem(a, b)))
            },
            Err(e) => Err(e),
        },
{
    let a = as_int(&left)?;
    let b = as_int(&right)?;
    if b == 0 {
        Err(RuntimeError::DivideByZero)
    } else {
        Ok(Value::Int(rem64(a, b)))
    }
}

/// The negation of a decimal.
pub fn fneg<'p>(left: Value<'p>, _env: &Env<'p>) -> (r: Result<Value<'p>, RuntimeError<'p>>)
    ensures
        result_view(r) == match dec_of(left@) {
            Ok(d) => Ok(ValueModel::Dec(dec_neg(d))),
            Err(e) => Err(e),
        },
{
    let d = as_dec(&left)?;
    Ok(Value::Dec(d.negated()))
}

/// The view of the result of an operator on decimals: of the error where
/// there is one.
pub open spec fn request_view<'p>(r: Result<DecRequest, RuntimeError<'p>>) -> Result<
    DecRequest,
    ErrorModel<'p>,
> {
    match r {
        Ok(request) => Ok(request),
        Err(e) => Err(e@),
    }
}

/// The sum of two decimals: the addition to ask of the floating-point unit.
pub fn fadd<'p>(left: Value<'p>, right: Value<'p>, _env: &Env<'p>) -> (r: Result<
    DecRequest,
    RuntimeError<'p>,
>)
    ensures
        request_view(r) == match both(dec_of(left@), dec_of(right@)) {
            Ok((a, b)) => Ok(DecRequest::Add(Dec { bits: a }, Dec { bits: b })),
            Err(e) => Err(e),
        },
{
    let a = as_dec(&left)?;
    let b = as_dec(&right)?;
    Ok(DecRequest::Add(a, b))
}

/// The difference of two decimals: the subtraction to ask of the
/// floating-point unit.
pub fn fsub<'p>(left: Value<'p>, right: Value<'p>, _env: &Env<'p>) -> (r: Result<
    DecRequest,
    RuntimeError<'p>,
>)
    ensures
        request_view(r) == match both(dec_of(left@), dec_of(right@)) {
            Ok((a, b)) => Ok(DecRequest::Subtract(Dec { bits: a }, Dec { bits: b })),
            Err(e) => Err(e),
        },
{
    let a = as_dec(&left)?;
    let b = as_dec(&right)?;
    Ok(DecRequest::Subtract(a, b))
}

/// The product of two decimals: the multiplication to ask of the
/// floating-point unit.
pub fn fmul<'p>(left: Value<'p>, right: Value<'p>, _env: &Env<'p>) -> (r: Result<
    DecRequest,
    RuntimeError<'p>,
>)
    ensures
        request_view(r) == match both(dec_of(left@), dec_of(right@)) {
            Ok((a, b)) => Ok(DecRequest::Multiply(Dec { bits: a }, Dec { bits: b })),
            Err(e) => Err(e),
        },
{
    let a = as_dec(&left)?;
    let b = as_dec(&right)?;
    Ok(DecRequest::Multiply(a, b))
}

/// The quotient of two decimals: the division to ask of the floating-point
/// unit. Division by zero, of either sign, is an error.
pub fn fdiv<'p>(left: Value<'p>, right: Value<'p>, _env: &Env<'p>) -> (r: Result<
    DecRequest,
    RuntimeError<'p>,
>)
    ensures
        request_view(r) == match both(dec_of(left@), dec_of(right@)) {
            Ok((a, b)) => if dec_is_zero(b) {
                Err(ErrorModel::DivideByZero)
            } else {
                Ok(DecRequest::Divide(Dec { bits: a }, Dec { bits: b }))
            },
            Err(e) => Err(e),
        },
{
    let a = as_dec(&left)?;
    let b = as_dec(&right)?;
    if b.is_zero() {
        Err(RuntimeError::DivideByZero)
    } else {
        Ok(DecRequest::Divide(a, b))
    }
}

/// The remainder of the division of two decimals: the computation to ask
/// of the floating-point unit. Division by zero, of either sign, is an
/// error.
pub fn fmod<'p>(left: Value<'p>, right: Value<'p>, _env: &Env<'p>) -> (r: Result<
    DecRequest,
    RuntimeError<'p>,
>)
    ensures
        request_view(r) == match both(dec_of(left@), dec_of(right@)) {
            Ok((a, b)) => if dec_is_zero(b) {
                Err(ErrorModel::DivideByZero)
            } else {
                Ok(DecRequest::Remainder(Dec { bits: a }, Dec { bits: b }))
            },
            Err(e) => Err(e),
        },
{
    let a = as_dec(&left)?;
    let b = as_dec(&right)?;
    if b.is_zero() {
        Err(RuntimeError::DivideByZero)
    } else {
        Ok(DecRequest::Remainder(a, b))
    }
}

/// The negation of a boolean.
pub fn bnot<'p>(left: Value<'p>, _env: &Env<'p>) -> (r: Result<Value<'p>, RuntimeError<'p>>)
    ensures
        result_view(r) == match bool_of(left@) {
            Ok(b) => Ok(ValueModel::Bool(!b)),
            Err(e) => Err(e),
        },
{
    let b = as_bool(&left)?;
    Ok(Value::Bool(!b))
}

/// Whether both booleans hold.
pub fn band<'p>(left: Value<'p>, right: Value<'p>, _env: &Env<'p>) -> (r: Result<
    Value<'p>,
    RuntimeError<'p>,
>)
    ensures
        result_view(r) == match both(bool_of(left@), bool_of(right@)) {
            Ok((a, b)) => Ok(ValueModel::Bool(a && b)),
            Err(e) => Err(e),
        },
{
    let a = as_bool(&left)?;
    let b = as_bool(&right)?;
    Ok(Value::Bool(a && b))
}

/// Whether one of two booleans holds.
pub fn bor<'p>(left: Value<'p>, right: Value<'p>, _env: &Env<'p>) -> (r: Result<
    Value<'p>,
    RuntimeError<'p>,
>)
    ensures
        result_view(r) == match both(bool_of(left@), bool_of(right@)) {
            Ok((a, b)) => Ok(ValueModel::Bool(a || b)),
            Err(e) => Err(e),
        },
{
    let a = as_bool(&left)?;
    let b = as_bool(&right)?;
    Ok(Value::Bool(a || b))
}

/// Whether two values are equal.
pub fn eq<'p>(left: Value<'p>, right: Value<'p>, _env: &Env<'p>) -> (r: Result<
    Value<'p>,
    RuntimeError<'p>,
>)
    ensures
        result_view(r) == Ok::<ValueModel<'p>, ErrorModel<'p>>(
            ValueModel::Bool(value_eq(left@, right@)),
        ),
{
    Ok(Value::Bool(left.same(&right)))
}

/// Whether two values are not equal.
pub fn ne<'p>(left: Value<'p>, right: Value<'p>, _env: &Env<'p>) -> (r: Result<
    Value<'p>,
    RuntimeError<'p>,
>)
    ensures
        result_view(r) == Ok::<ValueModel<'p>, ErrorModel<'p>>(
            ValueModel::Bool(!value_eq(left@, right@)),
        ),
{
    Ok(Value::Bool(!left.same(&right)))
}

/// What an ordering operator makes of two values: whether they stand to
/// each other as the operator asks, or, where they have no order, the error
/// that the operator is not defined on their types.
pub open spec fn ordered<'p>(
    op: BinaryOperator,
    left: ValueModel<'p>,
    right: ValueModel<'p>,
    holds: spec_fn(Rel) -> bool,
) -> Result<ValueModel<'p>, ErrorModel<'p>> {
    match value_order(left, right) {
        Some(rel) => Ok(ValueModel::Bool(holds(rel))),
        None => Err(
            ErrorModel::InvalidOperatorOnTypes {
                op: Operator::BinaryOperator(op),
                types: seq![type_of(left), type_of(right)],
            },
        ),
    }
}

/// The error that `op` is not defined on the types of two values.
pub fn undefined_on<'p>(op: Operator, left: &Value<'p>, right: &Value<'p>) -> (e: RuntimeError<'p>)
    ensures
        e@ == (ErrorModel::InvalidOperatorOnTypes {
            op,
            types: seq![type_of(left@), type_of(right@)],
        }),
{
    let mut types: Vec<Type> = Vec::new();
    types.push(left.type_of());
    types.push(right.type_of());
    let e = RuntimeError::InvalidOperatorOnTypes { op, types };
    assert(e@->InvalidOperatorOnTypes_types =~= seq![type_of(left@), type_of(right@)]);
    e
}

/// Whether the left value is greater than the right.
pub fn gt<'p>(left: Value<'p>, right: Value<'p>, _env: &Env<'p>) -> (r: Result<
    Value<'p>,
    RuntimeError<'p>,
>)
    ensures
        result_view(r) == ordered(BinaryOperator::Greater, left@, right@, |rel: Rel| rel is Greater),
{
    match left.compare(&right) {
        Some(rel) => Ok(Value::Bool(matches!(rel, Rel::Greater))),
        None => Err(undefined_on(Operator::BinaryOperator(BinaryOperator::Greater), &left, &right)),
    }
}

/// Whether the left value is greater than the right, or equal to it.
pub fn ge<'p>(left: Value<'p>, right: Value<'p>, _env: &Env<'p>) -> (r: Result<
    Value<'p>,
    RuntimeError<'p>,
>)
    ensures
        result_view(r) == ordered(
            BinaryOperator::GreaterEqual,
            left@,
            right@,
            |rel: Rel| !(rel is Less),
        ),
{
    match left.compare(&right) {
        Some(rel) => Ok(Value::Bool(!matches!(rel, Rel::Less))),
        None => Err(
            undefined_on(Operator::BinaryOperator(BinaryOperator::GreaterEqual), &left, &right),
        ),
    }
}

/// Whether the left value is less than the right.
pub fn lt<'p>(left: Value<'p>, right: Value<'p>, _env: &Env<'p>) -> (r: Result<
    Value<'p>,
    RuntimeError<'p>,
>)
    ensures
        result_view(r) == ordered(BinaryOperator::Less, left@, right@, |rel: Rel| rel is Less),
{
    match left.compare(&right) {
        Some(rel) => Ok(Value::Bool(matches!(rel, Rel::Less))),
        None => Err(undefined_on(Operator::BinaryOperator(BinaryOperator::Less), &left, &right)),
    }
}

/// Whether the left value is less than the right, or equal to it.
pub fn le<'p>(left: Value<'p>, right: Value<'p>, _env: &Env<'p>) -> (r: Result<
    Value<'p>,
    RuntimeError<'p>,
>)
    ensures
        result_view(r) == ordered(
            BinaryOperator::LessEqual,
            left@,
            right@,
            |rel: Rel| !(rel is Greater),
        ),
{
    match left.compare(&right) {
        Some(rel) => Ok(Value::Bool(!matches!(rel, Rel::Greater))),
        None => Err(undefined_on(Operator::BinaryOperator(BinaryOperator::LessEqual), &left, &right)),
    }
}

/// The index that an optional value is, where there is a value.
pub open spec fn opt_index_of<'p>(v: Option<ValueModel<'p>>) -> Result<
    Option<i64>,
    ErrorModel<'p>,
> {
    match v {
        None => Ok(None),
        Some(v) => match int_of(v) {
            Ok(i) => Ok(Some(i)),
            Err(e) => Err(e),
        },
    }
}

/// The view of an optional value.
pub open spec fn opt_view<'p>(v: Option<Value<'p>>) -> Option<ValueModel<'p>> {
    match v {
        Some(v) => Some(v@),
        None => None,
    }
}

/// The position that an index names in a collection of `len` items: a
/// negative index counts from the end.
pub open spec fn position(len: int, index: int) -> int {
    if index < 0 {
        len + index
    } else {
        index
    }
}

/// The position before which a range ends in a collection of `len` items:
/// zero and negative ends count from the end, so that zero is the end itself.
pub open spec fn end_position(len: int, end: int) -> int {
    if end <= 0 {
        len + end
    } else {
        end
    }
}

/// The half-open range of positions that an index, or a range of indices,
/// names in a collection of `len` items; nothing where it is out of bounds.
///
/// One index names the one position it stands for, which must exist. A range
/// must start and end at or after the first position; it is cut off at the
/// end of the collection, and empty where it ends before it starts.
pub open spec fn span(len: int, start: int, end: Option<i64>) -> Option<(int, int)> {
    let lo = position(len, start);
    match end {
        None => if 0 <= lo < len {
            Some((lo, lo + 1))
        } else {
            None
        },
        Some(e) => {
            let hi = end_position(len, e as int);
            if lo < 0 || hi < 0 {
                None
            } else {
                let from = if lo < len {
                    lo
                } else {
                    len
                };
                let to = if hi < from {
                    from
                } else if hi < len {
                    hi
                } else {
                    len
                };
                Some((from, to))
            }
        },
    }
}

/// The half-open range of positions that an index, or a range of indices,
/// names in a collection of `len` items.
pub fn transform_to_range(len: usize, start: i64, end: Option<i64>) -> (r: Option<(usize, usize)>)
    ensures
        match span(len as int, start as int, end) {
            Some((lo, hi)) => r == Some((lo as usize, hi as usize)) && 0 <= lo <= hi <= len,
            None => r is None,
        },
{
    let n = len as i128;
    let lo = if start < 0 {
        n + start as i128
    } else {
        start as i128
    };
    match end {
        None => {
            if 0 <= lo && lo < n {
                Some((lo as usize, lo as usize + 1))
            } else {
                None
            }
        },
        Some(e) => {
            let hi = if e <= 0 {
                n + e as i128
            } else {
                e as i128
            };
            if lo < 0 || hi < 0 {
                None
            } else {
                let from = if lo < n {
                    lo
                } else {
                    n
                };
                let to = if hi < from {
                    from
                } else if hi < n {
                    hi
                } else {
                    n
                };
                Some((from as usize, to as usize))
            }
        },
    }
}

/// The index that an optional value is, where there is a value.
pub fn as_opt_index<'p>(v: &Option<Value<'p>>) -> (r: Result<Option<i64>, RuntimeError<'p>>)
    ensures
        match opt_index_of(opt_view(*v)) {
            Ok(i) => r == Ok::<Option<i64>, RuntimeError<'p>>(i),
            Err(e) => r is Err && r->Err_0@ == e,
        },
{
    match v {
        None => Ok(None),
        Some(v) => {
            let i = as_int(v)?;
            Ok(Some(i))
        },
    }
}

/// The part of `items` from position `lo` up to position `hi`.
fn slice_chars(items: &Vec<char>, lo: usize, hi: usize) -> (r: Vec<char>)
    requires
        lo <= hi <= items.len(),
    ensures
        r@ == items@.subrange(lo as int, hi as int),
{
    let mut out: Vec<char> = Vec::new();
    let mut i = lo;
    while i < hi
        invariant
            lo <= i <= hi <= items.len(),
            out@ == items@.subrange(lo as int, i as int),
        decreases hi - i,
    {
        out.push(items[i]);
        assert(out@ =~= items@.subrange(lo as int, i as int + 1));
        i += 1;
    }
    out
}

/// The two texts, one after the other.
pub fn sadd<'p>(left: Value<'p>, right: Value<'p>, _env: &Env<'p>) -> (r: Result<
    Value<'p>,
    RuntimeError<'p>,
>)
    ensures
        result_view(r) == match both(text_of(left@), text_of(right@)) {
            Ok((a, b)) => Ok(ValueModel::Str(a + b)),
            Err(e) => Err(e),
        },
{
    let a = as_text(&left)?;
    let b = as_text(&right)?;
    let mut out = to_chars(a.as_str());
    let more = to_chars(b.as_str());
    push_chars(&mut out, &more);
    Ok(Value::Str(from_chars(&out)))
}

/// The test that a character does not occur in `text`.
pub open spec fn not_in(text: Seq<char>) -> spec_fn(char) -> bool {
    |c: char| !text.contains(c)
}

/// Whether `c` occurs in `text`.
fn has_char(text: &Vec<char>, c: char) -> (r: bool)
    ensures
        r == text@.contains(c),
{
    let mut i: usize = 0;
    while i < text.len()
        invariant
            i <= text.len(),
            forall|j: int| 0 <= j < i ==> text[j] != c,
        decreases text.len() - i,
    {
        if text[i] == c {
            return true;
        }
        i += 1;
    }
    false
}

/// The left text without every character that occurs in the right text.
pub fn ssub<'p>(left: Value<'p>, right: Value<'p>, _env: &Env<'p>) -> (r: Result<
    Value<'p>,
    RuntimeError<'p>,
>)
    ensures
        result_view(r) == match both(text_of(left@), text_of(right@)) {
            Ok((a, b)) => Ok(ValueModel::Str(a.filter(not_in(b)))),
            Err(e) => Err(e),
        },
{
    let a = as_text(&left)?;
    let b = as_text(&right)?;
    let x = to_chars(a.as_str());
    let y = to_chars(b.as_str());
    let mut out: Vec<char> = Vec::new();
    let mut i: usize = 0;
    proof {
        reveal(Seq::filter);
        assert(x@.take(0).filter(not_in(y@)) =~= Seq::<char>::empty());
    }
    while i < x.len()
        invariant
            i <= x.len(),
            out@ == x@.take(i as int).filter(not_in(y@)),
        decreases x.len() - i,
    {
        proof {
            reveal(Seq::filter);
            assert(x@.take(i as int + 1).drop_last() =~= x@.take(i as int));
        }
        if !has_char(&y, x[i]) {
            out.push(x[i]);
        }
        i += 1;
    }
    assert(x@.take(x.len() as int) =~= x@);
    Ok(Value::Str(from_chars(&out)))
}

/// What indexing a text comes to.
///
/// The text must be a string and the indices integers. Indexing the empty
/// text is an error of its own; an index out of bounds is another. Else the
/// result is the part of the text that the indices name.
pub open spec fn text_at<'p>(
    left: ValueModel<'p>,
    start: ValueModel<'p>,
    end: Option<ValueModel<'p>>,
) -> Result<ValueModel<'p>, ErrorModel<'p>> {
    match both(both(text_of(left), int_of(start)), opt_index_of(end)) {
        Err(e) => Err(e),
        Ok(((text, a), b)) => if text.len() == 0 {
            Err(ErrorModel::IndexingCollectionWithZeroElements(left))
        } else {
            match span(text.len() as int, a as int, b) {
                None => Err(ErrorModel::IndexOutOfBounds(left, start, end)),
                Some((lo, hi)) => Ok(ValueModel::Str(text.subrange(lo, hi))),
            }
        },
    }
}

/// The part of a text that an index, or a range of indices, names.
pub fn sgetidx<'p>(
    left: Value<'p>,
    start_index: Value<'p>,
    end_index: Option<Value<'p>>,
    _env: &Env<'p>,
) -> (r: Result<Value<'p>, RuntimeError<'p>>)
    ensures
        result_view(r) == text_at(left@, start_index@, opt_view(end_index)),
{
    let text = as_text(&left)?;
    let a = as_int(&start_index)?;
    let b = as_opt_index(&end_index)?;
    let chars = to_chars(text.as_str());
    if chars.len() == 0 {
        return Err(RuntimeError::IndexingCollectionWithZeroElements(left));
    }
    match transform_to_range(chars.len(), a, b) {
        None => Err(RuntimeError::IndexOutOfBounds(left, start_index, end_index)),
        Some((lo, hi)) => {
            let part = slice_chars(&chars, lo, hi);
            Ok(Value::Str(from_chars(&part)))
        },
    }
}

/// What the assignment of a text to one position of a text comes to: the
/// text with `element` in place of the character at that position.
pub open spec fn text_with<'p>(
    collection: ValueModel<'p>,
    index: ValueModel<'p>,
    element: ValueModel<'p>,
) -> Result<ValueModel<'p>, ErrorModel<'p>> {
    match both(both(text_of(collection), int_of(index)), text_of(element)) {
        Err(e) => Err(e),
        Ok(((text, i), piece)) => if text.len() == 0 {
            Err(ErrorModel::IndexingCollectionWithZeroElements(collection))
        } else {
            match span(text.len() as int, i as int, None) {
                None => Err(ErrorModel::IndexOutOfBounds(collection, index, None)),
                Some((lo, hi)) => Ok(
                    ValueModel::Str(
                        text.subrange(0, lo) + piece + text.subrange(hi, text.len() as int),
                    ),
                ),
            }
        },
    }
}

/// The text with `element` in place of the character that `index` names.
pub fn ssetidx<'p>(
    collection: Value<'p>,
    index: Value<'p>,
    element: Value<'p>,
    _env: &Env<'p>,
) -> (r: Result<Value<'p>, RuntimeError<'p>>)
    ensures
        result_view(r) == text_with(collection@, index@, element@),
{
    let text = as_text(&collection)?;
    let i = as_int(&index)?;
    let piece = as_text(&element)?;
    let chars = to_chars(text.as_str());
    if chars.len() == 0 {
        return Err(RuntimeError::IndexingCollectionWithZeroElements(collection));
    }
    match transform_to_range(chars.len(), i, None) {
        None => Err(RuntimeError::IndexOutOfBounds(collection, index, None)),
        Some((lo, hi)) => {
            let mut out = slice_chars(&chars, 0, lo);
            let middle = to_chars(piece.as_str());
            push_chars(&mut out, &middle);
            let tail = slice_chars(&chars, hi, chars.len());
            push_chars(&mut out, &tail);
            Ok(Value::Str(from_chars(&out)))
        },
    }
}

/// The items of `s`, each where it first occurs.
pub open spec fn distinct<A>(s: Seq<A>) -> Seq<A>
    decreases s.len(),
{
    if s.len() == 0 {
        s
    } else {
        let before = distinct(s.drop_last());
        if before.contains(s.last()) {
            before
        } else {
            before.push(s.last())
        }
    }
}

/// The types of the values of `items`, in order.
pub open spec fn types_of(items: Seq<ValueModel>) -> Seq<TypeModel> {
    Seq::new(items.len(), |i: int| type_of(items[i]))
}

/// The types of the values of the entries of `entries`, in order.
pub open spec fn value_types_of(entries: Seq<(ValueModel, ValueModel)>) -> Seq<TypeModel> {
    Seq::new(entries.len(), |i: int| type_of(entries[i].1))
}

/// Whether `t` is among `types`.
fn has_type(types: &Vec<Type>, t: &Type) -> (r: bool)
    ensures
        r == crate::types::types_view(types@).contains(t@),
{
    let mut i: usize = 0;
    while i < types.len()
        invariant
            i <= types.len(),
            forall|j: int| 0 <= j < i ==> types[j]@ != t@,
        decreases types.len() - i,
    {
        if types[i].same(t) {
            assert(crate::types::types_view(types@)[i as int] == t@);
            return true;
        }
        i += 1;
    }
    false
}

/// The types of the values of `items`, each where it first occurs.
fn distinct_item_types<'p>(items: &Vec<Value<'p>>) -> (got: Vec<Type>)
    ensures
        crate::types::types_view(got@) == distinct(types_of(list_view(items@))),
{
    let mut got: Vec<Type> = Vec::new();
    let mut j: usize = 0;
    let ghost kinds = types_of(list_view(items@));
    assert(crate::types::types_view(got@) =~= distinct(kinds.take(0)));
    while j < items.len()
        invariant
            j <= items.len(),
            kinds == types_of(list_view(items@)),
            crate::types::types_view(got@) == distinct(kinds.take(j as int)),
        decreases items.len() - j,
    {
        let t = items[j].type_of();
        proof {
            assert(kinds.take(j as int + 1).drop_last() =~= kinds.take(j as int));
            assert(kinds.take(j as int + 1).last() == t@);
        }
        if !has_type(&got, &t) {
            let ghost before = crate::types::types_view(got@);
            got.push(t);
            assert(crate::types::types_view(got@) =~= before.push(t@));
        }
        j += 1;
    }
    assert(kinds.take(items.len() as int) =~= kinds);
    got
}

/// The types of the values of the entries of `entries`, each where it
/// first occurs.
fn distinct_value_types<'p>(entries: &Vec<(Value<'p>, Value<'p>)>) -> (got: Vec<Type>)
    ensures
        crate::types::types_view(got@) == distinct(value_types_of(entries_view(entries@))),
{
    let mut got: Vec<Type> = Vec::new();
    let mut j: usize = 0;
    let ghost kinds = value_types_of(entries_view(entries@));
    assert(crate::types::types_view(got@) =~= distinct(kinds.take(0)));
    while j < entries.len()
        invariant
            j <= entries.len(),
            kinds == value_types_of(entries_view(entries@)),
            crate::types::types_view(got@) == distinct(kinds.take(j as int)),
        decreases entries.len() - j,
    {
        let t = entries[j].1.type_of();
        proof {
            assert(kinds.take(j as int + 1).drop_last() =~= kinds.take(j as int));
            assert(kinds.take(j as int + 1).last() == t@);
        }
        if !has_type(&got, &t) {
            let ghost before = crate::types::types_view(got@);
            got.push(t);
            assert(crate::types::types_view(got@) =~= before.push(t@));
        }
        j += 1;
    }
    assert(kinds.take(entries.len() as int) =~= kinds);
    got
}

/// The copies of `items`.
fn copy_items<'p>(items: &Vec<Value<'p>>) -> (r: Vec<Value<'p>>)
    ensures
        list_view(r@) == list_view(items@),
{
    let mut out: Vec<Value<'p>> = Vec::new();
    let mut i: usize = 0;
    while i < items.len()
        invariant
            i <= items.len(),
            out.len() == i,
            forall|j: int| 0 <= j < i ==> out[j]@ == items[j]@,
        decreases items.len() - i,
    {
        out.push(items[i].duplicate());
        i += 1;
    }
    assert(list_view(out@) =~= list_view(items@));
    out
}

/// The copies of `entries`.
fn copy_entries<'p>(entries: &Vec<(Value<'p>, Value<'p>)>) -> (r: Vec<(Value<'p>, Value<'p>)>)
    ensures
        entries_view(r@) == entries_view(entries@),
{
    let mut out: Vec<(Value<'p>, Value<'p>)> = Vec::new();
    let mut i: usize = 0;
    while i < entries.len()
        invariant
            i <= entries.len(),
            out.len() == i,
            forall|j: int|
                0 <= j < i ==> out[j].0@ == entries[j].0@ && out[j].1@ == entries[j].1@,
        decreases entries.len() - i,
    {
        let k = entries[i].0.duplicate();
        let v = entries[i].1.duplicate();
        out.push((k, v));
        i += 1;
    }
    assert(entries_view(out@) =~= entries_view(entries@));
    out
}

/// What joining two lists comes to: the items of the left list followed by
/// those of the right, where that list is homogeneous; else the error that
/// names the distinct types of its items, and the type that the list
/// would have.
pub open spec fn lists_joined<'p>(left: ValueModel<'p>, right: ValueModel<'p>) -> Result<
    ValueModel<'p>,
    ErrorModel<'p>,
> {
    match both(items_of(left), items_of(right)) {
        Err(e) => Err(e),
        Ok((a, b)) => {
            let all = ValueModel::List(a + b);
            if homogeneous(all) {
                Ok(all)
            } else {
                Err(
                    ErrorModel::MismatchedTypes {
                        got: distinct(types_of(a + b)),
                        expected: seq![type_of(all)],
                    },
                )
            }
        },
    }
}

/// The two lists, one after the other.
pub fn ladd<'p>(left: Value<'p>, right: Value<'p>, _env: &Env<'p>) -> (r: Result<
    Value<'p>,
    RuntimeError<'p>,
>)
    ensures
        result_view(r) == lists_joined(left@, right@),
{
    let a = as_items(&left)?;
    let b = as_items(&right)?;
    let mut all = copy_items(a);
    let ghost first = list_view(all@);
    let mut i: usize = 0;
    assert(list_view(all@) =~= first + list_view(b@).take(0));
    while i < b.len()
        invariant
            i <= b.len(),
            list_view(all@) == first + list_view(b@).take(i as int),
        decreases b.len() - i,
    {
        let ghost before = list_view(all@);
        all.push(b[i].duplicate());
        assert(list_view(all@) =~= before.push(b[i as int]@));
        assert(list_view(b@).take(i as int + 1) =~= list_view(b@).take(i as int).push(
            b[i as int]@,
        ));
        assert(list_view(all@) =~= first + list_view(b@).take(i as int + 1));
        i += 1;
    }
    assert(list_view(b@).take(b.len() as int) =~= list_view(b@));
    let result = Value::List(all);
    proof {
        crate::value::lemma_list_view(result->List_0);
    }
    if result.is_homogeneous() {
        Ok(result)
    } else {
        let got = match &result {
            Value::List(items) => distinct_item_types(items),
            _ => Vec::new(),
        };
        let mut expected: Vec<Type> = Vec::new();
        expected.push(result.type_of());
        let e = RuntimeError::MismatchedTypes { got, expected };
        assert(e@->MismatchedTypes_expected =~= seq![type_of(result@)]);
        Err(e)
    }
}

/// Whether a value of `items` equals `v`.
pub open spec fn has_value<'p>(items: Seq<ValueModel<'p>>, v: ValueModel<'p>) -> bool {
    exists|j: int| 0 <= j < items.len() && value_eq(#[trigger] items[j], v)
}

/// The test that no value of `items` equals a value.
pub open spec fn absent_from<'p>(items: Seq<ValueModel<'p>>) -> spec_fn(ValueModel<'p>) -> bool {
    |v: ValueModel<'p>| !has_value(items, v)
}

/// Whether a value of `items` equals `v`.
pub fn contains_value<'p>(items: &Vec<Value<'p>>, v: &Value<'p>) -> (r: bool)
    ensures
        r == has_value(list_view(items@), v@),
{
    let mut i: usize = 0;
    while i < items.len()
        invariant
            i <= items.len(),
            forall|j: int| 0 <= j < i ==> !value_eq(#[trigger] list_view(items@)[j], v@),
        decreases items.len() - i,
    {
        if items[i].same(v) {
            assert(value_eq(list_view(items@)[i as int], v@));
            return true;
        }
        i += 1;
    }
    false
}

/// The left list without every item that equals an item of the right list.
pub fn lsub<'p>(left: Value<'p>, right: Value<'p>, _env: &Env<'p>) -> (r: Result<
    Value<'p>,
    RuntimeError<'p>,
>)
    ensures
        result_view(r) == match both(items_of(left@), items_of(right@)) {
            Ok((a, b)) => Ok(ValueModel::List(a.filter(absent_from(b)))),
            Err(e) => Err(e),
        },
{
    let a = as_items(&left)?;
    let b = as_items(&right)?;
    let ghost x = list_view(a@);
    let ghost y = list_view(b@);
    let mut out: Vec<Value<'p>> = Vec::new();
    let mut i: usize = 0;
    proof {
        reveal(Seq::filter);
        assert(list_view(out@) =~= x.take(0).filter(absent_from(y)));
    }
    while i < a.len()
        invariant
            i <= a.len(),
            x == list_view(a@),
            y == list_view(b@),
            list_view(out@) == x.take(i as int).filter(absent_from(y)),
        decreases a.len() - i,
    {
        proof {
            reveal(Seq::filter);
            assert(x.take(i as int + 1).drop_last() =~= x.take(i as int));
            assert(x.take(i as int + 1).last() == a[i as int]@);
        }
        if !contains_value(b, &a[i]) {
            let ghost before = list_view(out@);
            out.push(a[i].duplicate());
            assert(list_view(out@) =~= before.push(a[i as int]@));
        }
        i += 1;
    }
    assert(x.take(a.len() as int) =~= x);
    let result = Value::List(out);
    proof {
        crate::value::lemma_list_view(result->List_0);
    }
    Ok(result)
}

/// What indexing a list comes to.
///
/// The list must be a list and the indices integers. Indexing the empty
/// list is an error of its own; an index out of bounds is another. Else one
/// index gives the item that it names, and a range the list of the items
/// that it names.
pub open spec fn list_at<'p>(
    left: ValueModel<'p>,
    start: ValueModel<'p>,
    end: Option<ValueModel<'p>>,
) -> Result<ValueModel<'p>, ErrorModel<'p>> {
    match both(both(items_of(left), int_of(start)), opt_index_of(end)) {
        Err(e) => Err(e),
        Ok(((items, a), b)) => if items.len() == 0 {
            Err(ErrorModel::IndexingCollectionWithZeroElements(left))
        } else {
            match span(items.len() as int, a as int, b) {
                None => Err(ErrorModel::IndexOutOfBounds(left, start, end)),
                Some((lo, hi)) => if b is None {
                    Ok(items[lo])
                } else {
                    Ok(ValueModel::List(items.subrange(lo, hi)))
                },
            }
        },
    }
}

/// The item of a list that an index names, or the list of the items that a
/// range of indices names.
pub fn lgetidx<'p>(
    left: Value<'p>,
    start_index: Value<'p>,
    end_index: Option<Value<'p>>,
    _env: &Env<'p>,
) -> (r: Result<Value<'p>, RuntimeError<'p>>)
    ensures
        result_view(r) == list_at(left@, start_index@, opt_view(end_index)),
{
    let items = as_items(&left)?;
    let a = as_int(&start_index)?;
    let b = as_opt_index(&end_index)?;
    if items.len() == 0 {
        return Err(RuntimeError::IndexingCollectionWithZeroElements(left));
    }
    match transform_to_range(items.len(), a, b) {
        None => Err(RuntimeError::IndexOutOfBounds(left, start_index, end_index)),
        Some((lo, hi)) => {
            if b.is_none() {
                Ok(items[lo].duplicate())
            } else {
                let mut out: Vec<Value<'p>> = Vec::new();
                let mut i = lo;
                assert(list_view(out@) =~= list_view(items@).subrange(lo as int, lo as int));
                while i < hi
                    invariant
                        lo <= i <= hi <= items.len(),
                        list_view(out@) == list_view(items@).subrange(lo as int, i as int),
                    decreases hi - i,
                {
                    let ghost before = list_view(out@);
                    out.push(items[i].duplicate());
                    assert(list_view(out@) =~= before.push(items[i as int]@));
                    assert(list_view(out@) =~= list_view(items@).subrange(
                        lo as int,
                        i as int + 1,
                    ));
                    i += 1;
                }
                let result = Value::List(out);
                proof {
                    crate::value::lemma_list_view(result->List_0);
                }
                Ok(result)
            }
        },
    }
}

/// What the assignment of a value to one position of a list comes to: the
/// list with `element` in place of the item at that position.
pub open spec fn list_with<'p>(
    collection: ValueModel<'p>,
    index: ValueModel<'p>,
    element: ValueModel<'p>,
) -> Result<ValueModel<'p>, ErrorModel<'p>> {
    match both(items_of(collection), int_of(index)) {
        Err(e) => Err(e),
        Ok((items, i)) => if items.len() == 0 {
            Err(ErrorModel::IndexingCollectionWithZeroElements(collection))
        } else {
            match span(items.len() as int, i as int, None) {
                None => Err(ErrorModel::IndexOutOfBounds(collection, index, None)),
                Some((lo, hi)) => Ok(ValueModel::List(items.update(lo, element))),
            }
        },
    }
}

/// The list with `element` in place of the item that `index` names.
pub fn lsetidx<'p>(
    collection: Value<'p>,
    index: Value<'p>,
    element: Value<'p>,
    _env: &Env<'p>,
) -> (r: Result<Value<'p>, RuntimeError<'p>>)
    ensures
        result_view(r) == list_with(collection@, index@, element@),
{
    let items = as_items(&collection)?;
    let i = as_int(&index)?;
    if items.len() == 0 {
        return Err(RuntimeError::IndexingCollectionWithZeroElements(collection));
    }
    match transform_to_range(items.len(), i, None) {
        None => Err(RuntimeError::IndexOutOfBounds(collection, index, None)),
        Some((lo, hi)) => {
            let mut out = copy_items(items);
            let ghost before = list_view(out@);
            out[lo] = element;
            assert(list_view(out@) =~= before.update(lo as int, element@));
            let result = Value::List(out);
            proof {
                crate::value::lemma_list_view(result->List_0);
            }
            Ok(result)
        },
    }
}

/// The entries with `value` under `key`: in place of the value of the first
/// entry whose key equals `key`, or as a new last entry where there is none.
pub open spec fn assoc_put<'p>(
    entries: Seq<(ValueModel<'p>, ValueModel<'p>)>,
    key: ValueModel<'p>,
    value: ValueModel<'p>,
) -> Seq<(ValueModel<'p>, ValueModel<'p>)> {
    match assoc_index(entries, key) {
        Some(i) => entries.update(i, (entries[i].0, value)),
        None => entries.push((key, value)),
    }
}

/// The entries of `left` with each entry of `right` put in, in order.
pub open spec fn merged<'p>(
    left: Seq<(ValueModel<'p>, ValueModel<'p>)>,
    right: Seq<(ValueModel<'p>, ValueModel<'p>)>,
) -> Seq<(ValueModel<'p>, ValueModel<'p>)>
    decreases right.len(),
{
    if right.len() == 0 {
        left
    } else {
        assoc_put(merged(left, right.drop_last()), right.last().0, right.last().1)
    }
}

/// Puts `value` under `key` in `entries`.
pub fn put_entry<'p>(entries: &mut Vec<(Value<'p>, Value<'p>)>, key: Value<'p>, value: Value<'p>)
    ensures
        entries_view(final(entries)@) == assoc_put(entries_view(old(entries)@), key@, value@),
{
    let ghost before = entries_view(entries@);
    match find_entry(entries, &key) {
        Some(i) => {
            proof {
                crate::value::lemma_assoc_index_first(before, key@);
            }
            let kept = entries[i].0.duplicate();
            entries[i] = (kept, value);
            assert(entries_view(entries@) =~= before.update(i as int, (before[i as int].0, value@)));
        },
        None => {
            entries.push((key, value));
            assert(entries_view(entries@) =~= before.push((key@, value@)));
        },
    }
}

/// What joining two maps comes to: the entries of the left map with those
/// of the right put in, where that map is homogeneous; else the error that
/// names the distinct types of its values, and the type that the map would
/// have.
pub open spec fn maps_joined<'p>(left: ValueModel<'p>, right: ValueModel<'p>) -> Result<
    ValueModel<'p>,
    ErrorModel<'p>,
> {
    match both(entries_of(left), entries_of(right)) {
        Err(e) => Err(e),
        Ok((a, b)) => {
            let all = ValueModel::Mapping(merged(a, b));
            if homogeneous(all) {
                Ok(all)
            } else {
                Err(
                    ErrorModel::MismatchedTypes {
                        got: distinct(value_types_of(merged(a, b))),
                        expected: seq![type_of(all)],
                    },
                )
            }
        },
    }
}

/// The two maps as one, with the value of the right map where both have a
/// key.
pub fn madd<'p>(left: Value<'p>, right: Value<'p>, _env: &Env<'p>) -> (r: Result<
    Value<'p>,
    RuntimeError<'p>,
>)
    ensures
        result_view(r) == maps_joined(left@, right@),
{
    let a = as_entries(&left)?;
    let b = as_entries(&right)?;
    let mut all = copy_entries(a);
    let ghost first = entries_view(all@);
    let ghost second = entries_view(b@);
    let mut i: usize = 0;
    assert(second.take(0) =~= Seq::empty());
    while i < b.len()
        invariant
            i <= b.len(),
            second == entries_view(b@),
            entries_view(all@) == merged(first, second.take(i as int)),
        decreases b.len() - i,
    {
        let k = b[i].0.duplicate();
        let v = b[i].1.duplicate();
        put_entry(&mut all, k, v);
        proof {
            assert(second.take(i as int + 1).drop_last() =~= second.take(i as int));
            assert(second.take(i as int + 1).last() == (b[i as int].0@, b[i as int].1@));
        }
        i += 1;
    }
    assert(second.take(b.len() as int) =~= second);
    let result = Value::Mapping(all);
    proof {
        crate::value::lemma_mapping_view(result->Mapping_0);
    }
    if result.is_homogeneous() {
        Ok(result)
    } else {
        let got = match &result {
            Value::Mapping(entries) => distinct_value_types(entries),
            _ => Vec::new(),
        };
        let mut expected: Vec<Type> = Vec::new();
        expected.push(result.type_of());
        let e = RuntimeError::MismatchedTypes { got, expected };
        assert(e@->MismatchedTypes_expected =~= seq![type_of(result@)]);
        Err(e)
    }
}

/// The test that the key of an entry equals no key of `entries`.
pub open spec fn key_absent_from<'p>(entries: Seq<(ValueModel<'p>, ValueModel<'p>)>) -> spec_fn(
    (ValueModel<'p>, ValueModel<'p>),
) -> bool {
    |e: (ValueModel<'p>, ValueModel<'p>)| assoc_index(entries, e.0) is None
}

/// The entries of the left map whose key is not a key of the right map.
pub fn msub<'p>(left: Value<'p>, right: Value<'p>, _env: &Env<'p>) -> (r: Result<
    Value<'p>,
    RuntimeError<'p>,
>)
    ensures
        result_view(r) == match both(entries_of(left@), entries_of(right@)) {
            Ok((a, b)) => Ok(ValueModel::Mapping(a.filter(key_absent_from(b)))),
            Err(e) => Err(e),
        },
{
    let a = as_entries(&left)?;
    let b = as_entries(&right)?;
    let ghost x = entries_view(a@);
    let ghost y = entries_view(b@);
    let mut out: Vec<(Value<'p>, Value<'p>)> = Vec::new();
    let mut i: usize = 0;
    proof {
        reveal(Seq::filter);
        assert(entries_view(out@) =~= x.take(0).filter(key_absent_from(y)));
    }
    while i < a.len()
        invariant
            i <= a.len(),
            x == entries_view(a@),
            y == entries_view(b@),
            entries_view(out@) == x.take(i as int).filter(key_absent_from(y)),
        decreases a.len() - i,
    {
        proof {
            reveal(Seq::filter);
            assert(x.take(i as int + 1).drop_last() =~= x.take(i as int));
            assert(x.take(i as int + 1).last() == (a[i as int].0@, a[i as int].1@));
        }
        if find_entry(b, &a[i].0).is_none() {
            let ghost before = entries_view(out@);
            let k = a[i].0.duplicate();
            let v = a[i].1.duplicate();
            out.push((k, v));
            assert(entries_view(out@) =~= before.push((a[i as int].0@, a[i as int].1@)));
        }
        i += 1;
    }
    assert(x.take(a.len() as int) =~= x);
    let result = Value::Mapping(out);
    proof {
        crate::value::lemma_mapping_view(result->Mapping_0);
    }
    Ok(result)
}

/// What indexing a map comes to: the value under the key. Indexing the
/// empty map is an error of its own; a key that the map does not have is
/// another.
pub open spec fn entry_at<'p>(left: ValueModel<'p>, key: ValueModel<'p>) -> Result<
    ValueModel<'p>,
    ErrorModel<'p>,
> {
    match entries_of(left) {
        Err(e) => Err(e),
        Ok(entries) => if entries.len() == 0 {
            Err(ErrorModel::IndexingCollectionWithZeroElements(left))
        } else {
            match assoc_index(entries, key) {
                Some(i) => Ok(entries[i].1),
                None => Err(ErrorModel::KeyNotFound(left, key)),
            }
        },
    }
}

/// The value of a map under a key.
pub fn mgetidx<'p>(left: Value<'p>, key: Value<'p>, _end: Option<Value<'p>>, _env: &Env<'p>) -> (r:
    Result<Value<'p>, RuntimeError<'p>>)
    ensures
        result_view(r) == entry_at(left@, key@),
{
    let entries = as_entries(&left)?;
    if entries.len() == 0 {
        return Err(RuntimeError::IndexingCollectionWithZeroElements(left));
    }
    match find_entry(entries, &key) {
        Some(i) => Ok(entries[i].1.duplicate()),
        None => Err(RuntimeError::KeyNotFound(left, key)),
    }
}

/// The map with `value` under `key`: in place of the value that the key
/// had, or as a new entry.
pub fn msetidx<'p>(collection: Value<'p>, key: Value<'p>, value: Value<'p>, _env: &Env<'p>) -> (r:
    Result<Value<'p>, RuntimeError<'p>>)
    ensures
        result_view(r) == match entries_of(collection@) {
            Ok(entries) => Ok(ValueModel::Mapping(assoc_put(entries, key@, value@))),
            Err(e) => Err(e),
        },
{
    let entries = as_entries(&collection)?;
    let mut out = copy_entries(entries);
    put_entry(&mut out, key, value);
    let result = Value::Mapping(out);
    proof {
        crate::value::lemma_mapping_view(result->Mapping_0);
    }
    Ok(result)
}

} // verus!
