//! What can go wrong while a program is evaluated.

use vstd::prelude::*;
use crate::ast::{BinaryOperator, Operator};
use crate::text::{from_chars, nat_text, push_nat, push_str};
use crate::types::{types_view, Type, TypeModel};
use crate::value::{Value, ValueModel};

verus! {

/// A failed read from the input.
#[derive(Debug)]
pub enum IOError {
    /// The platform's error, by the name of its kind.
    ErrorKind(String),
    /// The input was not text; the message says where.
    UtfError(String),
    /// The input had no character left.
    CouldNotGetChar,
}

/// The mathematical value of an [`IOError`].
pub ghost enum IOErrorModel {
    ErrorKind(Seq<char>),
    UtfError(Seq<char>),
    CouldNotGetChar,
}

impl View for IOError {
    type V = IOErrorModel;

    open spec fn view(&self) -> IOErrorModel {
        match self {
            IOError::ErrorKind(s) => IOErrorModel::ErrorKind(s@),
            IOError::UtfError(s) => IOErrorModel::UtfError(s@),
            IOError::CouldNotGetChar => IOErrorModel::CouldNotGetChar,
        }
    }
}

/// An error raised by the evaluation of an expression.
#[derive(Debug)]
pub enum RuntimeError<'p> {
    NotImplemented,
    MismatchedTypes { got: Vec<Type>, expected: Vec<Type> },
    InvalidOperatorOnTypes { op: Operator, types: Vec<Type> },
    IdentifierNotFound(String),
    SettingConst(String),
    DivideByZero,
    InvalidAssignmentOperator(BinaryOperator),
    NotEnoughArguments { want: usize, got: usize },
    IndexingNonIndexable { got: Type },
    TakingLenOfLengthless { got: Type },
    IOError(IOError),
    InvalidRangeStep(isize),
    IndexingCollectionWithZeroElements(Value<'p>),
    IndexOutOfBounds(Value<'p>, Value<'p>, Option<Value<'p>>),
    KeyNotFound(Value<'p>, Value<'p>),
    CallingNonCallable { name: String },
    CannotCastValueToType(Value<'p>, Type),
    StringToValueParseFailed(Value<'p>, Type),
    ForInFirstDeclMustBeVar,
    IntToStrDomainError { got: i64 },
    OrdOnlyAllowsSingleCharacterStrings { got: String },
}

/// The mathematical value of a [`RuntimeError`].
pub ghost enum ErrorModel<'p> {
    NotImplemented,
    MismatchedTypes { got: Seq<TypeModel>, expected: Seq<TypeModel> },
    InvalidOperatorOnTypes { op: Operator, types: Seq<TypeModel> },
    IdentifierNotFound(Seq<char>),
    SettingConst(Seq<char>),
    DivideByZero,
    InvalidAssignmentOperator(BinaryOperator),
    NotEnoughArguments { want: usize, got: usize },
    IndexingNonIndexable { got: TypeModel },
    TakingLenOfLengthless { got: TypeModel },
    IOError(IOErrorModel),
    InvalidRangeStep(isize),
    IndexingCollectionWithZeroElements(ValueModel<'p>),
    IndexOutOfBounds(ValueModel<'p>, ValueModel<'p>, Option<ValueModel<'p>>),
    KeyNotFound(ValueModel<'p>, ValueModel<'p>),
    CallingNonCallable { name: Seq<char> },
    CannotCastValueToType(ValueModel<'p>, TypeModel),
    StringToValueParseFailed(ValueModel<'p>, TypeModel),
    ForInFirstDeclMustBeVar,
    IntToStrDomainError { got: i64 },
    OrdOnlyAllowsSingleCharacterStrings { got: Seq<char> },
}

impl<'p> View for RuntimeError<'p> {
    type V = ErrorModel<'p>;

    open spec fn view(&self) -> ErrorModel<'p> {
        match self {
            RuntimeError::NotImplemented => ErrorModel::NotImplemented,
            RuntimeError::MismatchedTypes { got, expected } => ErrorModel::MismatchedTypes {
                got: types_view(got@),
                expected: types_view(expected@),
            },
            RuntimeError::InvalidOperatorOnTypes { op, types } => ErrorModel::InvalidOperatorOnTypes {
                op: *op,
                types: types_view(types@),
            },
            RuntimeError::IdentifierNotFound(name) => ErrorModel::IdentifierNotFound(name@),
            RuntimeError::SettingConst(name) => ErrorModel::SettingConst(name@),
            RuntimeError::DivideByZero => ErrorModel::DivideByZero,
            RuntimeError::InvalidAssignmentOperator(op) => ErrorModel::InvalidAssignmentOperator(
                *op,
            ),
            RuntimeError::NotEnoughArguments { want, got } => ErrorModel::NotEnoughArguments {
                want: *want,
                got: *got,
            },
            RuntimeError::IndexingNonIndexable { got } => ErrorModel::IndexingNonIndexable {
                got: got@,
            },
            RuntimeError::TakingLenOfLengthless { got } => ErrorModel::TakingLenOfLengthless {
                got: got@,
            },
            RuntimeError::IOError(e) => ErrorModel::IOError(e@),
            RuntimeError::InvalidRangeStep(step) => ErrorModel::InvalidRangeStep(*step),
            RuntimeError::IndexingCollectionWithZeroElements(v) => {
                ErrorModel::IndexingCollectionWithZeroElements(v@)
            },
            RuntimeError::IndexOutOfBounds(c, start, end) => ErrorModel::IndexOutOfBounds(
                c@,
                start@,
                match end {
                    Some(e) => Some(e@),
                    None => None,
                },
            ),
            RuntimeError::KeyNotFound(c, k) => ErrorModel::KeyNotFound(c@, k@),
            RuntimeError::CallingNonCallable { name } => ErrorModel::CallingNonCallable {
                name: name@,
            },
            RuntimeError::CannotCastValueToType(v, t) => ErrorModel::CannotCastValueToType(v@, t@),
            RuntimeError::StringToValueParseFailed(v, t) => ErrorModel::StringToValueParseFailed(
                v@,
                t@,
            ),
            RuntimeError::ForInFirstDeclMustBeVar => ErrorModel::ForInFirstDeclMustBeVar,
            RuntimeError::IntToStrDomainError { got } => ErrorModel::IntToStrDomainError {
                got: *got,
            },
            RuntimeError::OrdOnlyAllowsSingleCharacterStrings { got } => {
                ErrorModel::OrdOnlyAllowsSingleCharacterStrings { got: got@ }
            },
        }
    }
}

/// The view of a result: of the value where there is one, of the error
/// where there is none.
pub open spec fn result_view<'p>(r: Result<Value<'p>, RuntimeError<'p>>) -> Result<
    ValueModel<'p>,
    ErrorModel<'p>,
> {
    match r {
        Ok(v) => Ok(v@),
        Err(e) => Err(e@),
    }
}

/// An error in the text of a program.
#[derive(Debug)]
pub enum SyntaxError {
    /// A part of the text is no token.
    InvalidToken { token: String, filename: Option<String>, line: usize, col: usize },
    /// A token stands where another was expected.
    UnexpectedToken {
        token: String,
        filename: Option<String>,
        line: usize,
        col: usize,
        expected: Vec<String>,
    },
}

/// The name of a file as an error names it: `<>` where there is none.
pub open spec fn file_text(filename: Option<String>) -> Seq<char> {
    match filename {
        Some(name) => name@,
        None => "<>"@,
    }
}

/// A place in a file: the name of the file, the line and the column, with
/// colons between them.
pub open spec fn place_text(filename: Option<String>, line: usize, col: usize) -> Seq<char> {
    file_text(filename) + ":"@ + nat_text(line as nat) + ":"@ + nat_text(col as nat)
}

/// The texts of `items`, each in double quotes, with a comma and a space
/// between each two neighbours.
pub open spec fn quoted_list(items: Seq<String>) -> Seq<char>
    decreases items.len(),
{
    if items.len() == 0 {
        Seq::empty()
    } else if items.len() == 1 {
        "\""@ + items[0]@ + "\""@
    } else {
        quoted_list(items.drop_last()) + ", "@ + "\""@ + items.last()@ + "\""@
    }
}

/// The message of a syntax error: what is wrong with which token, where,
/// and, for an unexpected token, what was expected in its place.
pub open spec fn syntax_text(e: SyntaxError) -> Seq<char> {
    match e {
        SyntaxError::InvalidToken { token, filename, line, col } => "invalid token '"@ + token@
            + "' @ "@ + place_text(filename, line, col),
        SyntaxError::UnexpectedToken {
            token,
            filename,
            line,
            col,
            expected,
        } => "unexpected token '"@ + token@ + "' @ "@ + place_text(filename, line, col)
            + "\n want ["@ + quoted_list(expected@) + "]"@,
    }
}

/// Appends a place in a file to `out`.
fn push_place(out: &mut Vec<char>, filename: &Option<String>, line: usize, col: usize)
    ensures
        final(out)@ == old(out)@ + place_text(*filename, line, col),
{
    match filename {
        Some(name) => push_str(out, name.as_str()),
        None => push_str(out, "<>"),
    }
    push_str(out, ":");
    push_nat(out, line as u64);
    push_str(out, ":");
    push_nat(out, col as u64);
    assert(out@ =~= old(out)@ + place_text(*filename, line, col));
}

impl SyntaxError {
    /// The message of this error.
    pub fn to_string(&self) -> (r: String)
        ensures
            r@ == syntax_text(*self),
    {
        let mut out: Vec<char> = Vec::new();
        match self {
            SyntaxError::InvalidToken { token, filename, line, col } => {
                push_str(&mut out, "invalid token '");
                push_str(&mut out, token.as_str());
                push_str(&mut out, "' @ ");
                push_place(&mut out, filename, *line, *col);
                assert(out@ =~= syntax_text(*self));
            },
            SyntaxError::UnexpectedToken { token, filename, line, col, expected } => {
                push_str(&mut out, "unexpected token '");
                push_str(&mut out, token.as_str());
                push_str(&mut out, "' @ ");
                push_place(&mut out, filename, *line, *col);
                push_str(&mut out, "\n want [");
                let ghost head = out@;
                let mut i: usize = 0;
                assert(out@ =~= head + quoted_list(expected@.take(0)));
                while i < expected.len()
                    invariant
                        i <= expected.len(),
                        out@ == head + quoted_list(expected@.take(i as int)),
                    decreases expected.len() - i,
                {
                    if i > 0 {
                        push_str(&mut out, ", ");
                    }
                    push_str(&mut out, "\"");
                    push_str(&mut out, expected[i].as_str());
                    push_str(&mut out, "\"");
                    proof {
                        let taken = expected@.take(i as int + 1);
                        assert(taken.drop_last() =~= expected@.take(i as int));
                        assert(taken.last() == expected[i as int]);
                        assert(out@ =~= head + quoted_list(taken));
                    }
                    i += 1;
                }
                assert(expected@.take(expected.len() as int) =~= expected@);
                push_str(&mut out, "]");
                assert(out@ =~= syntax_text(*self));
            },
        }
        from_chars(&out)
    }
}

} // verus!
