//! The functions that the language provides.
//!
//! Those that write or read do so through the caller: here they say what is
//! to be written, and what a read comes to.

use vstd::prelude::*;
use vstd::string::StrSliceExecFns;
use crate::ast::{decl_of, Declaration};
use crate::dec::Dec;
use crate::error::{ErrorModel, IOError, IOErrorModel, RuntimeError, result_view};
use crate::operators::{as_int, both, int_of, mismatch, mismatched};
use crate::text::{
    char_from_code, code_point, from_chars, int_text, is_scalar, lemma_char_of_code, push_int,
    push_str, to_chars,
};
use crate::types::{type_text, Type, TypeModel};
use crate::util::assert_at_least_args;
use crate::value::{list_view, type_of, Func, Value, ValueModel};

verus! {

/// A piece of output: text, or a decimal that the caller is to write as
/// its floating-point unit writes it.
#[derive(Debug)]
pub enum Piece {
    Text(String),
    Dec(Dec),
}

/// The mathematical value of a [`Piece`].
pub ghost enum PieceModel {
    Text(Seq<char>),
    Dec(u64),
}

impl View for Piece {
    type V = PieceModel;

    open spec fn view(&self) -> PieceModel {
        match self {
            Piece::Text(s) => PieceModel::Text(s@),
            Piece::Dec(d) => PieceModel::Dec(d.bits),
        }
    }
}

/// The views of `pieces`, in order.
pub open spec fn pieces_view(pieces: Seq<Piece>) -> Seq<PieceModel> {
    Seq::new(pieces.len(), |i: int| pieces[i]@)
}

/// The one piece of the text `s`.
pub open spec fn text_piece(s: Seq<char>) -> Seq<PieceModel> {
    seq![PieceModel::Text(s)]
}

/// How the parameters of a function are written: each as its name, a space
/// and its type, with a comma between each two neighbours.
pub open spec fn params_text(decls: Seq<Declaration>) -> Seq<char>
    decreases decls.len(),
{
    if decls.len() == 0 {
        Seq::empty()
    } else if decls.len() == 1 {
        decl_of(decls[0]).name@ + " "@ + type_text(decl_of(decls[0]).declared_type@)
    } else {
        params_text(decls.drop_last()) + ","@ + decl_of(decls.last()).name@ + " "@ + type_text(
            decl_of(decls.last()).declared_type@,
        )
    }
}

/// The pieces that spell a value.
///
/// Nothing is written `None`, an integer in base ten, a string as it is, a
/// boolean `true` or `false`, a type as types are written. A list is written
/// in square brackets and a map between `<|` and `|>`, with a comma between
/// each two neighbours and a colon between key and value. A function of the
/// program is written as its header followed by `{...}`, a function of the
/// language as `builtin_function`. A break wrapper is not written.
pub open spec fn value_pieces(v: ValueModel) -> Seq<PieceModel>
    decreases v,
{
    match v {
        ValueModel::Unit => text_piece("None"@),
        ValueModel::Break(inner) => value_pieces(*inner),
        ValueModel::Int(i) => text_piece(int_text(i as int)),
        ValueModel::Dec(d) => seq![PieceModel::Dec(d)],
        ValueModel::Str(s) => text_piece(s),
        ValueModel::Bool(b) => text_piece(
            if b {
                "true"@
            } else {
                "false"@
            },
        ),
        ValueModel::List(items) => text_piece("["@) + item_pieces(items) + text_piece("]"@),
        ValueModel::Mapping(entries) => text_piece("<|"@) + entry_pieces(entries) + text_piece(
            "|>"@,
        ),
        ValueModel::Func(Func::Declared { decls, ret, .. }) => text_piece(
            "func("@ + params_text(decls@) + ")"@ + type_text(ret@) + "{...}"@,
        ),
        ValueModel::Func(Func::Native(_)) => text_piece("builtin_function"@),
        ValueModel::Type(t) => text_piece(type_text(t)),
    }
}

/// The pieces that spell the items of a list, with a comma between each two
/// neighbours.
pub open spec fn item_pieces(items: Seq<ValueModel>) -> Seq<PieceModel>
    decreases items,
{
    if items.len() == 0 {
        Seq::empty()
    } else if items.len() == 1 {
        value_pieces(items[0])
    } else {
        item_pieces(items.drop_last()) + text_piece(","@) + value_pieces(items.last())
    }
}

/// The pieces that spell one entry of a map: key, colon, value.
pub open spec fn one_entry_pieces(entry: (ValueModel, ValueModel)) -> Seq<PieceModel>
    decreases entry,
{
    value_pieces(entry.0) + text_piece(":"@) + value_pieces(entry.1)
}

/// The pieces that spell the entries of a map, with a comma between each
/// two neighbours.
pub open spec fn entry_pieces(entries: Seq<(ValueModel, ValueModel)>) -> Seq<PieceModel>
    decreases entries,
{
    if entries.len() == 0 {
        Seq::empty()
    } else if entries.len() == 1 {
        one_entry_pieces(entries[0])
    } else {
        entry_pieces(entries.drop_last()) + text_piece(","@) + one_entry_pieces(entries.last())
    }
}

/// Appends the piece of the text `s`.
fn push_text(out: &mut Vec<Piece>, s: &str)
    ensures
        pieces_view(final(out)@) == pieces_view(old(out)@) + text_piece(s@),
{
    out.push(Piece::Text(s.to_string()));
    assert(pieces_view(out@) =~= pieces_view(old(out)@) + text_piece(s@));
}

/// Appends the pieces that spell `value`.
fn format_into<'p>(value: &Value<'p>, out: &mut Vec<Piece>)
    ensures
        pieces_view(final(out)@) == pieces_view(old(out)@) + value_pieces(value@),
    decreases value,
{
    let ghost start = pieces_view(out@);
    match value {
        Value::Unit => push_text(out, "None"),
        Value::Break(inner) => format_into(inner, out),
        Value::Int(i) => {
            let mut text: Vec<char> = Vec::new();
            push_int(&mut text, *i);
            assert(text@ =~= int_text(*i as int));
            let s = from_chars(&text);
            push_text(out, s.as_str());
        },
        Value::Dec(d) => {
            out.push(Piece::Dec(*d));
            assert(pieces_view(out@) =~= start + seq![PieceModel::Dec(d.bits)]);
        },
        Value::Str(s) => push_text(out, s.as_str()),
        Value::Bool(b) => {
            if *b {
                push_text(out, "true")
            } else {
                push_text(out, "false")
            }
        },
        Value::List(items) => {
            push_text(out, "[");
            let ghost opened = pieces_view(out@);
            let ghost models = value@->List_0;
            let mut i: usize = 0;
            assert(pieces_view(out@) =~= opened + item_pieces(models.take(0)));
            while i < items.len()
                invariant
                    i <= items.len(),
                    value is List,
                    value->List_0 == *items,
                    models == value@->List_0,
                    pieces_view(out@) == opened + item_pieces(models.take(i as int)),
                decreases items.len() - i,
            {
                if i > 0 {
                    push_text(out, ",");
                }
                format_into(&items[i], out);
                proof {
                    let taken = models.take(i as int + 1);
                    assert(taken.drop_last() =~= models.take(i as int));
                    assert(taken.last() == items[i as int]@);
                    assert(pieces_view(out@) =~= opened + item_pieces(taken));
                }
                i += 1;
            }
            assert(models.take(items.len() as int) =~= models);
            push_text(out, "]");
            assert(pieces_view(out@) =~= start + value_pieces(value@));
        },
        Value::Mapping(entries) => {
            push_text(out, "<|");
            let ghost opened = pieces_view(out@);
            let ghost models = value@->Mapping_0;
            let mut i: usize = 0;
            assert(pieces_view(out@) =~= opened + entry_pieces(models.take(0)));
            while i < entries.len()
                invariant
                    i <= entries.len(),
                    value is Mapping,
                    value->Mapping_0 == *entries,
                    models == value@->Mapping_0,
                    pieces_view(out@) == opened + entry_pieces(models.take(i as int)),
                decreases entries.len() - i,
            {
                if i > 0 {
                    push_text(out, ",");
                }
                format_into(&entries[i].0, out);
                push_text(out, ":");
                format_into(&entries[i].1, out);
                proof {
                    let taken = models.take(i as int + 1);
                    assert(taken.drop_last() =~= models.take(i as int));
                    assert(taken.last() == (entries[i as int].0@, entries[i as int].1@));
                    assert(one_entry_pieces(taken.last()) == value_pieces(taken.last().0)
                        + text_piece(":"@) + value_pieces(taken.last().1));
                    assert(pieces_view(out@) =~= opened + entry_pieces(taken));
                }
                i += 1;
            }
            assert(models.take(entries.len() as int) =~= models);
            push_text(out, "|>");
            assert(pieces_view(out@) =~= start + value_pieces(value@));
        },
        Value::Func(Func::Declared { decls, ret, .. }) => {
            let mut text: Vec<char> = Vec::new();
            push_str(&mut text, "func(");
            let mut i: usize = 0;
            assert(decls@.take(0) =~= Seq::empty());
            while i < decls.len()
                invariant
                    i <= decls.len(),
                    text@ == "func("@ + params_text(decls@.take(i as int)),
                decreases decls.len() - i,
            {
                if i > 0 {
                    push_str(&mut text, ",");
                }
                let decl = decls[i].decl();
                push_str(&mut text, decl.name.as_str());
                push_str(&mut text, " ");
                let kind = decl.declared_type.to_string();
                push_str(&mut text, kind.as_str());
                proof {
                    let taken = decls@.take(i as int + 1);
                    assert(taken.drop_last() =~= decls@.take(i as int));
                    assert(taken.last() == decls[i as int]);
                    assert(text@ =~= "func("@ + params_text(taken));
                }
                i += 1;
            }
            assert(decls@.take(decls.len() as int) =~= decls@);
            push_str(&mut text, ")");
            let kind = ret.to_string();
            push_str(&mut text, kind.as_str());
            push_str(&mut text, "{...}");
            let s = from_chars(&text);
            push_text(out, s.as_str());
        },
        Value::Func(Func::Native(_)) => push_text(out, "builtin_function"),
        Value::Type(t) => {
            let s = t.to_string();
            push_text(out, s.as_str());
        },
    }
}

/// The pieces that spell `value`.
pub fn format_value<'p>(value: &Value<'p>) -> (r: Vec<Piece>)
    ensures
        pieces_view(r@) == value_pieces(value@),
{
    let mut out: Vec<Piece> = Vec::new();
    assert(pieces_view(out@) =~= Seq::empty());
    format_into(value, &mut out);
    assert(pieces_view(out@) =~= value_pieces(value@));
    out
}

/// What `print` writes: its arguments, one after the other.
pub open spec fn printed(args: Seq<ValueModel>) -> Seq<PieceModel>
    decreases args.len(),
{
    if args.len() == 0 {
        Seq::empty()
    } else {
        printed(args.drop_last()) + value_pieces(args.last())
    }
}

/// Its arguments, each followed by the end of a line.
pub open spec fn printed_lines(args: Seq<ValueModel>) -> Seq<PieceModel>
    decreases args.len(),
{
    if args.len() == 0 {
        Seq::empty()
    } else {
        printed_lines(args.drop_last()) + value_pieces(args.last()) + text_piece("\n"@)
    }
}

/// What `print` is to write: its arguments, one after the other.
pub fn print<'p>(args: &Vec<Value<'p>>) -> (r: Vec<Piece>)
    ensures
        pieces_view(r@) == printed(list_view(args@)),
{
    let mut out: Vec<Piece> = Vec::new();
    let ghost models = list_view(args@);
    let mut i: usize = 0;
    assert(pieces_view(out@) =~= printed(models.take(0)));
    while i < args.len()
        invariant
            i <= args.len(),
            models == list_view(args@),
            pieces_view(out@) == printed(models.take(i as int)),
        decreases args.len() - i,
    {
        format_into(&args[i], &mut out);
        proof {
            let taken = models.take(i as int + 1);
            assert(taken.drop_last() =~= models.take(i as int));
            assert(taken.last() == args[i as int]@);
        }
        i += 1;
    }
    assert(models.take(args.len() as int) =~= models);
    out
}

/// What `printline` is to write: each argument followed by the end of a
/// line, or, without arguments, the end of a line.
pub fn println<'p>(args: &Vec<Value<'p>>) -> (r: Vec<Piece>)
    ensures
        pieces_view(r@) == if args.len() == 0 {
            text_piece("\n"@)
        } else {
            printed_lines(list_view(args@))
        },
{
    let mut out: Vec<Piece> = Vec::new();
    if args.len() == 0 {
        assert(pieces_view(out@) =~= Seq::empty());
        push_text(&mut out, "\n");
        assert(pieces_view(out@) =~= text_piece("\n"@));
        return out;
    }
    let ghost models = list_view(args@);
    let mut i: usize = 0;
    assert(pieces_view(out@) =~= printed_lines(models.take(0)));
    while i < args.len()
        invariant
            i <= args.len(),
            models == list_view(args@),
            pieces_view(out@) == printed_lines(models.take(i as int)),
        decreases args.len() - i,
    {
        format_into(&args[i], &mut out);
        push_text(&mut out, "\n");
        proof {
            let taken = models.take(i as int + 1);
            assert(taken.drop_last() =~= models.take(i as int));
            assert(taken.last() == args[i as int]@);
        }
        i += 1;
    }
    assert(models.take(args.len() as int) =~= models);
    out
}

/// A length as an integer of the language: the largest integer where the
/// length is larger still.
pub open spec fn as_length(n: nat) -> i64 {
    if n > i64::MAX {
        i64::MAX
    } else {
        n as i64
    }
}

/// What `len` gives: the number of characters of a string, of items of a
/// list, of entries of a map.
pub open spec fn length_of<'p>(args: Seq<ValueModel<'p>>) -> Result<ValueModel<'p>, ErrorModel<'p>> {
    if args.len() < 1 {
        Err(ErrorModel::NotEnoughArguments { want: 1, got: args.len() as usize })
    } else {
        match args[0] {
            ValueModel::Str(s) => Ok(ValueModel::Int(as_length(s.len()))),
            ValueModel::List(items) => Ok(ValueModel::Int(as_length(items.len()))),
            ValueModel::Mapping(entries) => Ok(ValueModel::Int(as_length(entries.len()))),
            _ => Err(ErrorModel::TakingLenOfLengthless { got: type_of(args[0]) }),
        }
    }
}

fn length(n: usize) -> (r: i64)
    ensures
        r == as_length(n as nat),
{
    let wide = n as u64;
    if wide > 0x7fff_ffff_ffff_ffff {
        i64::MAX
    } else {
        wide as i64
    }
}

/// The length of a string, a list or a map.
pub fn len<'p>(args: &Vec<Value<'p>>) -> (r: Result<Value<'p>, RuntimeError<'p>>)
    ensures
        result_view(r) == length_of(list_view(args@)),
{
    assert_at_least_args(1, args.len())?;
    let val = &args[0];
    match val {
        Value::Str(s) => Ok(Value::Int(length(s.as_str().unicode_len()))),
        Value::List(items) => Ok(Value::Int(length(items.len()))),
        Value::Mapping(entries) => Ok(Value::Int(length(entries.len()))),
        _ => Err(RuntimeError::TakingLenOfLengthless { got: val.type_of() }),
    }
}

/// The integers from `start`, each `step` after the one before, as long as
/// they come before `end`: for a negative `step`, as long as they are
/// greater than `end`.
pub open spec fn range_items<'p>(start: int, end: int, step: int) -> Seq<ValueModel<'p>>
    decreases
        if step > 0 && start < end {
            end - start
        } else if step < 0 && start > end {
            start - end
        } else {
            0
        },
{
    if (step > 0 && start < end) || (step < 0 && start > end) {
        seq![ValueModel::Int(start as i64)] + range_items(start + step, end, step)
    } else {
        Seq::empty()
    }
}

/// What `range` gives: a step of zero is an error.
pub open spec fn range_of<'p>(args: Seq<ValueModel<'p>>) -> Result<ValueModel<'p>, ErrorModel<'p>> {
    if args.len() < 3 {
        Err(ErrorModel::NotEnoughArguments { want: 3, got: args.len() as usize })
    } else {
        match both(both(int_of(args[0]), int_of(args[1])), int_of(args[2])) {
            Err(e) => Err(e),
            Ok(((start, end), step)) => if step == 0 {
                Err(ErrorModel::InvalidRangeStep(0))
            } else {
                Ok(ValueModel::List(range_items(start as int, end as int, step as int)))
            },
        }
    }
}

/// The list of the integers from the first argument up to the second, or
/// down to it, by steps of the third.
pub fn range<'p>(args: &Vec<Value<'p>>) -> (r: Result<Value<'p>, RuntimeError<'p>>)
    ensures
        result_view(r) == range_of(list_view(args@)),
{
    assert_at_least_args(3, args.len())?;
    let start = as_int(&args[0])?;
    let end = as_int(&args[1])?;
    let step = as_int(&args[2])?;
    if step == 0 {
        return Err(RuntimeError::InvalidRangeStep(0));
    }
    let mut out: Vec<Value<'p>> = Vec::new();
    let mut cur: i128 = start as i128;
    let ghost whole = range_items::<'p>(start as int, end as int, step as int);
    assert(list_view(out@) + range_items::<'p>(cur as int, end as int, step as int) =~= whole);
    while (step > 0 && cur < end as i128) || (step < 0 && cur > end as i128)
        invariant
            step != 0,
            -0x1_0000_0000_0000_0000 <= cur <= 0x1_0000_0000_0000_0000,
            (step > 0 ==> cur >= start),
            (step < 0 ==> cur <= start),
            list_view(out@) + range_items::<'p>(cur as int, end as int, step as int) == whole,
        decreases
            if step > 0 && cur < end {
                end - cur
            } else if step < 0 && cur > end {
                cur - end
            } else {
                0
            },
    {
        let ghost before = list_view(out@);
        out.push(Value::Int(cur as i64));
        assert(list_view(out@) =~= before.push(ValueModel::Int(cur as i64)));
        assert(list_view(out@) + range_items::<'p>(cur + step, end as int, step as int) =~= whole);
        cur = cur + step as i128;
    }
    assert(list_view(out@) =~= whole);
    let result = Value::List(out);
    proof {
        crate::value::lemma_list_view(result->List_0);
    }
    Ok(result)
}

/// What `repeat` gives: the list of as many copies of the first argument as
/// the second argument says, and the empty list where that is negative.
pub open spec fn repeat_of<'p>(args: Seq<ValueModel<'p>>) -> Result<ValueModel<'p>, ErrorModel<'p>> {
    if args.len() < 2 {
        Err(ErrorModel::NotEnoughArguments { want: 2, got: args.len() as usize })
    } else {
        match int_of(args[1]) {
            Err(e) => Err(e),
            Ok(count) => Ok(
                ValueModel::List(
                    Seq::new(
                        if count < 0 {
                            0
                        } else {
                            count as nat
                        },
                        |i: int| args[0],
                    ),
                ),
            ),
        }
    }
}

/// The list of copies of a value.
pub fn repeat<'p>(args: &Vec<Value<'p>>) -> (r: Result<Value<'p>, RuntimeError<'p>>)
    ensures
        result_view(r) == repeat_of(list_view(args@)),
{
    assert_at_least_args(2, args.len())?;
    let ele = &args[0];
    let count = as_int(&args[1])?;
    let mut out: Vec<Value<'p>> = Vec::new();
    let mut i: i64 = 0;
    while i < count
        invariant
            0 <= i,
            i <= count || count < 0,
            count < 0 ==> i == 0,
            out.len() == i,
            forall|j: int| 0 <= j < i ==> out[j]@ == ele@,
        decreases count - i,
    {
        out.push(ele.duplicate());
        i += 1;
    }
    let result = Value::List(out);
    assert(result@->List_0 =~= Seq::new(
        if count < 0 {
            0
        } else {
            count as nat
        },
        |i: int| ele@,
    ));
    Ok(result)
}

/// What reading one character comes to: the string of that character, or
/// the error that there was none.
pub fn inputchar<'p>(read: Option<char>) -> (r: Result<Value<'p>, RuntimeError<'p>>)
    ensures
        result_view(r) == match read {
            Some(c) => Ok::<ValueModel<'p>, ErrorModel<'p>>(ValueModel::Str(seq![c])),
            None => Err(ErrorModel::IOError(IOErrorModel::CouldNotGetChar)),
        },
{
    match read {
        Some(c) => {
            let mut text: Vec<char> = Vec::new();
            text.push(c);
            assert(text@ =~= seq![c]);
            Ok(Value::Str(from_chars(&text)))
        },
        None => Err(RuntimeError::IOError(IOError::CouldNotGetChar)),
    }
}

/// What reading one line comes to: the string of that line, or the error
/// of the kind that the read failed with.
pub fn inputline<'p>(read: Result<String, String>) -> (r: Result<Value<'p>, RuntimeError<'p>>)
    ensures
        result_view(r) == match read {
            Ok(line) => Ok::<ValueModel<'p>, ErrorModel<'p>>(ValueModel::Str(line@)),
            Err(kind) => Err(ErrorModel::IOError(IOErrorModel::ErrorKind(kind@))),
        },
{
    match read {
        Ok(line) => Ok(Value::Str(line)),
        Err(kind) => Err(RuntimeError::IOError(IOError::ErrorKind(kind))),
    }
}

/// What reading all of the input comes to: the string of it.
pub fn inputall<'p>(read: String) -> (r: Result<Value<'p>, RuntimeError<'p>>)
    ensures
        result_view(r) == Ok::<ValueModel<'p>, ErrorModel<'p>>(ValueModel::Str(read@)),
{
    Ok(Value::Str(read))
}

/// What `char` gives: the string of the character with the given code
/// point. A code point that is not positive, or not that of a character, is
/// a domain error.
pub open spec fn char_of<'p>(args: Seq<ValueModel<'p>>) -> Result<ValueModel<'p>, ErrorModel<'p>> {
    if args.len() < 1 {
        Err(ErrorModel::NotEnoughArguments { want: 1, got: args.len() as usize })
    } else {
        match args[0] {
            ValueModel::Int(i) => if i > 0 && is_scalar(i as int) {
                Ok(ValueModel::Str(seq![i as char]))
            } else {
                Err(ErrorModel::IntToStrDomainError { got: i })
            },
            _ => Err(mismatch(args[0], TypeModel::Int)),
        }
    }
}

/// The string of the character with a code point.
pub fn char<'p>(args: &Vec<Value<'p>>) -> (r: Result<Value<'p>, RuntimeError<'p>>)
    ensures
        result_view(r) == char_of(list_view(args@)),
{
    assert_at_least_args(1, args.len())?;
    let ele = &args[0];
    match ele {
        Value::Int(i) => {
            if *i > 0 && *i <= 0x10FFFF {
                match char_from_code(*i as u32) {
                    Some(c) => {
                        let mut text: Vec<char> = Vec::new();
                        text.push(c);
                        proof {
                            lemma_char_of_code(c, *i);
                        }
                        assert(text@ =~= seq![*i as char]);
                        Ok(Value::Str(from_chars(&text)))
                    },
                    None => Err(RuntimeError::IntToStrDomainError { got: *i }),
                }
            } else {
                Err(RuntimeError::IntToStrDomainError { got: *i })
            }
        },
        _ => Err(mismatched(ele, Type::Int)),
    }
}

/// What `ord` gives: the code point of the one character of a string. A
/// string of no character, or of several, is an error.
pub open spec fn ord_of<'p>(args: Seq<ValueModel<'p>>) -> Result<ValueModel<'p>, ErrorModel<'p>> {
    if args.len() < 1 {
        Err(ErrorModel::NotEnoughArguments { want: 1, got: args.len() as usize })
    } else {
        match args[0] {
            ValueModel::Str(s) => if s.len() == 1 {
                Ok(ValueModel::Int(s[0] as i64))
            } else {
                Err(ErrorModel::OrdOnlyAllowsSingleCharacterStrings { got: s })
            },
            _ => Err(mismatch(args[0], TypeModel::Int)),
        }
    }
}

/// The code point of the one character of a string.
pub fn ord<'p>(args: &Vec<Value<'p>>) -> (r: Result<Value<'p>, RuntimeError<'p>>)
    ensures
        result_view(r) == ord_of(list_view(args@)),
{
    assert_at_least_args(1, args.len())?;
    let ele = &args[0];
    match ele {
        Value::Str(s) => {
            let chars = to_chars(s.as_str());
            if chars.len() == 1 {
                let code = code_point(chars[0]);
                Ok(Value::Int(code as i64))
            } else {
                Err(RuntimeError::OrdOnlyAllowsSingleCharacterStrings { got: s.clone() })
            }
        },
        _ => Err(mismatched(ele, Type::Int)),
    }
}

} // verus!
