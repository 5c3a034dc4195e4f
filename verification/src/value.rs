//! The values of the language.

use vstd::prelude::*;
use vstd::std_specs::cmp::PartialEqSpecImpl;
use crate::text::to_chars;
use crate::ast::{decl_of, Declaration, Expr};
use crate::dec::{dec_eq, dec_order, Dec, Rel};
use crate::error::RuntimeError;
use crate::types::{Type, TypeModel};

verus! {

/// The functions that the language provides.
#[derive(Debug, Clone, Copy, PartialEq, Eq, Structural)]
pub enum Builtin {
    Print,
    PrintLine,
    Len,
    Range,
    Repeat,
    InputChar,
    InputLine,
    InputAll,
    Ordinal,
    Character,
}

/// How a function of the language is called in messages.
pub open spec fn builtin_label(builtin: Builtin) -> Seq<char> {
    match builtin {
        Builtin::Print => "print"@,
        Builtin::PrintLine => "println"@,
        Builtin::Len => "len"@,
        Builtin::Range => "range"@,
        Builtin::Repeat => "repeat"@,
        Builtin::InputChar => "inputchar"@,
        Builtin::InputLine => "inline"@,
        Builtin::InputAll => "inall"@,
        Builtin::Ordinal => "ord"@,
        Builtin::Character => "char"@,
    }
}

impl Builtin {
    /// How this function is called in messages.
    pub fn label(&self) -> (r: &'static str)
        ensures
            r@ == builtin_label(*self),
    {
        match self {
            Builtin::Print => "print",
            Builtin::PrintLine => "println",
            Builtin::Len => "len",
            Builtin::Range => "range",
            Builtin::Repeat => "repeat",
            Builtin::InputChar => "inputchar",
            Builtin::InputLine => "inline",
            Builtin::InputAll => "inall",
            Builtin::Ordinal => "ord",
            Builtin::Character => "char",
        }
    }
}

/// A function value.
#[derive(Debug, Clone, Copy)]
pub enum Func<'p> {
    /// One of the functions that the language provides.
    Native(Builtin),
    /// A function of the program: its parameters, its return type, its body,
    /// and the scope that it owns, in which its parameters are bound.
    Declared { decls: &'p Vec<Declaration>, ret: &'p Type, body: &'p Vec<Expr>, env: usize },
}

/// A value.
#[derive(Debug)]
pub enum Value<'p> {
    Unit,
    Break(Box<Value<'p>>),
    Int(i64),
    Dec(Dec),
    Str(String),
    Bool(bool),
    List(Vec<Value<'p>>),
    Mapping(Vec<(Value<'p>, Value<'p>)>),
    Func(Func<'p>),
    Type(Type),
}

/// The mathematical value of a [`Value`]: a decimal is its bit pattern, a
/// string and a list are sequences, a map is the sequence of its entries in
/// the order in which their keys were first inserted.
pub ghost enum ValueModel<'p> {
    Unit,
    Break(Box<ValueModel<'p>>),
    Int(i64),
    Dec(u64),
    Str(Seq<char>),
    Bool(bool),
    List(Seq<ValueModel<'p>>),
    Mapping(Seq<(ValueModel<'p>, ValueModel<'p>)>),
    Func(Func<'p>),
    Type(TypeModel),
}

/// The mathematical value of a value.
pub open spec fn value_model<'p>(v: Value<'p>) -> ValueModel<'p>
    decreases v,
{
    match v {
        Value::Unit => ValueModel::Unit,
        Value::Break(inner) => ValueModel::Break(Box::new(value_model(*inner))),
        Value::Int(i) => ValueModel::Int(i),
        Value::Dec(d) => ValueModel::Dec(d.bits),
        Value::Str(s) => ValueModel::Str(s@),
        Value::Bool(b) => ValueModel::Bool(b),
        Value::List(items) => ValueModel::List(
            Seq::new(
                items.len() as nat,
                |i: int|
                    if 0 <= i < items.len() {
                        value_model(items[i])
                    } else {
                        ValueModel::Unit
                    },
            ),
        ),
        Value::Mapping(entries) => ValueModel::Mapping(
            Seq::new(
                entries.len() as nat,
                |i: int|
                    if 0 <= i < entries.len() {
                        (value_model(entries[i].0), value_model(entries[i].1))
                    } else {
                        (ValueModel::Unit, ValueModel::Unit)
                    },
            ),
        ),
        Value::Func(f) => ValueModel::Func(f),
        Value::Type(t) => ValueModel::Type(t@),
    }
}

impl<'p> View for Value<'p> {
    type V = ValueModel<'p>;

    open spec fn view(&self) -> ValueModel<'p> {
        value_model(*self)
    }
}

/// The views of the values of `items`, in order.
pub open spec fn list_view<'p>(items: Seq<Value<'p>>) -> Seq<ValueModel<'p>> {
    Seq::new(items.len(), |i: int| items[i]@)
}

/// The views of the entries of `entries`, in order.
pub open spec fn entries_view<'p>(entries: Seq<(Value<'p>, Value<'p>)>) -> Seq<
    (ValueModel<'p>, ValueModel<'p>),
> {
    Seq::new(entries.len(), |i: int| (entries[i].0@, entries[i].1@))
}

/// The view of a list value is the list of its items' views.
pub proof fn lemma_list_view<'p>(items: Vec<Value<'p>>)
    ensures
        Value::List(items)@ == ValueModel::List(list_view(items@)),
{
    assert(Value::List(items)@->List_0 =~= list_view(items@));
}

/// The view of a map value is the sequence of its entries' views.
pub proof fn lemma_mapping_view<'p>(entries: Vec<(Value<'p>, Value<'p>)>)
    ensures
        Value::Mapping(entries)@ == ValueModel::Mapping(entries_view(entries@)),
{
    assert(Value::Mapping(entries)@->Mapping_0 =~= entries_view(entries@));
}

/// The declared types of `decls`, in order.
pub open spec fn decl_types(decls: Seq<Declaration>) -> Seq<TypeModel> {
    Seq::new(decls.len(), |i: int| decl_of(decls[i]).declared_type@)
}

/// The type of a value, by its structure.
///
/// A list has the type of its first item as item type, a map those of its
/// first entry as key and value type; the empty list and the empty map have
/// the placeholder `none` there. A function of the program has its declared
/// parameter and return types; a function of the language counts as variadic
/// with no result.
pub open spec fn type_of(v: ValueModel) -> TypeModel
    decreases v,
{
    match v {
        ValueModel::Unit => TypeModel::Unit,
        ValueModel::Break(inner) => TypeModel::Break(Box::new(type_of(*inner))),
        ValueModel::Int(_) => TypeModel::Int,
        ValueModel::Dec(_) => TypeModel::Dec,
        ValueModel::Str(_) => TypeModel::Str,
        ValueModel::Bool(_) => TypeModel::Bool,
        ValueModel::List(items) => TypeModel::List(
            Box::new(
                if items.len() > 0 {
                    type_of(items[0])
                } else {
                    TypeModel::Unit
                },
            ),
        ),
        ValueModel::Mapping(entries) => if entries.len() > 0 {
            TypeModel::Mapping(
                Box::new(type_of(entries[0].0)),
                Box::new(type_of(entries[0].1)),
            )
        } else {
            TypeModel::Mapping(Box::new(TypeModel::Unit), Box::new(TypeModel::Unit))
        },
        ValueModel::Func(Func::Declared { decls, ret, .. }) => TypeModel::Func(
            decl_types(decls@),
            Box::new(ret@),
        ),
        ValueModel::Func(Func::Native(_)) => TypeModel::Func(
            seq![TypeModel::BuiltinVariadic],
            Box::new(TypeModel::Unit),
        ),
        ValueModel::Type(t) => t,
    }
}

/// The value without its break wrapper, if it has one.
pub open spec fn unbroken<'p>(v: ValueModel<'p>) -> ValueModel<'p> {
    match v {
        ValueModel::Break(inner) => *inner,
        _ => v,
    }
}

/// Whether a type has a default value: every type has but function types
/// and `any`.
pub open spec fn has_default(t: TypeModel) -> bool
    decreases t,
{
    match t {
        TypeModel::Func(_, _) => false,
        TypeModel::Any => false,
        TypeModel::Break(inner) => has_default(*inner),
        _ => true,
    }
}

/// The default value of a type: zero, the empty string, `false`, the empty
/// list or map, nothing.
pub open spec fn default_of<'p>(t: TypeModel) -> ValueModel<'p>
    decreases t,
{
    match t {
        TypeModel::Int => ValueModel::Int(0),
        TypeModel::Dec => ValueModel::Dec(0),
        TypeModel::Str => ValueModel::Str(Seq::empty()),
        TypeModel::Bool => ValueModel::Bool(false),
        TypeModel::List(_) => ValueModel::List(Seq::empty()),
        TypeModel::Mapping(_, _) => ValueModel::Mapping(Seq::empty()),
        TypeModel::Break(inner) => ValueModel::Break(Box::new(default_of(*inner))),
        _ => ValueModel::Unit,
    }
}

/// Whether a value is homogeneous: the items of a list all have the type of
/// the first and are homogeneous themselves, and so have the keys of a map,
/// and its values.
pub open spec fn homogeneous(v: ValueModel) -> bool
    decreases v,
{
    match v {
        ValueModel::List(items) => forall|i: int|
            0 <= i < items.len() ==> {
                &&& homogeneous(#[trigger] items[i])
                &&& type_of(items[i]) == type_of(items[0])
            },
        ValueModel::Mapping(entries) => forall|i: int|
            0 <= i < entries.len() ==> {
                &&& homogeneous((#[trigger] entries[i]).0)
                &&& homogeneous(entries[i].1)
                &&& type_of(entries[i].0) == type_of(entries[0].0)
                &&& type_of(entries[i].1) == type_of(entries[0].1)
            },
        ValueModel::Break(inner) => homogeneous(*inner),
        _ => true,
    }
}

/// How two texts stand in the order of the dictionary, character by
/// character.
pub open spec fn text_order(x: Seq<char>, y: Seq<char>) -> Rel
    decreases x.len(),
{
    if x.len() == 0 {
        if y.len() == 0 {
            Rel::Equal
        } else {
            Rel::Less
        }
    } else if y.len() == 0 {
        Rel::Greater
    } else if x[0] < y[0] {
        Rel::Less
    } else if x[0] > y[0] {
        Rel::Greater
    } else {
        text_order(x.drop_first(), y.drop_first())
    }
}

/// How two integers stand in their order.
pub open spec fn int_order(x: int, y: int) -> Rel {
    if x < y {
        Rel::Less
    } else if x == y {
        Rel::Equal
    } else {
        Rel::Greater
    }
}

/// The index of the first entry whose key equals `key`.
pub open spec fn assoc_index<'p>(
    entries: Seq<(ValueModel<'p>, ValueModel<'p>)>,
    key: ValueModel<'p>,
) -> Option<int>
    decreases key, entries.len(),
{
    if entries.len() == 0 {
        None
    } else {
        match assoc_index(entries.drop_last(), key) {
            Some(i) => Some(i),
            None => if value_eq(key, entries.last().0) {
                Some(entries.len() - 1)
            } else {
                None
            },
        }
    }
}

/// The value of the first entry whose key equals `key`.
pub open spec fn assoc_get<'p>(
    entries: Seq<(ValueModel<'p>, ValueModel<'p>)>,
    key: ValueModel<'p>,
) -> Option<ValueModel<'p>> {
    match assoc_index(entries, key) {
        Some(i) => Some(entries[i].1),
        None => None,
    }
}

/// Whether two values are equal.
///
/// Values of different kinds are unequal, and so are two functions.
/// Nothing equals nothing. Integers, strings, booleans and types are equal
/// when they are the same, decimals when they are the same number, lists
/// when they are equal item by item. Two maps are equal when they have as many entries and
/// each key of the first is found in the second, with an equal value.
pub open spec fn value_eq<'p>(a: ValueModel<'p>, b: ValueModel<'p>) -> bool
    decreases a, 0nat,
{
    match (a, b) {
        (ValueModel::Unit, ValueModel::Unit) => true,
        (ValueModel::Type(x), ValueModel::Type(y)) => x == y,
        (ValueModel::Int(x), ValueModel::Int(y)) => x == y,
        (ValueModel::Dec(x), ValueModel::Dec(y)) => dec_eq(x, y),
        (ValueModel::Str(x), ValueModel::Str(y)) => x == y,
        (ValueModel::Bool(x), ValueModel::Bool(y)) => x == y,
        (ValueModel::List(x), ValueModel::List(y)) => x.len() == y.len() && forall|i: int|
            0 <= i < x.len() ==> value_eq(#[trigger] x[i], y[i]),
        (ValueModel::Mapping(x), ValueModel::Mapping(y)) => x.len() == y.len() && forall|i: int|
            0 <= i < x.len() ==> entry_found(#[trigger] x[i], y),
        (ValueModel::Break(x), ValueModel::Break(y)) => value_eq(*x, *y),
        _ => false,
    }
}

/// Whether the key of `entry` is found in `entries`, with an equal value.
pub open spec fn entry_found<'p>(
    entry: (ValueModel<'p>, ValueModel<'p>),
    entries: Seq<(ValueModel<'p>, ValueModel<'p>)>,
) -> bool
    decreases entry, 1nat,
{
    match assoc_index(entries, entry.0) {
        Some(i) => value_eq(entry.1, entries[i].1),
        None => false,
    }
}

/// How two values stand in the order of their kind; nothing where they are
/// of different kinds, or of a kind without an order.
pub open spec fn value_order<'p>(a: ValueModel<'p>, b: ValueModel<'p>) -> Option<Rel>
    decreases a,
{
    match (a, b) {
        (ValueModel::Unit, ValueModel::Unit) => Some(Rel::Equal),
        (ValueModel::Int(x), ValueModel::Int(y)) => Some(int_order(x as int, y as int)),
        (ValueModel::Dec(x), ValueModel::Dec(y)) => dec_order(x, y),
        (ValueModel::Str(x), ValueModel::Str(y)) => Some(text_order(x, y)),
        (ValueModel::Bool(x), ValueModel::Bool(y)) => Some(
            if x == y {
                Rel::Equal
            } else if y {
                Rel::Less
            } else {
                Rel::Greater
            },
        ),
        (ValueModel::Break(x), ValueModel::Break(y)) => value_order(*x, *y),
        _ => None,
    }
}

/// Whether a type has a default value.
pub fn defaultable(t: &Type) -> (r: bool)
    ensures
        r == has_default(t@),
    decreases t,
{
    match t {
        Type::Func(_, _) => false,
        Type::Any => false,
        Type::Break(inner) => defaultable(inner),
        _ => true,
    }
}

/// A match in a prefix of the entries is the match in all of them.
pub proof fn lemma_assoc_index_prefix<'p>(
    entries: Seq<(ValueModel<'p>, ValueModel<'p>)>,
    key: ValueModel<'p>,
    n: int,
)
    requires
        0 <= n <= entries.len(),
        assoc_index(entries.take(n), key) is Some,
    ensures
        assoc_index(entries, key) == assoc_index(entries.take(n), key),
    decreases entries.len() - n,
{
    if n < entries.len() {
        assert(entries.take(n + 1).drop_last() =~= entries.take(n));
        lemma_assoc_index_prefix(entries, key, n + 1);
    } else {
        assert(entries.take(n) =~= entries);
    }
}

/// What a match says: it is the first entry whose key equals `key`.
pub proof fn lemma_assoc_index_first<'p>(
    entries: Seq<(ValueModel<'p>, ValueModel<'p>)>,
    key: ValueModel<'p>,
)
    ensures
        match assoc_index(entries, key) {
            Some(i) => 0 <= i < entries.len() && value_eq(key, entries[i].0) && forall|j: int|
                0 <= j < i ==> !value_eq(key, #[trigger] entries[j].0),
            None => forall|j: int| 0 <= j < entries.len() ==> !value_eq(key, #[trigger] entries[j].0),
        },
    decreases entries.len(),
{
    if entries.len() > 0 {
        lemma_assoc_index_first(entries.drop_last(), key);
        assert(forall|j: int|
            0 <= j < entries.len() - 1 ==> entries.drop_last()[j] == #[trigger] entries[j]);
    }
}

/// The index of the first entry of `entries` whose key equals `key`.
pub fn find_entry<'p>(entries: &Vec<(Value<'p>, Value<'p>)>, key: &Value<'p>) -> (r: Option<usize>)
    ensures
        match r {
            Some(i) => assoc_index(entries_view(entries@), key@) == Some(i as int) && i
                < entries.len(),
            None => assoc_index(entries_view(entries@), key@) is None,
        },
    decreases *key, 1nat,
{
    let ghost model = entries_view(entries@);
    let mut j: usize = 0;
    while j < entries.len()
        invariant
            j <= entries.len(),
            model == entries_view(entries@),
            assoc_index(model.take(j as int), key@) is None,
        decreases entries.len() - j,
    {
        proof {
            assert(model.take(j as int + 1).drop_last() =~= model.take(j as int));
            assert(model.take(j as int + 1).last() == model[j as int]);
        }
        if key.same(&entries[j].0) {
            proof {
                lemma_assoc_index_prefix(model, key@, j as int + 1);
            }
            return Some(j);
        }
        j += 1;
    }
    assert(model.take(entries.len() as int) =~= model);
    None
}

/// How two texts stand in the order of the dictionary.
pub fn compare_text(a: &str, b: &str) -> (r: Rel)
    ensures
        r == text_order(a@, b@),
{
    let x = to_chars(a);
    let y = to_chars(b);
    let mut i: usize = 0;
    assert(x@.skip(0) =~= x@ && y@.skip(0) =~= y@);
    while i < x.len() && i < y.len()
        invariant
            i <= x.len(),
            i <= y.len(),
            x@ == a@,
            y@ == b@,
            text_order(a@, b@) == text_order(x@.skip(i as int), y@.skip(i as int)),
        decreases x.len() - i,
    {
        proof {
            assert(x@.skip(i as int).drop_first() =~= x@.skip(i as int + 1));
            assert(y@.skip(i as int).drop_first() =~= y@.skip(i as int + 1));
        }
        if x[i] < y[i] {
            return Rel::Less;
        }
        if x[i] > y[i] {
            return Rel::Greater;
        }
        i += 1;
    }
    if i < y.len() {
        Rel::Less
    } else if i < x.len() {
        Rel::Greater
    } else {
        Rel::Equal
    }
}

impl<'p> Value<'p> {
    /// A copy of this value.
    pub fn duplicate(&self) -> (r: Value<'p>)
        ensures
            r@ == self@,
        decreases self,
    {
        match self {
            Value::Unit => Value::Unit,
            Value::Break(inner) => Value::Break(Box::new(inner.duplicate())),
            Value::Int(i) => Value::Int(*i),
            Value::Dec(d) => Value::Dec(*d),
            Value::Str(s) => Value::Str(s.clone()),
            Value::Bool(b) => Value::Bool(*b),
            Value::List(items) => {
                let mut out: Vec<Value<'p>> = Vec::new();
                let mut i: usize = 0;
                while i < items.len()
                    invariant
                        i <= items.len(),
                        out.len() == i,
                        self is List,
                        self->List_0 == *items,
                        forall|j: int| 0 <= j < i ==> out[j]@ == items[j]@,
                    decreases items.len() - i,
                {
                    out.push(items[i].duplicate());
                    i += 1;
                }
                let r = Value::List(out);
                assert(r@->List_0 =~= self@->List_0);
                r
            },
            Value::Mapping(entries) => {
                let mut out: Vec<(Value<'p>, Value<'p>)> = Vec::new();
                let mut i: usize = 0;
                while i < entries.len()
                    invariant
                        i <= entries.len(),
                        out.len() == i,
                        self is Mapping,
                        self->Mapping_0 == *entries,
                        forall|j: int|
                            0 <= j < i ==> out[j].0@ == entries[j].0@ && out[j].1@ == entries[j].1@,
                    decreases entries.len() - i,
                {
                    let k = entries[i].0.duplicate();
                    let v = entries[i].1.duplicate();
                    out.push((k, v));
                    i += 1;
                }
                let r = Value::Mapping(out);
                assert(r@->Mapping_0 =~= self@->Mapping_0);
                r
            },
            Value::Func(f) => Value::Func(*f),
            Value::Type(t) => Value::Type(t.duplicate()),
        }
    }

    /// Whether this value equals another.
    pub fn same(&self, other: &Value<'p>) -> (r: bool)
        ensures
            r == value_eq(self@, other@),
        decreases *self, 0nat,
    {
        match (self, other) {
            (Value::Unit, Value::Unit) => true,
            (Value::Type(x), Value::Type(y)) => x.same(y),
            (Value::Int(x), Value::Int(y)) => *x == *y,
            (Value::Dec(x), Value::Dec(y)) => x.equals(y),
            (Value::Str(x), Value::Str(y)) => *x == *y,
            (Value::Bool(x), Value::Bool(y)) => *x == *y,
            (Value::Break(x), Value::Break(y)) => x.same(y),
            (Value::List(x), Value::List(y)) => {
                assert(self@->List_0.len() == x.len() && other@->List_0.len() == y.len());
                if x.len() != y.len() {
                    return false;
                }
                let mut i: usize = 0;
                while i < x.len()
                    invariant
                        i <= x.len(),
                        x.len() == y.len(),
                        self is List,
                        self->List_0 == *x,
                        other is List,
                        other->List_0 == *y,
                        forall|j: int| 0 <= j < i ==> value_eq(x[j]@, y[j]@),
                    decreases x.len() - i,
                {
                    if !x[i].same(&y[i]) {
                        assert(self@->List_0[i as int] == x[i as int]@);
                        assert(other@->List_0[i as int] == y[i as int]@);
                        return false;
                    }
                    i += 1;
                }
                assert forall|j: int| 0 <= j < x.len() implies value_eq(
                    #[trigger] self@->List_0[j],
                    other@->List_0[j],
                ) by {
                    assert(value_eq(x[j]@, y[j]@));
                }
                true
            },
            (Value::Mapping(x), Value::Mapping(y)) => {
                assert(self@->Mapping_0.len() == x.len() && other@->Mapping_0.len() == y.len());
                if x.len() != y.len() {
                    return false;
                }
                proof {
                    lemma_mapping_view(*y);
                }
                let mut i: usize = 0;
                while i < x.len()
                    invariant
                        i <= x.len(),
                        x.len() == y.len(),
                        self is Mapping,
                        self->Mapping_0 == *x,
                        other is Mapping,
                        other->Mapping_0 == *y,
                        other@ == ValueModel::Mapping(entries_view(y@)),
                        forall|j: int|
                            0 <= j < i ==> entry_found(
                                #[trigger] self@->Mapping_0[j],
                                other@->Mapping_0,
                            ),
                    decreases x.len() - i,
                {
                    let ghost entry = self@->Mapping_0[i as int];
                    assert(entry == (x[i as int].0@, x[i as int].1@));
                    let found = match find_entry(y, &x[i].0) {
                        Some(j) => x[i].1.same(&y[j].1),
                        None => false,
                    };
                    assert(found == entry_found(entry, other@->Mapping_0));
                    if !found {
                        return false;
                    }
                    i += 1;
                }
                true
            },
            _ => false,
        }
    }

    /// The type of this value, by its structure.
    pub fn to_type(&self) -> (r: Result<Type, RuntimeError<'p>>)
        ensures
            r is Ok,
            r->Ok_0@ == type_of(self@),
        decreases self,
    {
        Ok(self.type_of())
    }

    /// The type of this value, by its structure.
    pub fn type_of(&self) -> (r: Type)
        ensures
            r@ == type_of(self@),
        decreases self,
    {
        match self {
            Value::Unit => Type::Unit,
            Value::Break(inner) => Type::Break(Box::new(inner.type_of())),
            Value::Int(_) => Type::Int,
            Value::Dec(_) => Type::Dec,
            Value::Str(_) => Type::Str,
            Value::Bool(_) => Type::Bool,
            Value::List(items) => {
                if items.len() > 0 {
                    Type::List(Box::new(items[0].type_of()))
                } else {
                    Type::List(Box::new(Type::Unit))
                }
            },
            Value::Mapping(entries) => {
                if entries.len() > 0 {
                    Type::Mapping(
                        Box::new(entries[0].0.type_of()),
                        Box::new(entries[0].1.type_of()),
                    )
                } else {
                    Type::Mapping(Box::new(Type::Unit), Box::new(Type::Unit))
                }
            },
            Value::Func(Func::Declared { decls, ret, .. }) => {
                let mut params: Vec<Type> = Vec::new();
                let mut i: usize = 0;
                while i < decls.len()
                    invariant
                        i <= decls.len(),
                        params.len() == i,
                        forall|j: int|
                            0 <= j < i ==> params[j]@ == decl_of(decls[j]).declared_type@,
                    decreases decls.len() - i,
                {
                    params.push(decls[i].decl().declared_type.duplicate());
                    i += 1;
                }
                let r = Type::Func(params, Box::new(ret.duplicate()));
                assert(r@->Func_0 =~= decl_types(decls@));
                r
            },
            Value::Func(Func::Native(_)) => {
                let mut params: Vec<Type> = Vec::new();
                params.push(Type::BuiltinVariadic);
                assert(params[0]@ == TypeModel::BuiltinVariadic);
                let r = Type::Func(params, Box::new(Type::Unit));
                assert(r@->Func_0 =~= seq![TypeModel::BuiltinVariadic]);
                r
            },
            Value::Type(t) => t.duplicate(),
        }
    }

    /// This value without its break wrapper, if it has one.
    pub fn unbreak(&self) -> (r: Value<'p>)
        ensures
            r@ == unbroken(self@),
    {
        match self {
            Value::Break(inner) => inner.duplicate(),
            _ => self.duplicate(),
        }
    }

    /// This value without its break wrapper, if it has one.
    pub fn into_unbroken(self) -> (r: Value<'p>)
        ensures
            r@ == unbroken(self@),
    {
        match self {
            Value::Break(inner) => *inner,
            other => other,
        }
    }

    /// Whether this value carries the break wrapper.
    pub fn is_break(&self) -> (r: bool)
        ensures
            r == (self@ is Break),
    {
        match self {
            Value::Break(_) => true,
            _ => false,
        }
    }

    /// The default value of a type.
    pub fn default(t: Type) -> (r: Value<'p>)
        requires
            has_default(t@),
        ensures
            r@ == default_of(t@),
    {
        Value::default_for(&t)
    }

    /// The default value of a type.
    pub fn default_for(t: &Type) -> (r: Value<'p>)
        requires
            has_default(t@),
        ensures
            r@ == default_of(t@),
        decreases t,
    {
        match t {
            Type::Int => Value::Int(0),
            Type::Dec => Value::Dec(Dec::zero()),
            Type::Str => Value::Str(String::new()),
            Type::Bool => Value::Bool(false),
            Type::List(_) => {
                let r = Value::List(Vec::new());
                assert(r@->List_0 =~= Seq::empty());
                r
            },
            Type::Mapping(_, _) => {
                let r = Value::Mapping(Vec::new());
                assert(r@->Mapping_0 =~= Seq::empty());
                r
            },
            Type::Break(inner) => Value::Break(Box::new(Value::default_for(inner))),
            _ => Value::Unit,
        }
    }

    /// Whether this value is homogeneous.
    pub fn is_homogeneous(&self) -> (r: bool)
        ensures
            r == homogeneous(self@),
        decreases self,
    {
        match self {
            Value::List(items) => {
                if items.len() == 0 {
                    return true;
                }
                let first = items[0].type_of();
                let mut i: usize = 0;
                while i < items.len()
                    invariant
                        i <= items.len(),
                        items.len() > 0,
                        self is List,
                        self->List_0 == *items,
                        first@ == type_of(items[0]@),
                        forall|j: int|
                            0 <= j < i ==> homogeneous(#[trigger] items[j]@) && type_of(items[j]@)
                                == first@,
                    decreases items.len() - i,
                {
                    let plain = items[i].is_homogeneous();
                    let kind = items[i].type_of();
                    let alike = kind.same(&first);
                    if !plain || !alike {
                        assert(self@->List_0[i as int] == items[i as int]@);
                        assert(self@->List_0[0] == items[0]@);
                        assert(!homogeneous(self@->List_0[i as int]) || type_of(
                            self@->List_0[i as int],
                        ) != type_of(self@->List_0[0]));
                        return false;
                    }
                    i += 1;
                }
                assert forall|j: int| 0 <= j < self@->List_0.len() implies homogeneous(
                    #[trigger] self@->List_0[j],
                ) && type_of(self@->List_0[j]) == type_of(self@->List_0[0]) by {
                    assert(self@->List_0[j] == items[j]@);
                    assert(self@->List_0[0] == items[0]@);
                    assert(homogeneous(items[j]@));
                }
                true
            },
            Value::Mapping(entries) => {
                if entries.len() == 0 {
                    return true;
                }
                let first_key = entries[0].0.type_of();
                let first_value = entries[0].1.type_of();
                let mut i: usize = 0;
                while i < entries.len()
                    invariant
                        i <= entries.len(),
                        entries.len() > 0,
                        self is Mapping,
                        self->Mapping_0 == *entries,
                        first_key@ == type_of(entries[0].0@),
                        first_value@ == type_of(entries[0].1@),
                        forall|j: int|
                            0 <= j < i ==> {
                                &&& homogeneous((#[trigger] entries[j]).0@)
                                &&& homogeneous(entries[j].1@)
                                &&& type_of(entries[j].0@) == first_key@
                                &&& type_of(entries[j].1@) == first_value@
                            },
                    decreases entries.len() - i,
                {
                    let plain_key = entries[i].0.is_homogeneous();
                    let plain_value = entries[i].1.is_homogeneous();
                    let key_kind = entries[i].0.type_of();
                    let value_kind = entries[i].1.type_of();
                    let alike = key_kind.same(&first_key) && value_kind.same(&first_value);
                    if !plain_key || !plain_value || !alike {
                        assert(self@->Mapping_0[i as int] == (
                            entries[i as int].0@,
                            entries[i as int].1@,
                        ));
                        assert(self@->Mapping_0[0] == (entries[0].0@, entries[0].1@));
                        assert(!homogeneous(self@->Mapping_0[i as int].0) || !homogeneous(
                            self@->Mapping_0[i as int].1,
                        ) || type_of(self@->Mapping_0[i as int].0) != type_of(self@->Mapping_0[0].0)
                            || type_of(self@->Mapping_0[i as int].1) != type_of(
                            self@->Mapping_0[0].1,
                        ));
                        return false;
                    }
                    i += 1;
                }
                assert forall|j: int| 0 <= j < self@->Mapping_0.len() implies {
                    &&& homogeneous((#[trigger] self@->Mapping_0[j]).0)
                    &&& homogeneous(self@->Mapping_0[j].1)
                    &&& type_of(self@->Mapping_0[j].0) == type_of(self@->Mapping_0[0].0)
                    &&& type_of(self@->Mapping_0[j].1) == type_of(self@->Mapping_0[0].1)
                } by {
                    assert(self@->Mapping_0[j] == (entries[j].0@, entries[j].1@));
                    assert(self@->Mapping_0[0] == (entries[0].0@, entries[0].1@));
                    assert(homogeneous(entries[j].0@));
                }
                true
            },
            Value::Break(inner) => inner.is_homogeneous(),
            _ => true,
        }
    }

    /// How this value stands to another in the order of their kind.
    pub fn compare(&self, other: &Value<'p>) -> (r: Option<Rel>)
        ensures
            r == value_order(self@, other@),
        decreases self,
    {
        match (self, other) {
            (Value::Unit, Value::Unit) => Some(Rel::Equal),
            (Value::Int(x), Value::Int(y)) => {
                if *x < *y {
                    Some(Rel::Less)
                } else if *x == *y {
                    Some(Rel::Equal)
                } else {
                    Some(Rel::Greater)
                }
            },
            (Value::Dec(x), Value::Dec(y)) => x.compare(y),
            (Value::Str(x), Value::Str(y)) => Some(compare_text(x.as_str(), y.as_str())),
            (Value::Bool(x), Value::Bool(y)) => {
                if *x == *y {
                    Some(Rel::Equal)
                } else if *y {
                    Some(Rel::Less)
                } else {
                    Some(Rel::Greater)
                }
            },
            (Value::Break(x), Value::Break(y)) => x.compare(y),
            _ => None,
        }
    }
}

impl<'p> Clone for Value<'p> {
    fn clone(&self) -> (r: Self)
        ensures
            r@ == self@,
    {
        self.duplicate()
    }
}

impl<'p> PartialEq for Value<'p> {
    fn eq(&self, other: &Value<'p>) -> (r: bool) {
        self.same(other)
    }
}

impl<'p> PartialEqSpecImpl for Value<'p> {
    open spec fn obeys_eq_spec() -> bool {
        true
    }

    open spec fn eq_spec(&self, other: &Value<'p>) -> bool {
        value_eq(self@, other@)
    }
}


} // verus!
