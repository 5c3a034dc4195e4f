//! The types of the language: declared on bindings, inferred from values.

use vstd::prelude::*;
use vstd::std_specs::cmp::PartialEqSpecImpl;
use vstd::string::StringExecFns;

verus! {

/// A declared or inferred type.
#[derive(Debug)]
pub enum Type {
    Unit,
    BuiltinVariadic,
    Int,
    Dec,
    Str,
    Bool,
    List(Box<Type>),
    Mapping(Box<Type>, Box<Type>),
    Func(Vec<Type>, Box<Type>),
    Break(Box<Type>),
    Any,
}

/// The mathematical value of a [`Type`]: the same tree, with sequences in
/// place of vectors.
pub ghost enum TypeModel {
    Unit,
    BuiltinVariadic,
    Int,
    Dec,
    Str,
    Bool,
    List(Box<TypeModel>),
    Mapping(Box<TypeModel>, Box<TypeModel>),
    Func(Seq<TypeModel>, Box<TypeModel>),
    Break(Box<TypeModel>),
    Any,
}

/// The mathematical value of a type.
pub open spec fn type_model(t: Type) -> TypeModel
    decreases t,
{
    match t {
        Type::Unit => TypeModel::Unit,
        Type::BuiltinVariadic => TypeModel::BuiltinVariadic,
        Type::Int => TypeModel::Int,
        Type::Dec => TypeModel::Dec,
        Type::Str => TypeModel::Str,
        Type::Bool => TypeModel::Bool,
        Type::List(e) => TypeModel::List(Box::new(type_model(*e))),
        Type::Mapping(k, v) => TypeModel::Mapping(
            Box::new(type_model(*k)),
            Box::new(type_model(*v)),
        ),
        Type::Func(params, ret) => TypeModel::Func(
            Seq::new(
                params.len() as nat,
                |i: int|
                    if 0 <= i < params.len() {
                        type_model(params[i])
                    } else {
                        TypeModel::Unit
                    },
            ),
            Box::new(type_model(*ret)),
        ),
        Type::Break(t) => TypeModel::Break(Box::new(type_model(*t))),
        Type::Any => TypeModel::Any,
    }
}

impl View for Type {
    type V = TypeModel;

    open spec fn view(&self) -> TypeModel {
        type_model(*self)
    }
}

/// The views of a sequence of types, in order.
pub open spec fn types_view(ts: Seq<Type>) -> Seq<TypeModel> {
    Seq::new(ts.len(), |i: int| ts[i]@)
}

impl Type {
    /// A copy of this type.
    pub fn duplicate(&self) -> (r: Type)
        ensures
            r@ == self@,
        decreases self,
    {
        match self {
            Type::Unit => Type::Unit,
            Type::BuiltinVariadic => Type::BuiltinVariadic,
            Type::Int => Type::Int,
            Type::Dec => Type::Dec,
            Type::Str => Type::Str,
            Type::Bool => Type::Bool,
            Type::List(e) => Type::List(Box::new(e.duplicate())),
            Type::Mapping(k, v) => Type::Mapping(Box::new(k.duplicate()), Box::new(v.duplicate())),
            Type::Func(params, ret) => {
                let mut out: Vec<Type> = Vec::new();
                let mut i: usize = 0;
                while i < params.len()
                    invariant
                        i <= params.len(),
                        out.len() == i,
                        self is Func,
                        self->Func_0 == *params,
                        forall|j: int| 0 <= j < i ==> out[j]@ == params[j]@,
                    decreases params.len() - i,
                {
                    out.push(params[i].duplicate());
                    i += 1;
                }
                let r = Type::Func(out, Box::new(ret.duplicate()));
                assert(r@->Func_0 =~= self@->Func_0);
                r
            },
            Type::Break(t) => Type::Break(Box::new(t.duplicate())),
            Type::Any => Type::Any,
        }
    }
}

impl Clone for Type {
    fn clone(&self) -> (r: Self)
        ensures
            r@ == self@,
    {
        self.duplicate()
    }
}

impl Type {
    /// Structural equality: the two types are the same tree.
    pub fn same(&self, other: &Type) -> (r: bool)
        ensures
            r == (self@ == other@),
        decreases self,
    {
        match (self, other) {
            (Type::Unit, Type::Unit) => true,
            (Type::BuiltinVariadic, Type::BuiltinVariadic) => true,
            (Type::Int, Type::Int) => true,
            (Type::Dec, Type::Dec) => true,
            (Type::Str, Type::Str) => true,
            (Type::Bool, Type::Bool) => true,
            (Type::Any, Type::Any) => true,
            (Type::List(a), Type::List(b)) => a.same(b),
            (Type::Break(a), Type::Break(b)) => a.same(b),
            (Type::Mapping(ak, av), Type::Mapping(bk, bv)) => ak.same(bk) && av.same(bv),
            (Type::Func(ap, ar), Type::Func(bp, br)) => {
                if ap.len() != bp.len() {
                    assert(self@->Func_0.len() != other@->Func_0.len());
                    return false;
                }
                let mut i: usize = 0;
                while i < ap.len()
                    invariant
                        i <= ap.len(),
                        ap.len() == bp.len(),
                        self is Func,
                        self->Func_0 == *ap,
                        other is Func,
                        other->Func_0 == *bp,
                        forall|j: int| 0 <= j < i ==> ap[j]@ == bp[j]@,
                    decreases ap.len() - i,
                {
                    if !ap[i].same(&bp[i]) {
                        assert(self@->Func_0[i as int] == ap[i as int]@);
                        assert(other@->Func_0[i as int] == bp[i as int]@);
                        return false;
                    }
                    i += 1;
                }
                assert(self@->Func_0 =~= other@->Func_0);
                ar.same(br)
            },
            _ => false,
        }
    }
}

/// The view of an optional type.
pub open spec fn opt_type_view(t: Option<Type>) -> Option<TypeModel> {
    match t {
        Some(t) => Some(t@),
        None => None,
    }
}

/// The type of the keys by which a value of type `t` is indexed, if it can be
/// indexed: integers for strings and lists, the key type for maps.
pub open spec fn key_type_of(t: TypeModel) -> Option<TypeModel>
    decreases t,
{
    match t {
        TypeModel::Str => Some(TypeModel::Int),
        TypeModel::List(_) => Some(TypeModel::Int),
        TypeModel::Mapping(k, _) => Some(*k),
        TypeModel::Break(inner) => key_type_of(*inner),
        _ => None,
    }
}

/// The type of what indexing a value of type `t` yields, if it can be
/// indexed.
pub open spec fn element_type_of(t: TypeModel) -> Option<TypeModel>
    decreases t,
{
    match t {
        TypeModel::Str => Some(TypeModel::Str),
        TypeModel::List(e) => Some(*e),
        TypeModel::Mapping(_, v) => Some(*v),
        TypeModel::Break(inner) => element_type_of(*inner),
        _ => None,
    }
}

/// Reconciles two types, one of which may hold the placeholder `none` where
/// the other holds a type parameter.
///
/// For two lists of which exactly one has the placeholder as element type,
/// the other list type. For two maps, each parameter is taken from the side
/// that knows it, the left side first; with no side knowing a parameter there
/// is no result. A break wrapper on either side is looked through. Otherwise
/// the left type unless it is the placeholder, then the right type unless it
/// is the placeholder too.
pub open spec fn infer_contained(a: TypeModel, b: TypeModel) -> Option<TypeModel>
    decreases a, b,
{
    match (a, b) {
        (TypeModel::List(l), TypeModel::List(r)) => if *l == TypeModel::Unit && *r
            != TypeModel::Unit {
            Some(b)
        } else {
            Some(a)
        },
        (TypeModel::Mapping(lk, lv), TypeModel::Mapping(rk, rv)) => {
            let lk_known = *lk != TypeModel::Unit;
            let lv_known = *lv != TypeModel::Unit;
            let rk_known = *rk != TypeModel::Unit;
            let rv_known = *rv != TypeModel::Unit;
            if lk_known && lv_known {
                Some(a)
            } else if rk_known && rv_known {
                Some(b)
            } else if lk_known && rv_known {
                Some(TypeModel::Mapping(lk, rv))
            } else if rk_known && lv_known {
                Some(TypeModel::Mapping(rk, lv))
            } else {
                None
            }
        },
        (TypeModel::Break(l), _) => infer_contained(*l, b),
        (_, TypeModel::Break(r)) => infer_contained(a, *r),
        _ => if a != TypeModel::Unit {
            Some(a)
        } else if b != TypeModel::Unit {
            Some(b)
        } else {
            None
        },
    }
}

/// Whether both types are list types, or both are map types.
pub open spec fn same_compound_base(a: TypeModel, b: TypeModel) -> bool {
    (a is List && b is List) || (a is Mapping && b is Mapping)
}

/// How a type is written: `int`, `list[int]`, `map[str]int`,
/// `func(int,str)bool`. A break wrapper is written as the type it wraps.
pub open spec fn type_text(t: TypeModel) -> Seq<char>
    decreases t,
{
    match t {
        TypeModel::Unit => "none"@,
        TypeModel::BuiltinVariadic => "builtin_variadic"@,
        TypeModel::Int => "int"@,
        TypeModel::Dec => "dec"@,
        TypeModel::Str => "str"@,
        TypeModel::Bool => "bool"@,
        TypeModel::List(e) => "list["@ + type_text(*e) + "]"@,
        TypeModel::Mapping(k, v) => "map["@ + type_text(*k) + "]"@ + type_text(*v),
        TypeModel::Func(params, ret) => "func("@ + type_list_text(params) + ")"@ + type_text(
            *ret,
        ),
        TypeModel::Break(inner) => type_text(*inner),
        TypeModel::Any => "any"@,
    }
}

/// The types of `ts` as they are written, with a comma between each two
/// neighbours.
pub open spec fn type_list_text(ts: Seq<TypeModel>) -> Seq<char>
    decreases ts,
{
    if ts.len() == 0 {
        Seq::empty()
    } else if ts.len() == 1 {
        type_text(ts[0])
    } else {
        type_list_text(ts.drop_last()) + ","@ + type_text(ts.last())
    }
}

impl Type {
    /// Whether this is the placeholder type `none`.
    pub fn is_unit(&self) -> (r: bool)
        ensures
            r == (self@ == TypeModel::Unit),
    {
        match self {
            Type::Unit => true,
            _ => false,
        }
    }

    /// The type of the keys by which a value of this type is indexed.
    pub fn key_type(&self) -> (r: Option<Type>)
        ensures
            opt_type_view(r) == key_type_of(self@),
        decreases self,
    {
        match self {
            Type::Str => Some(Type::Int),
            Type::List(_) => Some(Type::Int),
            Type::Mapping(k, _) => Some(k.duplicate()),
            Type::Break(t) => t.key_type(),
            _ => None,
        }
    }

    /// The type of what indexing a value of this type yields.
    pub fn element_type(&self) -> (r: Option<Type>)
        ensures
            opt_type_view(r) == element_type_of(self@),
        decreases self,
    {
        match self {
            Type::Str => Some(Type::Str),
            Type::List(e) => Some(e.duplicate()),
            Type::Mapping(_, v) => Some(v.duplicate()),
            Type::Break(t) => t.element_type(),
            _ => None,
        }
    }

    /// Reconciles this type, inferred from a value, with a declared one.
    pub fn infer_contained_type(&self, other: &Type) -> (r: Option<Type>)
        ensures
            opt_type_view(r) == infer_contained(self@, other@),
        decreases self, other,
    {
        match (self, other) {
            (Type::List(l), Type::List(r)) => {
                if l.is_unit() && !r.is_unit() {
                    Some(other.duplicate())
                } else {
                    Some(self.duplicate())
                }
            },
            (Type::Mapping(lk, lv), Type::Mapping(rk, rv)) => {
                let lk_known = !lk.is_unit();
                let lv_known = !lv.is_unit();
                let rk_known = !rk.is_unit();
                let rv_known = !rv.is_unit();
                if lk_known && lv_known {
                    Some(self.duplicate())
                } else if rk_known && rv_known {
                    Some(other.duplicate())
                } else if lk_known && rv_known {
                    Some(Type::Mapping(Box::new(lk.duplicate()), Box::new(rv.duplicate())))
                } else if rk_known && lv_known {
                    Some(Type::Mapping(Box::new(rk.duplicate()), Box::new(lv.duplicate())))
                } else {
                    None
                }
            },
            (Type::Break(l), _) => l.infer_contained_type(other),
            (_, Type::Break(r)) => self.infer_contained_type(r),
            _ => {
                if !self.is_unit() {
                    Some(self.duplicate())
                } else if !other.is_unit() {
                    Some(other.duplicate())
                } else {
                    None
                }
            },
        }
    }

    /// Whether both types are list types, or both are map types.
    pub fn has_same_compound_base_type(&self, other: Type) -> (r: bool)
        ensures
            r == same_compound_base(self@, other@),
    {
        match (self, other) {
            (Type::List(_), Type::List(_)) => true,
            (Type::Mapping(_, _), Type::Mapping(_, _)) => true,
            _ => false,
        }
    }

    /// How this type is written.
    pub fn to_string(&self) -> (r: String)
        ensures
            r@ == type_text(self@),
        decreases self,
    {
        match self {
            Type::Unit => String::from_str("none"),
            Type::BuiltinVariadic => String::from_str("builtin_variadic"),
            Type::Int => String::from_str("int"),
            Type::Dec => String::from_str("dec"),
            Type::Str => String::from_str("str"),
            Type::Bool => String::from_str("bool"),
            Type::List(e) => {
                let mut out = String::from_str("list[");
                let inner = e.to_string();
                out.append(inner.as_str());
                out.append("]");
                out
            },
            Type::Mapping(k, v) => {
                let mut out = String::from_str("map[");
                let key = k.to_string();
                out.append(key.as_str());
                out.append("]");
                let value = v.to_string();
                out.append(value.as_str());
                out
            },
            Type::Func(params, ret) => {
                let mut out = String::from_str("func(");
                let ghost models = self@->Func_0;
                let mut i: usize = 0;
                while i < params.len()
                    invariant
                        i <= params.len(),
                        self is Func,
                        self->Func_0 == *params,
                        models == self@->Func_0,
                        out@ == "func("@ + type_list_text(models.take(i as int)),
                    decreases params.len() - i,
                {
                    if i > 0 {
                        out.append(",");
                    }
                    let part = params[i].to_string();
                    out.append(part.as_str());
                    proof {
                        let taken = models.take(i as int + 1);
                        assert(taken.drop_last() =~= models.take(i as int));
                        assert(taken.last() == params[i as int]@);
                        assert(out@ =~= "func("@ + type_list_text(taken));
                    }
                    i += 1;
                }
                assert(models.take(params.len() as int) =~= models);
                out.append(")");
                let tail = ret.to_string();
                out.append(tail.as_str());
                out
            },
            Type::Break(t) => t.to_string(),
            Type::Any => String::from_str("any"),
        }
    }
}

impl PartialEq for Type {
    fn eq(&self, other: &Type) -> (r: bool) {
        self.same(other)
    }
}

impl Eq for Type {}

impl PartialEqSpecImpl for Type {
    open spec fn obeys_eq_spec() -> bool {
        true
    }

    open spec fn eq_spec(&self, other: &Type) -> bool {
        self@ == other@
    }
}

} // verus!
