//! Laws of the language: what holds of its rules whatever the values.

use vstd::prelude::*;
use crate::arith::{int_add, int_div, int_mul, int_rem, lemma_trunc_div_rem, trunc_div, trunc_rem};
use crate::ast::{decl_of, BinaryOperator, Declaration};
use crate::dec::{dec_is_nan, dec_is_zero};
use crate::env::{assigned, lookup, owner_of, with_binding, Constness, EntryModel, ScopeModel};
use crate::error::ErrorModel;
use crate::operators::{assoc_put, lists_joined, maps_joined, merged};
use crate::semantics::{paired, paired_upto};
use crate::env::closed;
use crate::value::{assoc_get, assoc_index, value_eq};
use crate::ast::Expr;
use crate::machine::{ActionModel, EventModel, Frame, MachineModel, Pending, State, Step};
use crate::semantics::{
    after_vars, apply, apply_operator, bind, call, cast, declare, eval, follow, for_in_next,
    for_in_start, native, operands_ready, ready, resume, scoped, store, transition,
};
use crate::types::Type;
use crate::value::Builtin;
use crate::semantics::{bound_args, declared, deliver, multiplied, OutcomeModel};
use crate::value::unbroken;
use crate::types::{infer_contained, TypeModel};
use crate::value::{homogeneous, type_of, ValueModel};

verus! {

/// The law of integer division: the quotient times the divisor, plus the
/// remainder, is the dividend, as the language computes them.
pub proof fn lemma_division_law(a: i64, b: i64)
    requires
        b != 0,
    ensures
        int_add(int_mul(int_div(a, b), b), int_rem(a, b)) == a,
{
    lemma_trunc_div_rem(a as int, b as int);
    if a == i64::MIN && b == -1 {
        assert(int_div(a, b) == i64::MIN);
        assert(int_rem(a, b) == 0);
        assert(i64::MIN * -1 == 0x8000_0000_0000_0000int);
        assert(0x8000_0000_0000_0000int % 0x1_0000_0000_0000_0000int == 0x8000_0000_0000_0000int);
    } else {
        let q = trunc_div(a as int, b as int);
        let r = trunc_rem(a as int, b as int);
        assert(q * b + r == a);
        assert(i64::MIN <= q <= i64::MAX) by {
            lemma_quotient_bound(a as int, b as int);
        }
        assert(i64::MIN <= q * b <= i64::MAX);
        let p = q * b;
        assert(p % 0x1_0000_0000_0000_0000int == if p >= 0 {
            p
        } else {
            p + 0x1_0000_0000_0000_0000int
        }) by {
            if p >= 0 {
                vstd::arithmetic::div_mod::lemma_small_mod(p as nat, 0x1_0000_0000_0000_0000nat);
            } else {
                vstd::arithmetic::div_mod::lemma_small_mod(
                    (p + 0x1_0000_0000_0000_0000int) as nat,
                    0x1_0000_0000_0000_0000nat,
                );
                vstd::arithmetic::div_mod::lemma_mod_add_multiples_vanish(
                    p,
                    0x1_0000_0000_0000_0000int,
                );
            }
        }
    }
}

/// The quotient of two 64-bit integers fits in 64 bits, but for the least
/// integer divided by minus one.
proof fn lemma_quotient_bound(a: int, b: int)
    requires
        b != 0,
        i64::MIN <= a <= i64::MAX,
        i64::MIN <= b <= i64::MAX,
        !(a == i64::MIN && b == -1),
    ensures
        i64::MIN <= trunc_div(a, b) <= i64::MAX,
{
    let x = if a >= 0 {
        a
    } else {
        -a
    };
    let y = if b > 0 {
        b
    } else {
        -b
    };
    assert(0 <= x / y <= x) by (nonlinear_arith)
        requires
            x >= 0,
            y > 0,
    ;
    if y >= 2 {
        assert(2 * (x / y) <= x) by (nonlinear_arith)
            requires
                x >= 0,
                y >= 2,
        ;
    }
}

/// Division by zero is the error of division by zero: of an integer by the
/// integer zero, and of a decimal by a zero of either sign, for the quotient
/// and for the remainder.
pub proof fn lemma_division_by_zero<'p>(op: BinaryOperator, l: ValueModel<'p>, r: ValueModel<'p>)
    requires
        op == BinaryOperator::Divide || op == BinaryOperator::Modulo,
        (l is Int && r == ValueModel::<'p>::Int(0)) || (l is Dec && r is Dec && dec_is_zero(
            r->Dec_0,
        )),
    ensures
        multiplied(op, l, r) == OutcomeModel::<'p>::Fail(ErrorModel::DivideByZero),
{
}

/// Looking a name up from a scope finds it in the scope that owns it.
proof fn lemma_owner_after_binding<'p>(
    env: Seq<ScopeModel<'p>>,
    scope: int,
    name: Seq<char>,
    entry: EntryModel<'p>,
)
    requires
        owner_of(env, scope, name) is Some,
    ensures
        owner_of(with_binding(env, owner_of(env, scope, name)->0, name, entry), scope, name)
            == owner_of(env, scope, name),
    decreases scope,
{
    let owner = owner_of(env, scope, name)->0;
    let after = with_binding(env, owner, name, entry);
    lemma_owner_in_range(env, scope, name);
    if env[scope].vars.contains_key(name) {
        assert(after[scope].vars.contains_key(name));
    } else {
        let p = env[scope].parent->0;
        lemma_owner_after_binding(env, p, name, entry);
        assert(after[scope] == env[scope]);
    }
}

/// The scope that owns a name is a scope, no further in than the one from
/// which the name is seen, and binds the name.
proof fn lemma_owner_in_range<'p>(env: Seq<ScopeModel<'p>>, scope: int, name: Seq<char>)
    requires
        owner_of(env, scope, name) is Some,
    ensures
        0 <= owner_of(env, scope, name)->0 <= scope < env.len(),
        env[owner_of(env, scope, name)->0].vars.contains_key(name),
    decreases scope,
{
    if !env[scope].vars.contains_key(name) {
        lemma_owner_in_range(env, env[scope].parent->0, name);
    }
}

/// A constant is not assigned to: the assignment fails, as one to a
/// constant.
pub proof fn lemma_constants_stay<'p>(
    env: Seq<ScopeModel<'p>>,
    scope: int,
    name: Seq<char>,
    v: ValueModel<'p>,
)
    requires
        lookup(env, scope, name) is Some,
        lookup(env, scope, name)->0.c == Constness::Const,
    ensures
        assigned(env, scope, name, v, false) == Err::<Seq<ScopeModel<'p>>, ErrorModel<'p>>(
            ErrorModel::SettingConst(name),
        ),
{
}

/// A variable that is assigned a value of its type reads as that value
/// afterwards.
pub proof fn lemma_assigned_reads_back<'p>(
    env: Seq<ScopeModel<'p>>,
    scope: int,
    name: Seq<char>,
    v: ValueModel<'p>,
)
    requires
        lookup(env, scope, name) is Some,
        lookup(env, scope, name)->0.c == Constness::Var,
        lookup(env, scope, name)->0.t == type_of(v),
    ensures
        assigned(env, scope, name, v, false) is Ok,
        lookup(assigned(env, scope, name, v, false)->Ok_0, scope, name) is Some,
        lookup(assigned(env, scope, name, v, false)->Ok_0, scope, name)->0.v == v,
{
    lemma_assignment_reads_back(env, scope, name, v, false);
}

/// The law of contained-type inference: the empty list, whose own type
/// holds the placeholder, is accepted by a declaration of any list type.
pub proof fn lemma_empty_list_declares<'p>(
    env: Seq<ScopeModel<'p>>,
    scope: usize,
    decl: &Declaration,
    given: bool,
)
    requires
        0 < scope < env.len() || (scope == 0 < env.len() && !env[0].vars.contains_key(
            decl_of(*decl).name@,
        )),
        decl_of(*decl).declared_type@ is List,
    ensures
        infer_contained(
            type_of(ValueModel::<'p>::List(Seq::empty())),
            decl_of(*decl).declared_type@,
        ) == Some(decl_of(*decl).declared_type@),
        declared(env, scope, decl, ValueModel::List(Seq::empty()), given) is Ok,
{
}

/// Two homogeneous lists of one type are joined without error, to the list
/// of the items of the first followed by those of the second.
pub proof fn lemma_lists_join<'p>(l: ValueModel<'p>, r: ValueModel<'p>)
    requires
        l is List,
        r is List,
        homogeneous(l),
        homogeneous(r),
        type_of(l) == type_of(r),
    ensures
        lists_joined(l, r) == Ok::<ValueModel<'p>, ErrorModel<'p>>(
            ValueModel::List(l->List_0 + r->List_0),
        ),
{
    let a = l->List_0;
    let b = r->List_0;
    let all = a + b;
    assert forall|i: int| 0 <= i < all.len() implies homogeneous(#[trigger] all[i]) && type_of(
        all[i],
    ) == type_of(all[0]) by {
        if i < a.len() {
            assert(all[i] == a[i]);
        } else {
            assert(all[i] == b[i - a.len()]);
            assert(homogeneous(b[i - a.len()]));
        }
        if a.len() > 0 {
            assert(all[0] == a[0]);
            assert(homogeneous(a[0]));
            if b.len() > 0 {
                assert(homogeneous(b[0]));
            }
        } else {
            assert(all[0] == b[0]);
            assert(homogeneous(b[0]));
        }
    }
}

/// Whether every entry has a homogeneous key of the type `key` and a
/// homogeneous value of the type `value`.
pub open spec fn uniform(
    entries: Seq<(ValueModel, ValueModel)>,
    key: TypeModel,
    value: TypeModel,
) -> bool {
    forall|i: int|
        0 <= i < entries.len() ==> {
            &&& homogeneous((#[trigger] entries[i]).0)
            &&& homogeneous(entries[i].1)
            &&& type_of(entries[i].0) == key
            &&& type_of(entries[i].1) == value
        }
}

/// Putting an entry into uniform entries leaves them uniform.
proof fn lemma_put_uniform<'p>(
    entries: Seq<(ValueModel<'p>, ValueModel<'p>)>,
    k: ValueModel<'p>,
    v: ValueModel<'p>,
    key: TypeModel,
    value: TypeModel,
)
    requires
        uniform(entries, key, value),
        homogeneous(k),
        homogeneous(v),
        type_of(k) == key,
        type_of(v) == value,
    ensures
        uniform(assoc_put(entries, k, v), key, value),
{
    crate::value::lemma_assoc_index_first(entries, k);
    let after = assoc_put(entries, k, v);
    assert forall|i: int| 0 <= i < after.len() implies {
        &&& homogeneous((#[trigger] after[i]).0)
        &&& homogeneous(after[i].1)
        &&& type_of(after[i].0) == key
        &&& type_of(after[i].1) == value
    } by {
        match assoc_index(entries, k) {
            Some(at) => {
                if i != at {
                    assert(after[i] == entries[i]);
                } else {
                    assert(homogeneous(entries[at].0));
                }
            },
            None => {
                if i < entries.len() {
                    assert(after[i] == entries[i]);
                }
            },
        }
    }
}

/// Merging uniform entries gives uniform entries.
proof fn lemma_merged_uniform<'p>(
    a: Seq<(ValueModel<'p>, ValueModel<'p>)>,
    b: Seq<(ValueModel<'p>, ValueModel<'p>)>,
    key: TypeModel,
    value: TypeModel,
)
    requires
        uniform(a, key, value),
        uniform(b, key, value),
    ensures
        uniform(merged(a, b), key, value),
    decreases b.len(),
{
    if b.len() > 0 {
        assert forall|i: int| 0 <= i < b.drop_last().len() implies {
            &&& homogeneous((#[trigger] b.drop_last()[i]).0)
            &&& homogeneous(b.drop_last()[i].1)
            &&& type_of(b.drop_last()[i].0) == key
            &&& type_of(b.drop_last()[i].1) == value
        } by {
            assert(b.drop_last()[i] == b[i]);
        }
        lemma_merged_uniform(a, b.drop_last(), key, value);
        assert(homogeneous(b[b.len() - 1].0));
        lemma_put_uniform(merged(a, b.drop_last()), b.last().0, b.last().1, key, value);
    }
}

/// Two homogeneous maps of one type are joined without error, to the map
/// of the entries of the first with those of the second put in.
pub proof fn lemma_maps_join<'p>(l: ValueModel<'p>, r: ValueModel<'p>)
    requires
        l is Mapping,
        r is Mapping,
        homogeneous(l),
        homogeneous(r),
        type_of(l) == type_of(r),
    ensures
        maps_joined(l, r) == Ok::<ValueModel<'p>, ErrorModel<'p>>(
            ValueModel::Mapping(merged(l->Mapping_0, r->Mapping_0)),
        ),
{
    let a = l->Mapping_0;
    let b = r->Mapping_0;
    let key = *type_of(l)->Mapping_0;
    let value = *type_of(l)->Mapping_1;
    assert(uniform(a, key, value)) by {
        assert forall|i: int| 0 <= i < a.len() implies {
            &&& homogeneous((#[trigger] a[i]).0)
            &&& homogeneous(a[i].1)
            &&& type_of(a[i].0) == key
            &&& type_of(a[i].1) == value
        } by {
            assert(homogeneous(a[0].0));
        }
    }
    assert(uniform(b, key, value)) by {
        assert forall|i: int| 0 <= i < b.len() implies {
            &&& homogeneous((#[trigger] b[i]).0)
            &&& homogeneous(b[i].1)
            &&& type_of(b[i].0) == key
            &&& type_of(b[i].1) == value
        } by {
            assert(homogeneous(b[0].0));
        }
    }
    lemma_merged_uniform(a, b, key, value);
    let all = merged(a, b);
    assert forall|i: int| 0 <= i < all.len() implies {
        &&& homogeneous((#[trigger] all[i]).0)
        &&& homogeneous(all[i].1)
        &&& type_of(all[i].0) == type_of(all[0].0)
        &&& type_of(all[i].1) == type_of(all[0].1)
    } by {
        assert(homogeneous(all[0].0));
    }
}

/// A loop ends when a value with the break wrapper comes out of its body,
/// and yields that value without the wrapper: whether the wrapper was put on
/// by `break` or by `return`.
pub proof fn lemma_break_ends_loop<'p>(m: MachineModel<'p>, frame: Frame<'p>, v: ValueModel<'p>)
    requires
        (frame is Loop && frame->Loop_expr is For) || (frame is WhileBody
            && frame->WhileBody_expr is ForWhile && m.values.len() >= 1) || (frame is ForIn
            && m.values.len() >= 2),
    ensures
        deliver(m, frame, ValueModel::Break(Box::new(v))).0.values.last() == v,
        deliver(m, frame, ValueModel::Break(Box::new(v))).0.frames == m.frames,
        deliver(m, frame, ValueModel::Break(Box::new(v))) == match frame {
            Frame::Loop { .. } => m.give(v),
            Frame::WhileBody { .. } => m.drop_values(1).give(v),
            _ => m.drop_values(2).give(v),
        },
{
}

/// A sequence of expressions ends at the first value with the break
/// wrapper, and yields it as it is, as does the end of a scope; a call
/// takes the wrapper off.
pub proof fn lemma_break_ends_sequence<'p>(m: MachineModel<'p>, frame: Frame<'p>, v: ValueModel<'p>)
    requires
        frame is Sequence || frame is Close || frame is Unbreak,
    ensures
        deliver(m, frame, ValueModel::Break(Box::new(v))) == match frame {
            Frame::Sequence { .. } => m.give(ValueModel::Break(Box::new(v))),
            Frame::Close { env } => m.close_scope(env).give(ValueModel::Break(Box::new(v))),
            _ => m.give(v),
        },
{
}

/// Whether no key of `entries` equals a key before it: a map has each of
/// its keys once.
pub open spec fn distinct_keys(entries: Seq<(ValueModel, ValueModel)>) -> bool {
    forall|i: int|
        0 <= i < entries.len() ==> assoc_index(entries.take(i), (#[trigger] entries[i]).0) is None
}

/// Putting an entry into a map leaves each of its keys there once.
pub proof fn lemma_put_keeps_keys_distinct<'p>(
    entries: Seq<(ValueModel<'p>, ValueModel<'p>)>,
    k: ValueModel<'p>,
    v: ValueModel<'p>,
)
    requires
        distinct_keys(entries),
    ensures
        distinct_keys(assoc_put(entries, k, v)),
{
    crate::value::lemma_assoc_index_first(entries, k);
    let after = assoc_put(entries, k, v);
    assert forall|i: int| 0 <= i < after.len() implies assoc_index(
        after.take(i),
        (#[trigger] after[i]).0,
    ) is None by {
        let key = after[i].0;
        crate::value::lemma_assoc_index_first(after.take(i), key);
        match assoc_index(entries, k) {
            Some(at) => {
                assert(key == entries[i].0);
                assert(assoc_index(entries.take(i), entries[i].0) is None);
                crate::value::lemma_assoc_index_first(entries.take(i), key);
                if assoc_index(after.take(i), key) is Some {
                    let j = assoc_index(after.take(i), key)->0;
                    assert(after.take(i)[j].0 == entries.take(i)[j].0);
                }
            },
            None => {
                if i < entries.len() {
                    assert(after.take(i) =~= entries.take(i));
                } else {
                    assert(after.take(i) =~= entries);
                }
            },
        }
    }
}

/// Joining two maps gives a map with each of its keys once.
pub proof fn lemma_merged_keys_distinct<'p>(
    a: Seq<(ValueModel<'p>, ValueModel<'p>)>,
    b: Seq<(ValueModel<'p>, ValueModel<'p>)>,
)
    requires
        distinct_keys(a),
    ensures
        distinct_keys(merged(a, b)),
    decreases b.len(),
{
    if b.len() > 0 {
        lemma_merged_keys_distinct(a, b.drop_last());
        lemma_put_keeps_keys_distinct(merged(a, b.drop_last()), b.last().0, b.last().1);
    }
}

/// A map literal, and a map that was cast, has each of its keys once.
pub proof fn lemma_paired_keys_distinct<'p>(flat: Seq<ValueModel<'p>>)
    ensures
        distinct_keys(paired(flat)),
{
    lemma_paired_upto_keys_distinct(flat, flat.len() as int / 2);
}

proof fn lemma_paired_upto_keys_distinct<'p>(flat: Seq<ValueModel<'p>>, n: int)
    ensures
        distinct_keys(paired_upto(flat, n)),
    decreases n,
{
    if n > 0 {
        lemma_paired_upto_keys_distinct(flat, n - 1);
        lemma_put_keeps_keys_distinct(paired_upto(flat, n - 1), flat[2 * n - 2], flat[2 * n - 1]);
    }
}

/// What is left of a sequence was in it.
proof fn lemma_filtered_was_there<A>(s: Seq<A>, keep: spec_fn(A) -> bool, j: int)
    requires
        0 <= j < s.filter(keep).len(),
    ensures
        s.contains(s.filter(keep)[j]),
    decreases s.len(),
{
    reveal(Seq::filter);
    if s.len() > 0 {
        let front = s.drop_last();
        if j < front.filter(keep).len() {
            lemma_filtered_was_there(front, keep, j);
            let w = choose|w: int| 0 <= w < front.len() && front[w] == front.filter(keep)[j];
            assert(s[w] == s.filter(keep)[j]);
        } else {
            assert(s[s.len() - 1] == s.filter(keep)[j]);
        }
    }
}

/// Taking entries out of a map leaves each of its keys there once.
pub proof fn lemma_filter_keeps_keys_distinct<'p>(
    entries: Seq<(ValueModel<'p>, ValueModel<'p>)>,
    keep: spec_fn((ValueModel<'p>, ValueModel<'p>)) -> bool,
)
    requires
        distinct_keys(entries),
    ensures
        distinct_keys(entries.filter(keep)),
    decreases entries.len(),
{
    reveal(Seq::filter);
    if entries.len() > 0 {
        let front = entries.drop_last();
        let last = entries.last();
        assert forall|i: int| 0 <= i < front.len() implies assoc_index(
            front.take(i),
            (#[trigger] front[i]).0,
        ) is None by {
            assert(front.take(i) =~= entries.take(i));
            assert(front[i] == entries[i]);
        }
        lemma_filter_keeps_keys_distinct(front, keep);
        let kept = front.filter(keep);
        if keep(last) {
            let after = kept.push(last);
            assert(entries.filter(keep) == after);
            assert(entries.take(entries.len() - 1) =~= front);
            assert(assoc_index(front, last.0) is None);
            crate::value::lemma_assoc_index_first(front, last.0);
            crate::value::lemma_assoc_index_first(kept, last.0);
            if assoc_index(kept, last.0) is Some {
                let j = assoc_index(kept, last.0)->0;
                lemma_filtered_was_there(front, keep, j);
                let w = choose|w: int| 0 <= w < front.len() && front[w] == kept[j];
                assert(crate::value::value_eq(last.0, front[w].0));
            }
            assert forall|i: int| 0 <= i < after.len() implies assoc_index(
                after.take(i),
                (#[trigger] after[i]).0,
            ) is None by {
                if i < kept.len() {
                    assert(after.take(i) =~= kept.take(i));
                    assert(after[i] == kept[i]);
                } else {
                    assert(after.take(i) =~= kept);
                }
            }
        }
    }
}

/// A name that was assigned a value reads as that value afterwards.
pub proof fn lemma_assignment_reads_back<'p>(
    env: Seq<ScopeModel<'p>>,
    scope: int,
    name: Seq<char>,
    v: ValueModel<'p>,
    ignore_constness: bool,
)
    requires
        assigned(env, scope, name, v, ignore_constness) is Ok,
    ensures
        lookup(assigned(env, scope, name, v, ignore_constness)->Ok_0, scope, name) is Some,
        lookup(assigned(env, scope, name, v, ignore_constness)->Ok_0, scope, name)->0.v == v,
{
    let owner = owner_of(env, scope, name)->0;
    let before = env[owner].vars[name];
    let entry = EntryModel { v, c: before.c, t: before.t };
    lemma_owner_in_range(env, scope, name);
    lemma_owner_after_binding(env, scope, name, entry);
}

/// The binding of one name does not change which scope owns another.
proof fn lemma_owner_of_other<'p>(
    env: Seq<ScopeModel<'p>>,
    at: int,
    name: Seq<char>,
    entry: EntryModel<'p>,
    scope: int,
    other: Seq<char>,
)
    requires
        0 <= at < env.len(),
        other != name,
    ensures
        owner_of(with_binding(env, at, name, entry), scope, other) == owner_of(env, scope, other),
    decreases scope,
{
    let after = with_binding(env, at, name, entry);
    if 0 <= scope < env.len() {
        assert(after[scope].vars.contains_key(other) == env[scope].vars.contains_key(other));
        assert(after[scope].parent == env[scope].parent);
        if !env[scope].vars.contains_key(other) {
            match env[scope].parent {
                Some(p) => {
                    if 0 <= p < scope {
                        lemma_owner_of_other(env, at, name, entry, p, other);
                    }
                },
                None => {},
            }
        }
    }
}

/// An assignment to one name leaves every other name bound as it was.
pub proof fn lemma_assignment_keeps_others<'p>(
    env: Seq<ScopeModel<'p>>,
    scope: int,
    name: Seq<char>,
    v: ValueModel<'p>,
    ignore_constness: bool,
    from: int,
    other: Seq<char>,
)
    requires
        assigned(env, scope, name, v, ignore_constness) is Ok,
        other != name,
    ensures
        lookup(assigned(env, scope, name, v, ignore_constness)->Ok_0, from, other) == lookup(
            env,
            from,
            other,
        ),
{
    let owner = owner_of(env, scope, name)->0;
    let before = env[owner].vars[name];
    let entry = EntryModel { v, c: before.c, t: before.t };
    lemma_owner_in_range(env, scope, name);
    lemma_owner_of_other(env, owner, name, entry, from, other);
    if owner_of(env, from, other) is Some {
        lemma_owner_in_range(env, from, other);
    }
}

/// The names of the parameters from `i` on are all other than `name`.
pub open spec fn none_named(decls: Seq<Declaration>, i: int, name: Seq<char>) -> bool {
    forall|j: int| i <= j < decls.len() ==> decl_of(#[trigger] decls[j]).name@ != name
}

/// Binding the arguments from `i` on leaves a name bound as it was that is
/// the name of none of their parameters.
proof fn lemma_bound_args_keep<'p>(
    env: Seq<ScopeModel<'p>>,
    scope: usize,
    decls: Seq<Declaration>,
    args: Seq<ValueModel<'p>>,
    i: int,
    name: Seq<char>,
)
    requires
        0 <= i,
        none_named(decls, i, name),
        bound_args(env, scope, decls, args, i).1 is None,
    ensures
        lookup(bound_args(env, scope, decls, args, i).0, scope as int, name) == lookup(
            env,
            scope as int,
            name,
        ),
    decreases decls.len() - i,
{
    if i < decls.len() && i < args.len() {
        let own = decl_of(decls[i]).name@;
        let next = assigned(env, scope as int, own, args[i], true)->Ok_0;
        lemma_assignment_keeps_others(env, scope as int, own, args[i], true, scope as int, name);
        lemma_bound_args_keep(next, scope, decls, args, i + 1, name);
    }
}

/// A call binds each of its arguments before the body is evaluated: where
/// no two parameters have one name, each parameter reads as its argument
/// once the arguments are bound, whatever it was bound to before.
pub proof fn lemma_call_binds_arguments<'p>(
    env: Seq<ScopeModel<'p>>,
    scope: usize,
    decls: Seq<Declaration>,
    args: Seq<ValueModel<'p>>,
    i: int,
    k: int,
)
    requires
        0 <= i <= k < decls.len(),
        decls.len() == args.len(),
        forall|a: int, b: int|
            0 <= a < b < decls.len() ==> decl_of(#[trigger] decls[a]).name@ != decl_of(
                #[trigger] decls[b],
            ).name@,
        bound_args(env, scope, decls, args, i).1 is None,
    ensures
        lookup(bound_args(env, scope, decls, args, i).0, scope as int, decl_of(decls[k]).name@)
            is Some,
        lookup(
            bound_args(env, scope, decls, args, i).0,
            scope as int,
            decl_of(decls[k]).name@,
        )->0.v == args[k],
    decreases decls.len() - i,
{
    let own = decl_of(decls[i]).name@;
    let next = assigned(env, scope as int, own, args[i], true)->Ok_0;
    if i == k {
        lemma_assignment_reads_back(env, scope as int, own, args[i], true);
        assert(none_named(decls, i + 1, own));
        lemma_bound_args_keep(next, scope, decls, args, i + 1, own);
    } else {
        lemma_call_binds_arguments(next, scope, decls, args, i + 1, k);
    }
}

/// Two lists whose items are all homogeneous and of one type are joined
/// without error, to the list of the items of the first followed by those of
/// the second: either list may be empty.
pub proof fn lemma_lists_join_of_one_type<'p>(l: ValueModel<'p>, r: ValueModel<'p>, t: TypeModel)
    requires
        l is List,
        r is List,
        forall|i: int|
            0 <= i < l->List_0.len() ==> homogeneous(#[trigger] l->List_0[i]) && type_of(
                l->List_0[i],
            ) == t,
        forall|i: int|
            0 <= i < r->List_0.len() ==> homogeneous(#[trigger] r->List_0[i]) && type_of(
                r->List_0[i],
            ) == t,
    ensures
        lists_joined(l, r) == Ok::<ValueModel<'p>, ErrorModel<'p>>(
            ValueModel::List(l->List_0 + r->List_0),
        ),
{
    let a = l->List_0;
    let b = r->List_0;
    let all = a + b;
    assert forall|i: int| 0 <= i < all.len() implies homogeneous(#[trigger] all[i]) && type_of(
        all[i],
    ) == type_of(all[0]) by {
        if i < a.len() {
            assert(all[i] == a[i]);
        } else {
            assert(all[i] == b[i - a.len()]);
            assert(homogeneous(b[i - a.len()]));
        }
        if a.len() > 0 {
            assert(all[0] == a[0]);
            assert(homogeneous(a[0]));
        } else {
            assert(all[0] == b[0]);
            assert(homogeneous(b[0]));
        }
    }
}

/// Two maps whose keys are all homogeneous and of one type, and whose
/// values are all homogeneous and of one type, are joined without error, to
/// the map of the entries of the first with those of the second put in:
/// either map may be empty.
pub proof fn lemma_maps_join_of_one_type<'p>(
    l: ValueModel<'p>,
    r: ValueModel<'p>,
    key: TypeModel,
    value: TypeModel,
)
    requires
        l is Mapping,
        r is Mapping,
        uniform(l->Mapping_0, key, value),
        uniform(r->Mapping_0, key, value),
    ensures
        maps_joined(l, r) == Ok::<ValueModel<'p>, ErrorModel<'p>>(
            ValueModel::Mapping(merged(l->Mapping_0, r->Mapping_0)),
        ),
{
    lemma_merged_uniform(l->Mapping_0, r->Mapping_0, key, value);
    let all = merged(l->Mapping_0, r->Mapping_0);
    assert forall|i: int| 0 <= i < all.len() implies {
        &&& homogeneous((#[trigger] all[i]).0)
        &&& homogeneous(all[i].1)
        &&& type_of(all[i].0) == type_of(all[0].0)
        &&& type_of(all[i].1) == type_of(all[0].1)
    } by {
        assert(homogeneous(all[0].0));
    }
}

/// Whether a value is an integer, a string or a boolean: the values that
/// equal exactly themselves.
pub open spec fn plain(v: ValueModel) -> bool {
    v is Int || v is Str || v is Bool
}

/// An integer, a string or a boolean equals a value exactly when it is that
/// value.
pub proof fn lemma_plain_equality<'p>(k: ValueModel<'p>, x: ValueModel<'p>)
    requires
        plain(k),
    ensures
        value_eq(k, x) == (k == x),
{
}

/// The first entry whose key equals `q` stands where it stood, where the
/// keys are the same.
proof fn lemma_assoc_index_by_keys<'p>(
    a: Seq<(ValueModel<'p>, ValueModel<'p>)>,
    b: Seq<(ValueModel<'p>, ValueModel<'p>)>,
    q: ValueModel<'p>,
)
    requires
        a.len() == b.len(),
        forall|i: int| 0 <= i < a.len() ==> (#[trigger] a[i]).0 == b[i].0,
    ensures
        assoc_index(a, q) == assoc_index(b, q),
    decreases a.len(),
{
    if a.len() > 0 {
        assert forall|i: int| 0 <= i < a.drop_last().len() implies (#[trigger] a.drop_last()[i]).0
            == b.drop_last()[i].0 by {
            assert(a.drop_last()[i] == a[i]);
            assert(b.drop_last()[i] == b[i]);
            assert(a[i].0 == b[i].0);
        }
        lemma_assoc_index_by_keys(a.drop_last(), b.drop_last(), q);
        assert(a[a.len() - 1].0 == b[a.len() - 1].0);
    }
}

/// After an entry was put into a map under an integer, a string or a
/// boolean, the map has the value under that key, and under every other such
/// key what it had.
pub proof fn lemma_put_then_get<'p>(
    entries: Seq<(ValueModel<'p>, ValueModel<'p>)>,
    k: ValueModel<'p>,
    v: ValueModel<'p>,
    q: ValueModel<'p>,
)
    requires
        plain(k),
        plain(q),
    ensures
        assoc_get(assoc_put(entries, k, v), q) == if q == k {
            Some(v)
        } else {
            assoc_get(entries, q)
        },
{
    let after = assoc_put(entries, k, v);
    crate::value::lemma_assoc_index_first(entries, k);
    crate::value::lemma_assoc_index_first(entries, q);
    crate::value::lemma_assoc_index_first(after, q);
    assert forall|x: ValueModel<'p>| value_eq(k, x) == (k == x) by {
        lemma_plain_equality(k, x);
    }
    assert forall|x: ValueModel<'p>| value_eq(q, x) == (q == x) by {
        lemma_plain_equality(q, x);
    }
    match assoc_index(entries, k) {
        Some(at) => {
            assert forall|i: int| 0 <= i < after.len() implies (#[trigger] after[i]).0
                == entries[i].0 by {}
            lemma_assoc_index_by_keys(after, entries, q);
            if assoc_index(entries, q) is Some {
                let j = assoc_index(entries, q)->0;
                if j != at {
                    assert(after[j] == entries[j]);
                }
            }
        },
        None => {
            assert(after.drop_last() =~= entries);
            assert(after.last() == (k, v));
        },
    }
}

/// What joining two maps comes to, key by key: under an integer, a string
/// or a boolean the joined map has what the right map has under it, and,
/// where the right map has nothing under it, what the left map has. The keys
/// of the right map are integers, strings or booleans, each once.
pub proof fn lemma_merged_then_get<'p>(
    a: Seq<(ValueModel<'p>, ValueModel<'p>)>,
    b: Seq<(ValueModel<'p>, ValueModel<'p>)>,
    q: ValueModel<'p>,
)
    requires
        plain(q),
        distinct_keys(b),
        forall|j: int| 0 <= j < b.len() ==> plain((#[trigger] b[j]).0),
    ensures
        assoc_get(merged(a, b), q) == match assoc_get(b, q) {
            Some(v) => Some(v),
            None => assoc_get(a, q),
        },
    decreases b.len(),
{
    if b.len() > 0 {
        let front = b.drop_last();
        let last = b.last();
        assert(plain(b[b.len() - 1].0));
        assert forall|j: int| 0 <= j < front.len() implies plain((#[trigger] front[j]).0) by {
            assert(front[j] == b[j]);
        }
        assert forall|i: int| 0 <= i < front.len() implies assoc_index(
            front.take(i),
            (#[trigger] front[i]).0,
        ) is None by {
            assert(front.take(i) =~= b.take(i));
            assert(front[i] == b[i]);
        }
        lemma_merged_then_get(a, front, q);
        lemma_put_then_get(merged(a, front), last.0, last.1, q);
        lemma_plain_equality(q, last.0);
        assert(b.take(b.len() - 1) =~= front);
        assert(assoc_index(front, b[b.len() - 1].0) is None);
        crate::value::lemma_assoc_index_first(front, q);
    }
}

/// What a name is bound to as seen from a scope depends on that scope and
/// on the scopes opened before it only.
pub proof fn lemma_lookup_below<'p>(
    one: Seq<ScopeModel<'p>>,
    other: Seq<ScopeModel<'p>>,
    scope: int,
    name: Seq<char>,
)
    requires
        0 <= scope < one.len(),
        scope < other.len(),
        forall|i: int| 0 <= i <= scope ==> #[trigger] one[i] == other[i],
    ensures
        owner_of(one, scope, name) == owner_of(other, scope, name),
        lookup(one, scope, name) == lookup(other, scope, name),
    decreases scope,
{
    assert(one[scope] == other[scope]);
    if !one[scope].vars.contains_key(name) {
        match one[scope].parent {
            Some(p) => {
                if 0 <= p < scope {
                    lemma_lookup_below(one, other, p, name);
                }
            },
            None => {},
        }
    }
    if owner_of(one, scope, name) is Some {
        lemma_owner_in_range(one, scope, name);
        assert(one[owner_of(one, scope, name)->0] == other[owner_of(one, scope, name)->0]);
    }
}

/// The end of a call gives nothing back to the parameters: closing the
/// scope of the body leaves every name bound as it was, as seen from the
/// scope that the function owns, which was opened before.
pub proof fn lemma_call_end_keeps_parameters<'p>(
    env: Seq<ScopeModel<'p>>,
    owned: int,
    body: int,
    name: Seq<char>,
)
    requires
        0 <= owned < body,
        owned < env.len(),
    ensures
        lookup(closed(env, body), owned, name) == lookup(env, owned, name),
{
    assert forall|i: int| 0 <= i <= owned implies #[trigger] env[i] == closed(env, body)[i] by {}
    lemma_lookup_below(env, closed(env, body), owned, name);
}

/// The calls of one function share its parameters: there is no frame for
/// each call. Where a call has bound its arguments `outer`, and a second
/// call of the function binds `inner` before the first has ended, each
/// parameter reads as the argument of the second call from then on, also
/// after the second call has ended, as long as nothing but scopes opened
/// after the one that the function owns has changed in between.
pub proof fn lemma_recursion_shares_parameters<'p>(
    env: Seq<ScopeModel<'p>>,
    between: Seq<ScopeModel<'p>>,
    after: Seq<ScopeModel<'p>>,
    owned: usize,
    decls: Seq<Declaration>,
    outer: Seq<ValueModel<'p>>,
    inner: Seq<ValueModel<'p>>,
    k: int,
)
    requires
        0 <= k < decls.len(),
        decls.len() == outer.len(),
        decls.len() == inner.len(),
        forall|a: int, b: int|
            0 <= a < b < decls.len() ==> decl_of(#[trigger] decls[a]).name@ != decl_of(
                #[trigger] decls[b],
            ).name@,
        bound_args(env, owned, decls, outer, 0).1 is None,
        bound_args(between, owned, decls, inner, 0).1 is None,
        owned < after.len(),
        owned < bound_args(between, owned, decls, inner, 0).0.len(),
        forall|i: int|
            0 <= i <= owned ==> #[trigger] after[i] == bound_args(
                between,
                owned,
                decls,
                inner,
                0,
            ).0[i],
    ensures
        lookup(after, owned as int, decl_of(decls[k]).name@) is Some,
        lookup(after, owned as int, decl_of(decls[k]).name@)->0.v == inner[k],
{
    lemma_call_binds_arguments(between, owned, decls, inner, 0, k);
    lemma_lookup_below(
        after,
        bound_args(between, owned, decls, inner, 0).0,
        owned as int,
        decl_of(decls[k]).name@,
    );
}

/// Whether two values are of one kind.
pub open spec fn same_kind(a: ValueModel, b: ValueModel) -> bool {
    ||| a is Unit && b is Unit
    ||| a is Break && b is Break
    ||| a is Int && b is Int
    ||| a is Dec && b is Dec
    ||| a is Str && b is Str
    ||| a is Bool && b is Bool
    ||| a is List && b is List
    ||| a is Mapping && b is Mapping
    ||| a is Func && b is Func
    ||| a is Type && b is Type
}

/// Values of different kinds are unequal, and have no order.
pub proof fn lemma_kinds_apart<'p>(a: ValueModel<'p>, b: ValueModel<'p>)
    requires
        !same_kind(a, b),
    ensures
        !value_eq(a, b),
        crate::value::value_order(a, b) is None,
{
}

/// Whether a value holds no function and nothing that is not a number, and
/// each map in it has each of its keys once.
pub open spec fn sound(v: ValueModel) -> bool
    decreases v,
{
    match v {
        ValueModel::Dec(d) => !dec_is_nan(d),
        ValueModel::Func(_) => false,
        ValueModel::Break(inner) => sound(*inner),
        ValueModel::List(items) => forall|i: int| 0 <= i < items.len() ==> sound(#[trigger] items[i]),
        ValueModel::Mapping(entries) => distinct_keys(entries) && forall|i: int|
            0 <= i < entries.len() ==> sound((#[trigger] entries[i]).0) && sound(entries[i].1),
        _ => true,
    }
}

/// A value equals itself, where it holds no function and nothing that is
/// not a number, and each map in it has each of its keys once.
pub proof fn lemma_value_equals_itself<'p>(v: ValueModel<'p>)
    requires
        sound(v),
    ensures
        value_eq(v, v),
    decreases v,
{
    match v {
        ValueModel::Break(inner) => {
            lemma_value_equals_itself(*inner);
        },
        ValueModel::List(items) => {
            assert forall|i: int| 0 <= i < items.len() implies value_eq(
                #[trigger] items[i],
                items[i],
            ) by {
                lemma_value_equals_itself(items[i]);
            }
        },
        ValueModel::Mapping(entries) => {
            assert forall|i: int| 0 <= i < entries.len() implies crate::value::entry_found(
                #[trigger] entries[i],
                entries,
            ) by {
                let key = entries[i].0;
                lemma_value_equals_itself(key);
                lemma_value_equals_itself(entries[i].1);
                assert(assoc_index(entries.take(i), key) is None);
                assert(entries.take(i + 1).drop_last() =~= entries.take(i));
                assert(entries.take(i + 1).last() == entries[i]);
                assert(assoc_index(entries.take(i + 1), key) == Some(i));
                crate::value::lemma_assoc_index_prefix(entries, key, i + 1);
            }
        },
        _ => {},
    }
}

/// Whether a step from `m` ends the evaluation with an error, or leaves
/// the frames of `m` where they are, under what it may have put on top.
pub open spec fn keeps_frames<'p>(m: MachineModel<'p>, step: Step<'p>) -> bool {
    step.1 is Failed || (step.0.frames.len() >= m.frames.len() && forall|i: int|
        0 <= i < m.frames.len() ==> #[trigger] step.0.frames[i] == m.frames[i])
}

proof fn lemma_store_keeps<'p>(m: MachineModel<'p>, name: Seq<char>, env: usize, v: ValueModel<'p>)
    ensures
        keeps_frames(m, store(m, name, env, v)),
{
}

proof fn lemma_bind_keeps<'p>(
    m: MachineModel<'p>,
    decl: &'p Declaration,
    env: usize,
    v: ValueModel<'p>,
    given: bool,
)
    ensures
        keeps_frames(m, bind(m, decl, env, v, given)),
{
}

proof fn lemma_declare_keeps<'p>(m: MachineModel<'p>, decl: &'p Declaration, env: usize)
    ensures
        keeps_frames(m, declare(m, decl, env)),
{
    lemma_bind_keeps(
        m,
        decl,
        env,
        crate::value::default_of(decl_of(*decl).declared_type@),
        false,
    );
}

proof fn lemma_native_keeps<'p>(m: MachineModel<'p>, builtin: Builtin, args: Seq<ValueModel<'p>>)
    ensures
        keeps_frames(m, native(m, builtin, args)),
{
}

proof fn lemma_call_keeps<'p>(
    m: MachineModel<'p>,
    name: Seq<char>,
    env: usize,
    args: Seq<ValueModel<'p>>,
)
    ensures
        keeps_frames(m, call(m, name, env, args)),
{
    match lookup(m.env, env as int, name) {
        Some(entry) => match crate::value::unbroken(entry.v) {
            ValueModel::Func(crate::value::Func::Native(builtin)) => {
                lemma_native_keeps(m, builtin, args);
            },
            _ => {},
        },
        None => {},
    }
}

proof fn lemma_cast_keeps<'p>(m: MachineModel<'p>, v: ValueModel<'p>, ty: &'p Type)
    ensures
        keeps_frames(m, cast(m, v, ty)),
{
}

proof fn lemma_apply_keeps<'p>(
    m: MachineModel<'p>,
    expr: &'p Expr,
    env: usize,
    args: Seq<ValueModel<'p>>,
)
    ensures
        keeps_frames(m, apply(m, expr, env, args)),
{
    match expr {
        Expr::FunctionCall { name, .. } => {
            lemma_call_keeps(m, name@, env, args);
        },
        _ => {},
    }
}

proof fn lemma_operands_keep<'p>(m: MachineModel<'p>, expr: &'p Expr, env: usize, count: usize)
    ensures
        keeps_frames(m, operands_ready(m, expr, env, count)),
{
    if count >= crate::semantics::operand_count(expr) && m.values.len() >= count {
        lemma_apply_keeps(m.drop_values(count as int), expr, env, m.top_values(count as int));
    }
}

proof fn lemma_eval_keeps<'p>(m: MachineModel<'p>, expr: &'p Expr, env: usize)
    ensures
        keeps_frames(m, eval(m, expr, env)),
{
    match expr {
        Expr::Declaration(decl) => {
            lemma_declare_keeps(m, decl, env);
        },
        _ => {
            lemma_operands_keep(m, expr, env, 0);
        },
    }
}

proof fn lemma_for_in_next_keeps<'p>(m: MachineModel<'p>, expr: &'p Expr, env: usize, next: usize)
    ensures
        keeps_frames(m, for_in_next(m, expr, env, next)),
{
}

proof fn lemma_after_vars_keeps<'p>(m: MachineModel<'p>, owner: &'p Expr, env: usize)
    ensures
        keeps_frames(m, after_vars(m, owner, env)),
{
}

proof fn lemma_ready_keeps<'p>(m: MachineModel<'p>, frame: Frame<'p>)
    ensures
        keeps_frames(m, ready(m, frame)),
{
    match frame {
        Frame::Vars { owner, next, env } => {
            lemma_after_vars_keeps(m, owner, env);
        },
        Frame::ForIn { expr, env, next } => {
            lemma_for_in_next_keeps(m, expr, env, next);
        },
        _ => {},
    }
}

proof fn lemma_deliver_keeps<'p>(m: MachineModel<'p>, frame: Frame<'p>, v: ValueModel<'p>)
    ensures
        keeps_frames(m, deliver(m, frame, v)),
{
    match frame {
        Frame::Sequence { .. } => {
            lemma_ready_keeps(m, frame);
        },
        Frame::Vars { .. } => {
            lemma_ready_keeps(m, frame);
        },
        Frame::Operands { expr, env, count } => {
            if count < usize::MAX {
                lemma_operands_keep(m.push_value(v), expr, env, (count + 1) as usize);
            }
        },
        Frame::Declare { decl, env } => {
            lemma_bind_keeps(m, decl, env, v, true);
        },
        Frame::ForIn { expr, env, next } => {
            if m.values.len() >= 2 {
                lemma_for_in_next_keeps(m.drop_values(1).push_value(v), expr, env, next);
            }
        },
        Frame::AssignResult { assignment, env } => {
            lemma_store_keeps(m.drop_values(1), assignment.name@, env, v);
        },
        Frame::AssignIndex { assignment, env } => {
            if m.values.len() >= 2 {
                match crate::semantics::set_indexed(m.top(1), v, m.top(0)) {
                    Ok(c) => {
                        lemma_store_keeps(m.drop_values(2), assignment.name@, env, c);
                    },
                    Err(_) => {},
                }
            }
        },
        Frame::CastItems { ty, next } => {
            if next < usize::MAX {
                lemma_ready_keeps(
                    m.push_value(v),
                    Frame::CastItems { ty, next: (next + 1) as usize },
                );
            }
        },
        Frame::CastEntries { key, value, next } => {
            if next < usize::MAX {
                lemma_ready_keeps(
                    m.push_value(v),
                    Frame::CastEntries { key, value, next: (next + 1) as usize },
                );
            }
        },
        _ => {},
    }
}

/// Whether the frame `d` of a machine is the frame of a loop without
/// condition.
pub open spec fn under_loop(m: MachineModel, d: int) -> bool {
    0 <= d < m.frames.len() && m.frames[d] is Loop && m.frames[d]->Loop_expr is For
}

/// Whether the next step of a machine hands a value with the break wrapper
/// to its frame `d`.
pub open spec fn breaks_at(m: MachineModel, d: int) -> bool {
    m.state is Return && m.frames.len() == d + 1 && m.values.len() > 0 && m.top(0) is Break
}

/// One step under a loop: a loop without condition is left by a value with
/// the break wrapper, or by an error, and by nothing else. Any other step
/// leaves the frame of the loop where it is, and does not end the evaluation.
pub proof fn lemma_step_under_loop<'p>(m: MachineModel<'p>, event: EventModel, d: int)
    requires
        under_loop(m, d),
    ensures
        transition(m, event).1 is Failed || breaks_at(m, d) || (under_loop(
            transition(m, event).0,
            d,
        ) && transition(m, event).0.frames[d] == m.frames[d] && !(transition(m, event).1
            is Finished)),
{
    match m.state {
        State::Idle => {},
        State::Waiting(pending) => {},
        State::Eval { expr, env } => {
            lemma_eval_keeps(m, expr, env);
        },
        State::Declare { decl, env } => {
            lemma_declare_keeps(m, decl, env);
        },
        State::Cast { ty } => {
            if m.values.len() >= 1 {
                lemma_cast_keeps(m.drop_values(1), m.top(0), ty);
            }
        },
        State::Ready => {
            lemma_ready_keeps(m.pop_frame(), m.frames.last());
            if d < m.frames.len() - 1 {
                assert(m.pop_frame().frames[d] == m.frames[d]);
            }
        },
        State::Return => {
            if m.values.len() >= 1 {
                lemma_deliver_keeps(m.pop_frame().drop_values(1), m.frames.last(), m.top(0));
                if d < m.frames.len() - 1 {
                    assert(m.pop_frame().drop_values(1).frames[d] == m.frames[d]);
                }
            }
        },
    }
}

/// The machine after it took the answers `events`, one step for each.
pub open spec fn after_steps<'p>(m: MachineModel<'p>, events: Seq<EventModel>) -> MachineModel<'p>
    decreases events.len(),
{
    if events.len() == 0 {
        m
    } else {
        transition(after_steps(m, events.drop_last()), events.last()).0
    }
}

/// A loop without condition runs on: whatever the answers of the driver,
/// and however many steps are taken, the frame of the loop stays and the
/// evaluation does not end, as long as no step fails and no step hands a
/// value with the break wrapper to the loop.
pub proof fn lemma_loop_runs_on<'p>(m: MachineModel<'p>, events: Seq<EventModel>, d: int)
    requires
        under_loop(m, d),
        forall|j: int|
            0 <= j < events.len() ==> !breaks_at(#[trigger] after_steps(m, events.take(j)), d)
                && !(transition(after_steps(m, events.take(j)), events[j]).1 is Failed),
    ensures
        under_loop(after_steps(m, events), d),
        after_steps(m, events).frames[d] == m.frames[d],
        forall|j: int|
            0 <= j < events.len() ==> !(transition(
                #[trigger] after_steps(m, events.take(j)),
                events[j],
            ).1 is Finished),
    decreases events.len(),
{
    if events.len() > 0 {
        let front = events.drop_last();
        assert forall|j: int| 0 <= j < front.len() implies !breaks_at(
            #[trigger] after_steps(m, front.take(j)),
            d,
        ) && !(transition(after_steps(m, front.take(j)), front[j]).1 is Failed) by {
            assert(front.take(j) =~= events.take(j));
            assert(front[j] == events[j]);
        }
        lemma_loop_runs_on(m, front, d);
        let n = events.len() - 1;
        assert(events.take(n) =~= front);
        let before = after_steps(m, events.take(n));
        lemma_step_under_loop(before, events.last(), d);
        assert forall|j: int| 0 <= j < events.len() implies !(transition(
            #[trigger] after_steps(m, events.take(j)),
            events[j],
        ).1 is Finished) by {
            if j < n {
                assert(front.take(j) =~= events.take(j));
            }
        }
    }
}

} // verus!
