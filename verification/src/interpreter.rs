//! The evaluator: the rules of the language, applied to values, and the
//! machine that evaluates a program step by step.

use vstd::prelude::*;
use vstd::string::StrSliceExecFns;
use crate::ast::{
    decl_of, Assignment, BinaryOperator, Declaration, Expr, IndexKind, Literal, Operator, Program,
    UnaryOperator,
};
use crate::builtin;
use crate::dec::{Dec, DecRequest};
use crate::env::{lookup, Constness, Env};
use crate::error::{result_view, ErrorModel, RuntimeError};
use crate::machine::{
    Action, ActionModel, Event, EventModel, Frame, Machine, MachineModel, Pending, State,
};
use crate::operators;
use crate::semantics::{
    added, after_vars, apply, assign_op, bind, body_of, bound_args, call, cast, combined, compared,
    declare, deliver, entry_type, eval, first_other, follow, for_in_next, for_in_start, indexed,
    inverted, lift, list_literal, map_literal, multiplied, native, negated, operand,
    operand_count, operands_ready, paired, paired_upto, ready, resume, scoped, set_indexed,
    store,
    transition, undefined, vars_of, walked, keyed_by, empty_map, OutcomeModel,
};
use crate::text::{few_minus_signs, from_chars, parse_integer, push_int, to_chars};
use crate::types::{Type, TypeModel};
use crate::util::assert_exactly_args;
use crate::value::{
    defaultable, entries_view, list_view, type_of, unbroken, Builtin, Func, Value, ValueModel,
};
use crate::text::int_text;

verus! {

/// What an operator on two values comes to: a value, an error, or a
/// computation on decimals to ask for.
#[derive(Debug)]
pub enum Outcome<'p> {
    Value(Value<'p>),
    Fail(RuntimeError<'p>),
    Ask(DecRequest),
}

impl<'p> View for Outcome<'p> {
    type V = OutcomeModel<'p>;

    open spec fn view(&self) -> OutcomeModel<'p> {
        match self {
            Outcome::Value(v) => OutcomeModel::Value(v@),
            Outcome::Fail(e) => OutcomeModel::Fail(e@),
            Outcome::Ask(request) => OutcomeModel::Ask(*request),
        }
    }
}

/// The outcome that is a value or an error.
fn lifted<'p>(r: Result<Value<'p>, RuntimeError<'p>>) -> (o: Outcome<'p>)
    ensures
        o@ == lift(result_view(r)),
{
    match r {
        Ok(v) => Outcome::Value(v),
        Err(e) => Outcome::Fail(e),
    }
}

/// The outcome that is a request or an error.
fn requested<'p>(r: Result<DecRequest, RuntimeError<'p>>) -> (o: Outcome<'p>)
    ensures
        o@ == match operators::request_view(r) {
            Ok(request) => OutcomeModel::Ask(request),
            Err(e) => OutcomeModel::Fail(e),
        },
{
    match r {
        Ok(request) => Outcome::Ask(request),
        Err(e) => Outcome::Fail(e),
    }
}

/// The error that `op` is not defined on values of the types of `values`.
fn undefined_for<'p>(op: Operator, types: Vec<Type>) -> (e: RuntimeError<'p>)
    ensures
        e@ == undefined::<'p>(op, crate::types::types_view(types@)),
{
    RuntimeError::InvalidOperatorOnTypes { op, types }
}

/// The evaluator.
pub struct Interpreter {}

impl Interpreter {
    /// The environment that every program starts in: the root scope, with
    /// the functions of the language.
    pub fn default_env<'p>() -> (r: Env<'p>)
        ensures
            r.wf(),
            r@ == seq![
                crate::env::ScopeModel { parent: None, vars: crate::env::builtin_bindings() },
            ],
    {
        Env::default()
    }

    /// Unary minus on a value.
    pub fn interpret_minus<'p>(&self, op: UnaryOperator, val: Value<'p>, env: &Env<'p>) -> (r:
        Result<Value<'p>, RuntimeError<'p>>)
        ensures
            result_view(r) == negated(op, val@),
    {
        match val.type_of() {
            Type::Int => operators::ineg(val, env),
            Type::Dec => operators::fneg(val, env),
            _ => {
                let mut types: Vec<Type> = Vec::new();
                types.push(val.type_of());
                assert(crate::types::types_view(types@) =~= seq![type_of(val@)]);
                Err(undefined_for(Operator::UnaryOperator(op), types))
            },
        }
    }

    /// `not` on a value.
    pub fn interpret_not<'p>(&self, op: UnaryOperator, val: Value<'p>, env: &Env<'p>) -> (r: Result<
        Value<'p>,
        RuntimeError<'p>,
    >)
        ensures
            result_view(r) == inverted(op, val@),
    {
        match val.type_of() {
            Type::Bool => operators::bnot(val, env),
            _ => {
                let mut types: Vec<Type> = Vec::new();
                types.push(val.type_of());
                assert(crate::types::types_view(types@) =~= seq![type_of(val@)]);
                Err(undefined_for(Operator::UnaryOperator(op), types))
            },
        }
    }

    /// `+` and `-` on two values.
    pub fn addition<'p>(&self, op: BinaryOperator, left: Value<'p>, right: Value<'p>, env: &Env<'p>)
        -> (r: Outcome<'p>)
        ensures
            r@ == added(op, left@, right@),
    {
        match (op, left.type_of(), right.type_of()) {
            (BinaryOperator::Add, Type::Int, Type::Int) => lifted(operators::iadd(left, right, env)),
            (BinaryOperator::Add, Type::Dec, Type::Dec) => requested(
                operators::fadd(left, right, env),
            ),
            (BinaryOperator::Add, Type::Str, Type::Str) => lifted(operators::sadd(left, right, env)),
            (BinaryOperator::Add, Type::List(_), Type::List(_)) => lifted(
                operators::ladd(left, right, env),
            ),
            (BinaryOperator::Add, Type::Mapping(_, _), Type::Mapping(_, _)) => lifted(
                operators::madd(left, right, env),
            ),
            (BinaryOperator::Subtract, Type::Int, Type::Int) => lifted(
                operators::isub(left, right, env),
            ),
            (BinaryOperator::Subtract, Type::Dec, Type::Dec) => requested(
                operators::fsub(left, right, env),
            ),
            (BinaryOperator::Subtract, Type::Str, Type::Str) => lifted(
                operators::ssub(left, right, env),
            ),
            (BinaryOperator::Subtract, Type::List(_), Type::List(_)) => lifted(
                operators::lsub(left, right, env),
            ),
            (BinaryOperator::Subtract, Type::Mapping(_, _), Type::Mapping(_, _)) => lifted(
                operators::msub(left, right, env),
            ),
            _ => Outcome::Fail(
                operators::undefined_on(Operator::BinaryOperator(op), &left, &right),
            ),
        }
    }

    /// `*`, `/` and `%` on two values.
    pub fn multiplication<'p>(
        &self,
        op: BinaryOperator,
        left: Value<'p>,
        right: Value<'p>,
        env: &Env<'p>,
    ) -> (r: Outcome<'p>)
        ensures
            r@ == multiplied(op, left@, right@),
    {
        match (op, left.type_of(), right.type_of()) {
            (BinaryOperator::Times, Type::Int, Type::Int) => lifted(
                operators::imul(left, right, env),
            ),
            (BinaryOperator::Times, Type::Dec, Type::Dec) => requested(
                operators::fmul(left, right, env),
            ),
            (BinaryOperator::Divide, Type::Int, Type::Int) => lifted(
                operators::idiv(left, right, env),
            ),
            (BinaryOperator::Divide, Type::Dec, Type::Dec) => requested(
                operators::fdiv(left, right, env),
            ),
            (BinaryOperator::Modulo, Type::Int, Type::Int) => lifted(
                operators::imod(left, right, env),
            ),
            (BinaryOperator::Modulo, Type::Dec, Type::Dec) => requested(
                operators::fmod(left, right, env),
            ),
            _ => Outcome::Fail(
                operators::undefined_on(Operator::BinaryOperator(op), &left, &right),
            ),
        }
    }

    /// A multiplication, a division or a remainder, on the values of its
    /// operands.
    pub fn interpret_multiplication<'p>(
        &self,
        op: BinaryOperator,
        left: Value<'p>,
        right: Value<'p>,
        env: &Env<'p>,
    ) -> (r: Outcome<'p>)
        ensures
            r@ == multiplied(op, unbroken(left@), unbroken(right@)),
    {
        self.multiplication(op, left.into_unbroken(), right.into_unbroken(), env)
    }

    /// An addition or a subtraction, on the values of its operands.
    pub fn interpret_addition<'p>(
        &self,
        op: BinaryOperator,
        left: Value<'p>,
        right: Value<'p>,
        env: &Env<'p>,
    ) -> (r: Outcome<'p>)
        ensures
            r@ == added(op, unbroken(left@), unbroken(right@)),
    {
        self.addition(op, left.into_unbroken(), right.into_unbroken(), env)
    }

    /// A comparison of two values.
    pub fn interpret_comparison<'p>(
        &self,
        op: BinaryOperator,
        left: Value<'p>,
        right: Value<'p>,
        env: &Env<'p>,
    ) -> (r: Result<Value<'p>, RuntimeError<'p>>)
        ensures
            result_view(r) == compared(op, left@, right@),
    {
        match op {
            BinaryOperator::Equal => operators::eq(left, right, env),
            BinaryOperator::NotEqual => operators::ne(left, right, env),
            BinaryOperator::Greater => operators::gt(left, right, env),
            BinaryOperator::GreaterEqual => operators::ge(left, right, env),
            BinaryOperator::Less => operators::lt(left, right, env),
            BinaryOperator::LessEqual => operators::le(left, right, env),
            _ => Err(operators::undefined_on(Operator::BinaryOperator(op), &left, &right)),
        }
    }

    /// `and` and `or` on two values.
    pub fn interpret_logical<'p>(
        &self,
        op: BinaryOperator,
        left: Value<'p>,
        right: Value<'p>,
        env: &Env<'p>,
    ) -> (r: Result<Value<'p>, RuntimeError<'p>>)
        ensures
            result_view(r) == combined(op, left@, right@),
    {
        match op {
            BinaryOperator::And => operators::band(left, right, env),
            BinaryOperator::Or => operators::bor(left, right, env),
            _ => {
                let mut types: Vec<Type> = Vec::new();
                types.push(Type::Bool);
                types.push(Type::Bool);
                assert(crate::types::types_view(types@) =~= seq![TypeModel::Bool, TypeModel::Bool]);
                Err(undefined_for(Operator::BinaryOperator(op), types))
            },
        }
    }

    /// The indexing of a collection.
    pub fn interpret_indexing<'p>(
        &self,
        op: BinaryOperator,
        collection: Value<'p>,
        start_index: Value<'p>,
        end_index: Option<Value<'p>>,
        env: &Env<'p>,
    ) -> (r: Result<Value<'p>, RuntimeError<'p>>)
        ensures
            result_view(r) == indexed(op, collection@, start_index@, operators::opt_view(end_index)),
    {
        let l_type = collection.type_of();
        let start_type = start_index.type_of();
        match (&l_type, &start_type) {
            (Type::Str, Type::Int) => operators::sgetidx(collection, start_index, end_index, env),
            (Type::List(_), Type::Int) => operators::lgetidx(
                collection,
                start_index,
                end_index,
                env,
            ),
            _ => {
                let by_key = match &l_type {
                    Type::Mapping(k, _) => start_type.same(k),
                    _ => false,
                };
                let empty = match &collection {
                    Value::Mapping(entries) => entries.len() == 0,
                    _ => false,
                };
                let keyed = end_index.is_none() && (by_key || empty);
                if keyed {
                    operators::mgetidx(collection, start_index, end_index, env)
                } else {
                    assert(!(operators::opt_view(end_index) is None && (keyed_by(
                        collection@,
                        type_of(start_index@),
                    ) || empty_map(collection@))));
                    assert(!(type_of(collection@) is Str && type_of(start_index@) is Int));
                    assert(!(type_of(collection@) is List && type_of(start_index@) is Int));
                    let end_type = match &end_index {
                        Some(e) => e.type_of(),
                        None => start_type.duplicate(),
                    };
                    let mut types: Vec<Type> = Vec::new();
                    types.push(l_type);
                    types.push(start_type);
                    types.push(end_type);
                    let ghost e = operators::opt_view(end_index);
                    let ghost want = seq![
                        type_of(collection@),
                        type_of(start_index@),
                        match e {
                            Some(e) => type_of(e),
                            None => type_of(start_index@),
                        },
                    ];
                    assert(crate::types::types_view(types@) =~= want);
                    assert(indexed(op, collection@, start_index@, e) == Err::<
                        ValueModel<'p>,
                        ErrorModel<'p>,
                    >(undefined(Operator::BinaryOperator(op), want)));
                    Err(undefined_for(Operator::BinaryOperator(op), types))
                }
            },
        }
    }

    /// The collection with `element` in the place that `index` names.
    pub fn set_index<'p>(
        &self,
        collection: Value<'p>,
        index: Value<'p>,
        element: Value<'p>,
        env: &Env<'p>,
    ) -> (r: Result<Value<'p>, RuntimeError<'p>>)
        ensures
            result_view(r) == set_indexed(collection@, index@, element@),
    {
        let l_type = operators::peel(&collection).type_of();
        let r_type = operators::peel(&index).type_of();
        match (&l_type, &r_type) {
            (Type::Str, Type::Int) => operators::ssetidx(collection, index, element, env),
            (Type::List(_), Type::Int) => operators::lsetidx(collection, index, element, env),
            _ => {
                let keyed = match &l_type {
                    Type::Mapping(k, _) => r_type.same(k) || match operators::peel(&collection) {
                        Value::Mapping(entries) => entries.len() == 0,
                        _ => false,
                    },
                    _ => false,
                };
                if keyed {
                    operators::msetidx(collection, index, element, env)
                } else {
                    let mut types: Vec<Type> = Vec::new();
                    types.push(l_type);
                    types.push(r_type);
                    assert(crate::types::types_view(types@) =~= seq![
                        type_of(unbroken(collection@)),
                        type_of(unbroken(index@)),
                    ]);
                    Err(
                        undefined_for(
                            Operator::BinaryOperator(BinaryOperator::SetIndexing),
                            types,
                        ),
                    )
                }
            },
        }
    }

    /// What the operator of an assignment makes of the value that the name
    /// has and the value assigned.
    pub fn assignment_operator<'p>(
        &self,
        op: BinaryOperator,
        current: Value<'p>,
        value: Value<'p>,
        env: &Env<'p>,
    ) -> (r: Outcome<'p>)
        ensures
            r@ == assign_op(op, current@, value@),
    {
        match op {
            BinaryOperator::Is => Outcome::Value(value),
            BinaryOperator::And => lifted(self.interpret_logical(op, current, value, env)),
            BinaryOperator::Or => lifted(self.interpret_logical(op, current, value, env)),
            BinaryOperator::Greater => lifted(self.interpret_comparison(op, current, value, env)),
            BinaryOperator::Less => lifted(self.interpret_comparison(op, current, value, env)),
            BinaryOperator::GreaterEqual => lifted(
                self.interpret_comparison(op, current, value, env),
            ),
            BinaryOperator::LessEqual => lifted(self.interpret_comparison(op, current, value, env)),
            BinaryOperator::Equal => lifted(self.interpret_comparison(op, current, value, env)),
            BinaryOperator::NotEqual => lifted(self.interpret_comparison(op, current, value, env)),
            BinaryOperator::Add => self.addition(op, current, value, env),
            BinaryOperator::Subtract => self.addition(op, current, value, env),
            BinaryOperator::Times => self.multiplication(op, current, value, env),
            BinaryOperator::Divide => self.multiplication(op, current, value, env),
            BinaryOperator::Modulo => self.multiplication(op, current, value, env),
            _ => Outcome::Fail(RuntimeError::InvalidAssignmentOperator(op)),
        }
    }

    /// What a literal comes to, once the values of its items are there.
    pub fn interpret_literal<'p>(&self, literal: &Literal, args: Vec<Value<'p>>, env: &Env<'p>)
        -> (r: Result<Value<'p>, RuntimeError<'p>>)
        ensures
            result_view(r) == match literal {
                Literal::Int(i) => Ok(ValueModel::Int(*i)),
                Literal::Dec(d) => Ok(ValueModel::Dec(d.bits)),
                Literal::Str(s) => Ok(ValueModel::Str(s@)),
                Literal::Bool(b) => Ok(ValueModel::Bool(*b)),
                Literal::List(_) => list_literal(list_view(args@)),
                Literal::Mapping(_) => map_literal(list_view(args@)),
            },
    {
        match literal {
            Literal::Int(i) => Ok(Value::Int(*i)),
            Literal::Dec(d) => Ok(Value::Dec(*d)),
            Literal::Str(s) => Ok(Value::Str(s.clone())),
            Literal::Bool(b) => Ok(Value::Bool(*b)),
            Literal::List(_) => {
                let ghost items = list_view(args@);
                let ghost kinds = Seq::new(items.len(), |i: int| type_of(items[i]));
                let mut i: usize = 0;
                assert(kinds.take(0) =~= Seq::empty());
                while i < args.len()
                    invariant
                        i <= args.len(),
                        literal is List,
                        items == list_view(args@),
                        kinds == Seq::new(items.len(), |i: int| type_of(items[i])),
                        first_other(kinds.take(i as int)) is None,
                    decreases args.len() - i,
                {
                    let kind = args[i].type_of();
                    let first = args[0].type_of();
                    proof {
                        assert(kinds.take(i as int + 1).drop_last() =~= kinds.take(i as int));
                        assert(kinds.take(i as int + 1).last() == kind@);
                        assert(kinds.take(i as int + 1)[0] == first@);
                    }
                    if !kind.same(&first) {
                        proof {
                            lemma_first_other_prefix(kinds, i as int + 1);
                        }
                        let mut got: Vec<Type> = Vec::new();
                        got.push(Type::List(Box::new(kind)));
                        let mut expected: Vec<Type> = Vec::new();
                        expected.push(Type::List(Box::new(first)));
                        let e = RuntimeError::MismatchedTypes { got, expected };
                        assert(e@->MismatchedTypes_got =~= seq![
                            TypeModel::List(Box::new(type_of(items[i as int]))),
                        ]);
                        assert(e@->MismatchedTypes_expected =~= seq![
                            TypeModel::List(Box::new(type_of(items[0]))),
                        ]);
                        return Err(e);
                    }
                    i += 1;
                }
                assert(kinds.take(args.len() as int) =~= kinds);
                let result = Value::List(args);
                proof {
                    crate::value::lemma_list_view(result->List_0);
                }
                Ok(result)
            },
            Literal::Mapping(_) => {
                let ghost flat = list_view(args@);
                let mut entries: Vec<(Value<'p>, Value<'p>)> = Vec::new();
                let pairs = args.len() / 2;
                let mut i: usize = 0;
                assert(entries_view(entries@) =~= paired_upto(flat, 0));
                while i < pairs
                    invariant
                        i <= pairs,
                        pairs == args.len() / 2,
                        flat == list_view(args@),
                        entries_view(entries@) == paired_upto(flat, i as int),
                    decreases pairs - i,
                {
                    let k = args[2 * i].duplicate();
                    let v = args[2 * i + 1].duplicate();
                    operators::put_entry(&mut entries, k, v);
                    i += 1;
                }
                let ghost made = entries_view(entries@);
                let ghost kinds = Seq::new(made.len(), |i: int| entry_type(made[i]));
                let mut j: usize = 0;
                assert(kinds.take(0) =~= Seq::empty());
                while j < entries.len()
                    invariant
                        j <= entries.len(),
                        literal is Mapping,
                        made == paired(list_view(args@)),
                        made == entries_view(entries@),
                        kinds == Seq::new(made.len(), |i: int| entry_type(made[i])),
                        first_other(kinds.take(j as int)) is None,
                    decreases entries.len() - j,
                {
                    let kind = Type::Mapping(
                        Box::new(entries[j].0.type_of()),
                        Box::new(entries[j].1.type_of()),
                    );
                    let first = Type::Mapping(
                        Box::new(entries[0].0.type_of()),
                        Box::new(entries[0].1.type_of()),
                    );
                    proof {
                        assert(kinds.take(j as int + 1).drop_last() =~= kinds.take(j as int));
                        assert(kinds.take(j as int + 1).last() == kind@);
                        assert(kinds.take(j as int + 1)[0] == first@);
                    }
                    if !kind.same(&first) {
                        proof {
                            lemma_first_other_prefix(kinds, j as int + 1);
                        }
                        let mut got: Vec<Type> = Vec::new();
                        got.push(kind);
                        let mut expected: Vec<Type> = Vec::new();
                        expected.push(first);
                        let e = RuntimeError::MismatchedTypes { got, expected };
                        assert(e@->MismatchedTypes_got =~= seq![entry_type(made[j as int])]);
                        assert(e@->MismatchedTypes_expected =~= seq![entry_type(made[0])]);
                        return Err(e);
                    }
                    j += 1;
                }
                assert(kinds.take(entries.len() as int) =~= kinds);
                let result = Value::Mapping(entries);
                proof {
                    crate::value::lemma_mapping_view(result->Mapping_0);
                }
                Ok(result)
            },
        }
    }
}

impl Interpreter {
    /// Goes on as an outcome asks.
    pub fn follow<'p>(&self, o: Outcome<'p>, m: &mut Machine<'p>) -> (a: Action<'p>)
        requires
            old(m).wf(),
        ensures
            final(m).wf(),
            (final(m)@, a@) == follow(old(m)@, o@),
    {
        match o {
            Outcome::Value(v) => m.give(v),
            Outcome::Fail(e) => m.fail(e),
            Outcome::Ask(request) => m.ask(Pending::Dec, Action::Compute(request)),
        }
    }

    /// Assigns `v` to `name` as seen from the scope `env`, and yields it.
    pub fn store<'p>(&self, name: &String, env: usize, v: Value<'p>, m: &mut Machine<'p>) -> (a:
        Action<'p>)
        requires
            old(m).wf(),
        ensures
            final(m).wf(),
            (final(m)@, a@) == store(old(m)@, name@, env, v@),
    {
        match m.assign(env, name, v, false) {
            Ok(v) => m.give(v),
            Err(e) => m.fail(e),
        }
    }

    /// Binds the name of a declaration to `v` and yields `v`.
    pub fn bind<'p>(
        &self,
        decl: &'p Declaration,
        env: usize,
        v: Value<'p>,
        given: bool,
        m: &mut Machine<'p>,
    ) -> (a: Action<'p>)
        requires
            old(m).wf(),
        ensures
            final(m).wf(),
            (final(m)@, a@) == bind(old(m)@, decl, env, v@, given),
    {
        let d = decl.decl();
        let kind = v.type_of();
        let fits = match kind.infer_contained_type(&d.declared_type) {
            None => false,
            Some(t) => !(given && !t.same(&d.declared_type)),
        };
        if !fits {
            let mut got: Vec<Type> = Vec::new();
            got.push(kind);
            let mut expected: Vec<Type> = Vec::new();
            expected.push(d.declared_type.duplicate());
            let e = RuntimeError::MismatchedTypes { got, expected };
            assert(e@->MismatchedTypes_got =~= seq![type_of(v@)]);
            assert(e@->MismatchedTypes_expected =~= seq![d.declared_type@]);
            return m.fail(e);
        }
        let constness = if decl.is_var() {
            Constness::Var
        } else {
            Constness::Const
        };
        match m.declare(env, &d.name, v, constness, d.declared_type.duplicate()) {
            Ok(v) => m.give(v),
            Err(name) => m.fail(RuntimeError::IdentifierNotFound(name)),
        }
    }

    /// Starts on a declaration.
    pub fn interpret_declaration<'p>(&self, decl: &'p Declaration, env: usize, m: &mut Machine<'p>)
        -> (a: Action<'p>)
        requires
            old(m).wf(),
        ensures
            final(m).wf(),
            (final(m)@, a@) == declare(old(m)@, decl, env),
    {
        let d = decl.decl();
        match &d.expr {
            Some(init) => {
                m.push_frame(Frame::Declare { decl, env });
                m.go(State::Eval { expr: &**init, env })
            },
            None => {
                if defaultable(&d.declared_type) {
                    let v = Value::default_for(&d.declared_type);
                    self.bind(decl, env, v, false, m)
                } else {
                    m.fail(RuntimeError::NotImplemented)
                }
            },
        }
    }

    /// Calls a function of the language.
    pub fn native<'p>(&self, function: Builtin, args: Vec<Value<'p>>, m: &mut Machine<'p>) -> (a:
        Action<'p>)
        requires
            old(m).wf(),
        ensures
            final(m).wf(),
            (final(m)@, a@) == native(old(m)@, function, list_view(args@)),
    {
        match function {
            Builtin::Print => {
                let pieces = builtin::print(&args);
                m.ask(Pending::Written, Action::Print(pieces))
            },
            Builtin::PrintLine => {
                let pieces = builtin::println(&args);
                m.ask(Pending::Written, Action::Print(pieces))
            },
            Builtin::Len => m.settle(builtin::len(&args)),
            Builtin::Range => m.settle(builtin::range(&args)),
            Builtin::Repeat => m.settle(builtin::repeat(&args)),
            Builtin::InputChar => m.ask(Pending::Char, Action::ReadChar),
            Builtin::InputLine => m.ask(Pending::Line, Action::ReadLine),
            Builtin::InputAll => m.ask(Pending::All, Action::ReadAll),
            Builtin::Ordinal => m.settle(builtin::ord(&args)),
            Builtin::Character => m.settle(builtin::char(&args)),
        }
    }

    /// Calls the function that `name` is bound to, with the values `args`.
    pub fn interpret_function_call<'p>(
        &self,
        name: &String,
        args: Vec<Value<'p>>,
        env: usize,
        m: &mut Machine<'p>,
    ) -> (a: Action<'p>)
        requires
            old(m).wf(),
        ensures
            final(m).wf(),
            (final(m)@, a@) == call(old(m)@, name@, env, list_view(args@)),
    {
        let entry = match m.find(env, name) {
            Ok(entry) => entry,
            Err(e) => {
                return m.fail(e);
            },
        };
        match entry.v.into_unbroken() {
            Value::Func(Func::Native(function)) => self.native(function, args, m),
            Value::Func(Func::Declared { decls, ret, body, env: closed }) => {
                match assert_exactly_args(decls.len(), args.len()) {
                    Ok(_) => {},
                    Err(e) => {
                        return m.fail(e);
                    },
                }
                let ghost start = m@;
                let ghost values = list_view(args@);
                let ghost goal = call(start, name@, env, values);
                let ghost bound = bound_args(start.env, closed, decls@, values, 0);
                assert(goal == match bound.1 {
                    Some(e) => start.in_env(bound.0).fail(e),
                    None => start.in_env(bound.0).open_scope(closed).push_frame(
                        Frame::Unbreak,
                    ).push_frame(Frame::Close { env: bound.0.len() as usize }).push_frame(
                        Frame::Sequence { exprs: body, next: 0, env: bound.0.len() as usize },
                    ).go(State::Ready),
                });
                let mut i: usize = 0;
                while i < decls.len()
                    invariant
                        i <= decls.len(),
                        decls.len() == args.len(),
                        m.wf(),
                        values == list_view(args@),
                        goal == call(old(m)@, name@, env, list_view(args@)),
                        bound == bound_args(start.env, closed, decls@, values, 0),
                        goal == match bound.1 {
                            Some(e) => start.in_env(bound.0).fail(e),
                            None => start.in_env(bound.0).open_scope(closed).push_frame(
                                Frame::Unbreak,
                            ).push_frame(Frame::Close { env: bound.0.len() as usize }).push_frame(
                                Frame::Sequence {
                                    exprs: body,
                                    next: 0,
                                    env: bound.0.len() as usize,
                                },
                            ).go(State::Ready),
                        },
                        m@ == start.in_env(m@.env),
                        bound_args(start.env, closed, decls@, values, 0) == bound_args(
                            m@.env,
                            closed,
                            decls@,
                            values,
                            i as int,
                        ),
                    decreases decls.len() - i,
                {
                    match m.assign(closed, &decls[i].decl().name, args[i].duplicate(), true) {
                        Ok(_) => {},
                        Err(e) => {
                            return m.fail(e);
                        },
                    }
                    i += 1;
                }
                let id = m.open_scope(closed);
                m.push_frame(Frame::Unbreak);
                m.push_frame(Frame::Close { env: id });
                m.push_frame(Frame::Sequence { exprs: body, next: 0, env: id });
                m.go(State::Ready)
            },
            _ => m.fail(RuntimeError::CallingNonCallable { name: name.clone() }),
        }
    }

    /// A type as a value.
    pub fn interpret_type_name<'p>(&self, t: &Type) -> (r: Value<'p>)
        ensures
            r@ == ValueModel::<'p>::Type(t@),
    {
        Value::Type(t.duplicate())
    }

    /// Starts on the cast of a value to the type `ty`: the value goes
    /// without its break wrapper.
    pub fn interpret_type_cast<'p>(&self, value: Value<'p>, ty: &'p Type, m: &mut Machine<'p>)
        -> (a: Action<'p>)
        requires
            old(m).wf(),
        ensures
            final(m).wf(),
            (final(m)@, a@) == old(m)@.push_value(unbroken(value@)).go(State::Cast { ty }),
    {
        m.push_value(value.into_unbroken());
        m.go(State::Cast { ty })
    }

    /// What the cast of a string to an integer comes to, once the string
    /// was read: the integer that it was read as, or the error that it was
    /// read as none.
    pub fn cast_parsed<'p>(&self, value: Value<'p>, ty: &Type, parsed: Option<i64>) -> (r: Result<
        Value<'p>,
        RuntimeError<'p>,
    >)
        ensures
            result_view(r) == match parsed {
                Some(i) => Ok(ValueModel::Int(i)),
                None => Err(ErrorModel::StringToValueParseFailed(value@, ty@)),
            },
    {
        match parsed {
            Some(i) => Ok(Value::Int(i)),
            None => Err(RuntimeError::StringToValueParseFailed(value, ty.duplicate())),
        }
    }

    /// Casts `value` to the type `ty`.
    pub fn cast_to_type<'p>(&self, value: Value<'p>, ty: &'p Type, m: &mut Machine<'p>) -> (a:
        Action<'p>)
        requires
            old(m).wf(),
        ensures
            final(m).wf(),
            (final(m)@, a@) == cast(old(m)@, value@, ty),
    {
        match value {
            Value::Int(i) => match ty {
                Type::Int => m.give(Value::Int(i)),
                Type::Dec => m.ask(Pending::Dec, Action::Compute(DecRequest::FromInt(i))),
                Type::Str => {
                    let mut text: Vec<char> = Vec::new();
                    push_int(&mut text, i);
                    assert(text@ =~= int_text(i as int));
                    m.give(Value::Str(from_chars(&text)))
                },
                Type::Bool => m.give(Value::Bool(i != 0)),
                _ => m.fail(RuntimeError::CannotCastValueToType(Value::Int(i), ty.duplicate())),
            },
            Value::Dec(d) => match ty {
                Type::Int => m.ask(Pending::Int, Action::Compute(DecRequest::ToInt(d))),
                Type::Dec => m.give(Value::Dec(d)),
                Type::Str => m.ask(Pending::Text, Action::Compute(DecRequest::ToText(d))),
                Type::Bool => m.give(Value::Bool(!d.is_zero())),
                _ => m.fail(RuntimeError::CannotCastValueToType(Value::Dec(d), ty.duplicate())),
            },
            Value::Str(s) => match ty {
                Type::Int => {
                    if !few_minus_signs(s.as_str()) {
                        m.fail(
                            RuntimeError::StringToValueParseFailed(Value::Str(s), ty.duplicate()),
                        )
                    } else {
                        let parsed = parse_integer(s.as_str());
                        let r = self.cast_parsed(Value::Str(s), ty, parsed);
                        m.settle(r)
                    }
                },
                Type::Dec => {
                    let text = s.clone();
                    m.push_value(Value::Str(s));
                    m.ask(Pending::Parsed { ty }, Action::ParseDec(text))
                },
                Type::Str => m.give(Value::Str(s)),
                Type::Bool => {
                    let filled = s.as_str().unicode_len() != 0;
                    m.give(Value::Bool(filled))
                },
                _ => m.fail(RuntimeError::CannotCastValueToType(Value::Str(s), ty.duplicate())),
            },
            Value::Bool(b) => match ty {
                Type::Int => m.give(
                    Value::Int(
                        if b {
                            1
                        } else {
                            0
                        },
                    ),
                ),
                Type::Dec => m.give(
                    Value::Dec(
                        if b {
                            Dec::one()
                        } else {
                            Dec::zero()
                        },
                    ),
                ),
                Type::Str => {
                    if b {
                        m.give(Value::Str("true".to_string()))
                    } else {
                        m.give(Value::Str("false".to_string()))
                    }
                },
                Type::Bool => m.give(Value::Bool(b)),
                _ => m.fail(RuntimeError::CannotCastValueToType(Value::Bool(b), ty.duplicate())),
            },
            Value::List(items) => match ty {
                Type::List(item) => {
                    m.push_value(Value::List(items));
                    m.push_frame(Frame::CastItems { ty: &**item, next: 0 });
                    m.go(State::Ready)
                },
                _ => m.fail(
                    RuntimeError::CannotCastValueToType(Value::List(items), ty.duplicate()),
                ),
            },
            Value::Mapping(entries) => match ty {
                Type::Mapping(key, value) => {
                    m.push_value(Value::Mapping(entries));
                    m.push_frame(Frame::CastEntries { key: &**key, value: &**value, next: 0 });
                    m.go(State::Ready)
                },
                _ => m.fail(
                    RuntimeError::CannotCastValueToType(Value::Mapping(entries), ty.duplicate()),
                ),
            },
            other => m.fail(RuntimeError::CannotCastValueToType(other, ty.duplicate())),
        }
    }

    /// Takes the answer of the driver.
    pub fn resume<'p>(&self, pending: Pending<'p>, event: Event, m: &mut Machine<'p>) -> (a: Action<
        'p,
    >)
        requires
            old(m).wf(),
        ensures
            final(m).wf(),
            (final(m)@, a@) == resume(old(m)@, pending, event@),
    {
        match (pending, event) {
            (Pending::Written, Event::Written) => m.give(Value::Unit),
            (Pending::Char, Event::Char(c)) => m.settle(builtin::inputchar(c)),
            (Pending::Line, Event::Line(line)) => m.settle(builtin::inputline(line)),
            (Pending::All, Event::All(text)) => m.settle(builtin::inputall(text)),
            (Pending::Dec, Event::Dec(d)) => m.give(Value::Dec(d)),
            (Pending::Int, Event::Int(i)) => m.give(Value::Int(i)),
            (Pending::Text, Event::Text(text)) => m.give(Value::Str(text)),
            (Pending::Parsed { ty }, Event::Dec(d)) => {
                match m.pop_value() {
                    Some(_) => m.give(Value::Dec(d)),
                    None => m.fail(RuntimeError::NotImplemented),
                }
            },
            (Pending::Parsed { ty }, Event::NoDec) => {
                match m.pop_value() {
                    Some(v) => m.fail(RuntimeError::StringToValueParseFailed(v, ty.duplicate())),
                    None => m.fail(RuntimeError::NotImplemented),
                }
            },
            _ => m.fail(RuntimeError::NotImplemented),
        }
    }
}

/// The operand `i` of an expression, if it has as many.
pub fn operand_at<'p>(expr: &'p Expr, i: usize) -> (r: Option<&'p Expr>)
    ensures
        match r {
            Some(e) => i < operand_count(expr) && e == operand(expr, i as int),
            None => i >= operand_count(expr),
        },
{
    match expr {
        Expr::Literal(Literal::List(items)) => if i < items.len() {
            Some(&items[i])
        } else {
            None
        },
        Expr::Literal(Literal::Mapping(pairs)) => if i / 2 < pairs.len() {
            if i % 2 == 0 {
                Some(&pairs[i / 2].0)
            } else {
                Some(&pairs[i / 2].1)
            }
        } else {
            None
        },
        Expr::FunctionCall { args, .. } => if i < args.len() {
            Some(&args[i])
        } else {
            None
        },
        Expr::Minus(u) => if i == 0 {
            Some(&*u.expr)
        } else {
            None
        },
        Expr::Not(u) => if i == 0 {
            Some(&*u.expr)
        } else {
            None
        },
        Expr::Indexing(ix) => if i == 0 {
            Some(&*ix.collection)
        } else {
            match &ix.index {
                IndexKind::Single { index } => if i == 1 {
                    Some(&**index)
                } else {
                    None
                },
                IndexKind::Range { start, end } => if i == 1 {
                    Some(&**start)
                } else if i == 2 {
                    Some(&**end)
                } else {
                    None
                },
            }
        },
        Expr::Multiplication(b) => if i == 0 {
            Some(&*b.left)
        } else if i == 1 {
            Some(&*b.right)
        } else {
            None
        },
        Expr::Addition(b) => if i == 0 {
            Some(&*b.left)
        } else if i == 1 {
            Some(&*b.right)
        } else {
            None
        },
        Expr::Comparison(b) => if i == 0 {
            Some(&*b.left)
        } else if i == 1 {
            Some(&*b.right)
        } else {
            None
        },
        Expr::Logical(b) => if i == 0 {
            Some(&*b.left)
        } else if i == 1 {
            Some(&*b.right)
        } else {
            None
        },
        Expr::Return(Some(e)) => if i == 0 {
            Some(&**e)
        } else {
            None
        },
        Expr::Break(Some(e)) => if i == 0 {
            Some(&**e)
        } else {
            None
        },
        Expr::TypeCast(e, _) => if i == 0 {
            Some(&**e)
        } else {
            None
        },
        Expr::ForIn { collection, .. } => if i == 0 {
            Some(&**collection)
        } else {
            None
        },
        _ => None,
    }
}

/// The declaration `i` that an expression starts with, if it has as many.
pub fn var_at<'p>(expr: &'p Expr, i: usize) -> (r: Option<&'p Declaration>)
    ensures
        match r {
            Some(d) => i < vars_of(expr).len() && i < usize::MAX && *d == vars_of(expr)[i as int],
            None => i >= vars_of(expr).len(),
        },
{
    let vars = match expr {
        Expr::FunctionDefinition { args, .. } => args,
        Expr::If { vars, .. } => vars,
        Expr::For { vars, .. } => vars,
        Expr::ForWhile { vars, .. } => vars,
        Expr::ForIn { vars, .. } => vars,
        _ => {
            return None;
        },
    };
    if i < vars.len() {
        Some(&vars[i])
    } else {
        None
    }
}

impl Interpreter {
    /// Evaluates `expr`, whose operands have the values `args`.
    pub fn apply<'p>(&self, expr: &'p Expr, env: usize, args: Vec<Value<'p>>, m: &mut Machine<'p>)
        -> (a: Action<'p>)
        requires
            old(m).wf(),
        ensures
            final(m).wf(),
            (final(m)@, a@) == apply(old(m)@, expr, env, list_view(args@)),
    {
        let mut args = args;
        if operand_at(expr, args.len()).is_some() {
            return m.fail(RuntimeError::NotImplemented);
        }
        match expr {
            Expr::Literal(literal) => match literal {
                Literal::List(_) => {
                    let r = self.interpret_literal(literal, args, m.env());
                    m.settle(r)
                },
                Literal::Mapping(_) => {
                    let r = self.interpret_literal(literal, args, m.env());
                    m.settle(r)
                },
                _ => m.fail(RuntimeError::NotImplemented),
            },
            Expr::FunctionCall { name, .. } => self.interpret_function_call(name, args, env, m),
            Expr::Minus(u) => {
                let val = args.remove(0).into_unbroken();
                let r = self.interpret_minus(u.op, val, m.env());
                m.settle(r)
            },
            Expr::Not(u) => {
                let val = args.remove(0);
                let r = self.interpret_not(u.op, val, m.env());
                m.settle(r)
            },
            Expr::Indexing(ix) => {
                let end = if args.len() > 2 {
                    Some(args.remove(2).into_unbroken())
                } else {
                    None
                };
                let start = args.remove(1).into_unbroken();
                let collection = args.remove(0).into_unbroken();
                let r = self.interpret_indexing(ix.op, collection, start, end, m.env());
                m.settle(r)
            },
            Expr::Multiplication(b) => {
                let right = args.remove(1);
                let left = args.remove(0);
                let o = self.interpret_multiplication(b.op, left, right, m.env());
                self.follow(o, m)
            },
            Expr::Addition(b) => {
                let right = args.remove(1);
                let left = args.remove(0);
                let o = self.interpret_addition(b.op, left, right, m.env());
                self.follow(o, m)
            },
            Expr::Comparison(b) => {
                let right = args.remove(1).into_unbroken();
                let left = args.remove(0).into_unbroken();
                let r = self.interpret_comparison(b.op, left, right, m.env());
                m.settle(r)
            },
            Expr::Logical(b) => {
                let right = args.remove(1).into_unbroken();
                let left = args.remove(0).into_unbroken();
                let r = self.interpret_logical(b.op, left, right, m.env());
                m.settle(r)
            },
            Expr::Return(Some(_)) => {
                let v = args.remove(0);
                m.give(Value::Break(Box::new(v)))
            },
            Expr::Break(Some(_)) => {
                let v = args.remove(0);
                m.give(Value::Break(Box::new(v)))
            },
            Expr::TypeCast(_, ty) => {
                let v = args.remove(0);
                self.interpret_type_cast(v, ty, m)
            },
            Expr::ForIn { vars, .. } => {
                if vars.len() < 1 {
                    m.fail(RuntimeError::NotEnoughArguments { want: 1, got: 0 })
                } else {
                    let collection = args.remove(0);
                    let id = m.open_scope(env);
                    m.push_value(collection);
                    m.push_frame(Frame::Close { env: id });
                    m.push_frame(Frame::Vars { owner: expr, next: 0, env: id });
                    m.go(State::Ready)
                }
            },
            _ => m.fail(RuntimeError::NotImplemented),
        }
    }

    /// Goes on with the operands of `expr`, of which `count` have their
    /// values on top of the values.
    pub fn operands_ready<'p>(&self, expr: &'p Expr, env: usize, count: usize, m: &mut Machine<'p>)
        -> (a: Action<'p>)
        requires
            old(m).wf(),
        ensures
            final(m).wf(),
            (final(m)@, a@) == operands_ready(old(m)@, expr, env, count),
    {
        match operand_at(expr, count) {
            Some(e) => {
                m.push_frame(Frame::Operands { expr, env, count });
                m.go(State::Eval { expr: e, env })
            },
            None => {
                if m.depth() < count {
                    m.fail(RuntimeError::NotImplemented)
                } else {
                    let args = m.take_values(count);
                    assert(args@.len() == list_view(args@).len());
                    self.apply(expr, env, args, m)
                }
            },
        }
    }

    /// Starts on an assignment: the value that the name has is looked up,
    /// then the expression is evaluated.
    pub fn interpret_assignment<'p>(
        &self,
        assignment: &'p Assignment,
        env: usize,
        m: &mut Machine<'p>,
    ) -> (a: Action<'p>)
        requires
            old(m).wf(),
        ensures
            final(m).wf(),
            (final(m)@, a@) == match lookup(old(m)@.env, env as int, assignment.name@) {
                Some(entry) => old(m)@.push_value(entry.v).push_frame(
                    Frame::AssignValue { assignment, env },
                ).go(State::Eval { expr: &*assignment.expr, env }),
                None => old(m)@.fail(ErrorModel::IdentifierNotFound(assignment.name@)),
            },
    {
        match m.find(env, &assignment.name) {
            Ok(entry) => {
                m.push_value(entry.v);
                m.push_frame(Frame::AssignValue { assignment, env });
                m.go(State::Eval { expr: &*assignment.expr, env })
            },
            Err(e) => m.fail(e),
        }
    }

    /// Opens a scope inside `env` for `expr`, which starts with
    /// declarations.
    pub fn scoped<'p>(&self, expr: &'p Expr, env: usize, m: &mut Machine<'p>) -> (a: Action<'p>)
        requires
            old(m).wf(),
        ensures
            final(m).wf(),
            (final(m)@, a@) == scoped(old(m)@, expr, env),
    {
        let id = m.open_scope(env);
        m.push_frame(Frame::Close { env: id });
        m.push_frame(Frame::Vars { owner: expr, next: 0, env: id });
        m.go(State::Ready)
    }

    /// Starts on an expression in the scope `env`.
    pub fn interpret_expr<'p>(&self, expr: &'p Expr, env: usize, m: &mut Machine<'p>) -> (a: Action<
        'p,
    >)
        requires
            old(m).wf(),
        ensures
            final(m).wf(),
            (final(m)@, a@) == eval(old(m)@, expr, env),
    {
        match expr {
            Expr::Literal(Literal::Int(i)) => m.give(Value::Int(*i)),
            Expr::Literal(Literal::Dec(d)) => m.give(Value::Dec(*d)),
            Expr::Literal(Literal::Str(s)) => m.give(Value::Str(s.clone())),
            Expr::Literal(Literal::Bool(b)) => m.give(Value::Bool(*b)),
            Expr::Identifier(name) => match m.find(env, name) {
                Ok(entry) => m.give(entry.v),
                Err(e) => m.fail(e),
            },
            Expr::Declaration(decl) => self.interpret_declaration(decl, env, m),
            Expr::Assignment(a) => self.interpret_assignment(a, env, m),
            Expr::Block(exprs) => {
                let id = m.open_scope(env);
                m.push_frame(Frame::Close { env: id });
                m.push_frame(Frame::Sequence { exprs, next: 0, env: id });
                m.go(State::Ready)
            },
            Expr::Return(None) => m.give(Value::Break(Box::new(Value::Unit))),
            Expr::Break(None) => m.give(Value::Break(Box::new(Value::Unit))),
            Expr::FunctionDefinition { .. } => {
                let id = m.open_scope(env);
                m.push_frame(Frame::Vars { owner: expr, next: 0, env: id });
                m.go(State::Ready)
            },
            Expr::If { .. } => self.scoped(expr, env, m),
            Expr::For { .. } => self.scoped(expr, env, m),
            Expr::ForWhile { .. } => self.scoped(expr, env, m),
            Expr::TypeName(t) => {
                let v = self.interpret_type_name(t);
                assert(v@ == ValueModel::<'p>::Type(t@));
                m.give(v)
            },
            _ => self.operands_ready(expr, env, 0, m),
        }
    }

    /// Schedules a program for evaluation in the scope `env`: the machine
    /// goes on with the expressions of the program, in order.
    pub fn interpret_program<'p>(&self, program: &'p Program, env: usize, m: &mut Machine<'p>)
        requires
            old(m).wf(),
        ensures
            final(m).wf(),
            final(m)@ == old(m)@.push_frame(Frame::Sequence { exprs: program, next: 0, env }).at(
                State::Ready,
            ),
    {
        m.push_frame(Frame::Sequence { exprs: program, next: 0, env });
        let _ = m.go(State::Ready);
    }
}

/// The items that a `for`-`in` loop walks.
pub fn walk<'p>(c: Value<'p>) -> (r: Result<Vec<Value<'p>>, RuntimeError<'p>>)
    ensures
        match walked(c@) {
            Ok(items) => r is Ok && list_view(r->Ok_0@) == items,
            Err(e) => r is Err && r->Err_0@ == e,
        },
{
    match c {
        Value::Str(s) => {
            let chars = to_chars(s.as_str());
            let mut out: Vec<Value<'p>> = Vec::new();
            let mut i: usize = 0;
            while i < chars.len()
                invariant
                    i <= chars.len(),
                    out.len() == i,
                    forall|j: int| 0 <= j < i ==> out[j]@ == ValueModel::Str(seq![chars[j]]),
                decreases chars.len() - i,
            {
                let mut one: Vec<char> = Vec::new();
                one.push(chars[i]);
                assert(one@ =~= seq![chars[i as int]]);
                out.push(Value::Str(from_chars(&one)));
                i += 1;
            }
            assert(list_view(out@) =~= Seq::new(s@.len(), |i: int| ValueModel::Str(seq![s@[i]])));
            Ok(out)
        },
        Value::List(items) => {
            proof {
                crate::value::lemma_list_view(items);
            }
            Ok(items)
        },
        Value::Mapping(entries) => {
            proof {
                crate::value::lemma_mapping_view(entries);
            }
            let ghost models = entries_view(entries@);
            let mut out: Vec<Value<'p>> = Vec::new();
            let mut i: usize = 0;
            while i < entries.len()
                invariant
                    i <= entries.len(),
                    out.len() == i,
                    models == entries_view(entries@),
                    forall|j: int| 0 <= j < i ==> out[j]@ == models[j].0,
                decreases entries.len() - i,
            {
                out.push(entries[i].0.duplicate());
                i += 1;
            }
            assert(list_view(out@) =~= Seq::new(models.len(), |i: int| models[i].0));
            Ok(out)
        },
        other => {
            let mut got: Vec<Type> = Vec::new();
            got.push(other.type_of());
            let mut expected: Vec<Type> = Vec::new();
            expected.push(Type::Str);
            expected.push(Type::List(Box::new(Type::Unit)));
            expected.push(Type::Mapping(Box::new(Type::Unit), Box::new(Type::Unit)));
            let e = RuntimeError::MismatchedTypes { got, expected };
            assert(e@->MismatchedTypes_got =~= seq![type_of(other@)]);
            assert(e@->MismatchedTypes_expected =~= seq![
                TypeModel::Str,
                TypeModel::List(Box::new(TypeModel::Unit)),
                TypeModel::Mapping(Box::new(TypeModel::Unit), Box::new(TypeModel::Unit)),
            ]);
            Err(e)
        },
    }
}

impl Interpreter {
    /// Defines a function: the value that it is, with the scope `env` as
    /// the one that it owns.
    pub fn interpret_function_definition<'p>(
        &self,
        args: &'p Vec<Declaration>,
        ret: &'p Type,
        body: &'p Vec<Expr>,
        env: usize,
    ) -> (r: Value<'p>)
        ensures
            r@ == ValueModel::Func(Func::Declared { decls: args, ret, body, env }),
    {
        Value::Func(Func::Declared { decls: args, ret, body, env })
    }

    /// Starts the rounds of a `for`-`in` loop, after its declarations.
    pub fn for_in_start<'p>(&self, owner: &'p Expr, env: usize, m: &mut Machine<'p>) -> (a: Action<
        'p,
    >)
        requires
            old(m).wf(),
        ensures
            final(m).wf(),
            (final(m)@, a@) == for_in_start(old(m)@, owner, env),
    {
        let first = match var_at(owner, 0) {
            Some(first) => first,
            None => {
                return m.fail(RuntimeError::NotImplemented);
            },
        };
        if m.depth() == 0 {
            return m.fail(RuntimeError::NotImplemented);
        }
        if !first.is_var() {
            return m.fail(RuntimeError::ForInFirstDeclMustBeVar);
        }
        let collection = m.peek(0).duplicate();
        match walk(collection) {
            Err(e) => m.fail(e),
            Ok(items) => {
                m.drop_values(1);
                let list = Value::List(items);
                proof {
                    crate::value::lemma_list_view(list->List_0);
                }
                m.push_value(list);
                m.push_value(Value::Unit);
                m.push_frame(Frame::ForIn { expr: owner, env, next: 0 });
                m.go(State::Ready)
            },
        }
    }

    /// Starts the round `next` of a `for`-`in` loop, or ends the loop.
    pub fn for_in_next<'p>(&self, expr: &'p Expr, env: usize, next: usize, m: &mut Machine<'p>)
        -> (a: Action<'p>)
        requires
            old(m).wf(),
        ensures
            final(m).wf(),
            (final(m)@, a@) == for_in_next(old(m)@, expr, env, next),
    {
        if m.depth() < 2 {
            return m.fail(RuntimeError::NotImplemented);
        }
        let (body, first) = match (expr, var_at(expr, 0)) {
            (Expr::ForIn { body, .. }, Some(first)) => (body, first),
            _ => {
                return m.fail(RuntimeError::NotImplemented);
            },
        };
        let item = match m.peek(1) {
            Value::List(items) => {
                proof {
                    crate::value::lemma_list_view(*items);
                }
                if next < items.len() {
                    Some(items[next].duplicate())
                } else {
                    None
                }
            },
            _ => {
                return m.fail(RuntimeError::NotImplemented);
            },
        };
        match item {
            Some(item) => {
                match m.assign(env, &first.decl().name, item, false) {
                    Err(e) => m.fail(e),
                    Ok(_) => {
                        m.push_frame(Frame::ForIn { expr, env, next: next + 1 });
                        m.push_frame(Frame::Sequence { exprs: body, next: 0, env });
                        m.go(State::Ready)
                    },
                }
            },
            None => {
                let last = m.peek(0).duplicate();
                m.drop_values(2);
                m.give(last)
            },
        }
    }

    /// Goes on after the declarations of `owner`.
    pub fn after_vars<'p>(&self, owner: &'p Expr, env: usize, m: &mut Machine<'p>) -> (a: Action<
        'p,
    >)
        requires
            old(m).wf(),
        ensures
            final(m).wf(),
            (final(m)@, a@) == after_vars(old(m)@, owner, env),
    {
        match owner {
            Expr::FunctionDefinition { args, ret, body } => {
                let f = self.interpret_function_definition(args, ret, body, env);
                m.give(f)
            },
            Expr::If { condition, .. } => {
                m.push_frame(Frame::IfCond { expr: owner, env });
                m.go(State::Eval { expr: &**condition, env })
            },
            Expr::For { body, .. } => {
                m.push_frame(Frame::Loop { expr: owner, env });
                m.push_frame(Frame::Sequence { exprs: body, next: 0, env });
                m.go(State::Ready)
            },
            Expr::ForWhile { condition, .. } => {
                m.push_value(Value::Unit);
                m.push_frame(Frame::WhileCond { expr: owner, env });
                m.go(State::Eval { expr: &**condition, env })
            },
            Expr::ForIn { .. } => self.for_in_start(owner, env, m),
            _ => m.fail(RuntimeError::NotImplemented),
        }
    }

    /// Goes on with `frame`, which was the topmost frame before.
    pub fn ready<'p>(&self, frame: Frame<'p>, m: &mut Machine<'p>) -> (a: Action<'p>)
        requires
            old(m).wf(),
        ensures
            final(m).wf(),
            (final(m)@, a@) == ready(old(m)@, frame),
    {
        match frame {
            Frame::Sequence { exprs, next, env } => {
                if next < exprs.len() {
                    m.push_frame(Frame::Sequence { exprs, next: next + 1, env });
                    m.go(State::Eval { expr: &exprs[next], env })
                } else {
                    m.give(Value::Unit)
                }
            },
            Frame::Vars { owner, next, env } => {
                match var_at(owner, next) {
                    Some(decl) => {
                        m.push_frame(Frame::Vars { owner, next: next + 1, env });
                        m.go(State::Declare { decl, env })
                    },
                    None => self.after_vars(owner, env, m),
                }
            },
            Frame::ForIn { expr, env, next } => self.for_in_next(expr, env, next, m),
            Frame::CastItems { ty, next } => {
                if m.depth() <= next {
                    return m.fail(RuntimeError::NotImplemented);
                }
                let item = match m.peek(next) {
                    Value::List(items) => {
                        proof {
                            crate::value::lemma_list_view(*items);
                        }
                        if next < items.len() {
                            Some(items[next].duplicate())
                        } else {
                            None
                        }
                    },
                    _ => {
                        return m.fail(RuntimeError::NotImplemented);
                    },
                };
                match item {
                    Some(item) => {
                        m.push_frame(frame);
                        m.push_value(item);
                        m.go(State::Cast { ty })
                    },
                    None => {
                        let ghost before = m@;
                        let items = m.take_values(next);
                        m.drop_values(1);
                        proof {
                            assert(before.drop_values(next as int).drop_values(1).values
                                =~= before.drop_values(next + 1).values);
                        }
                        let list = Value::List(items);
                        proof {
                            crate::value::lemma_list_view(list->List_0);
                        }
                        m.give(list)
                    },
                }
            },
            Frame::CastEntries { key, value, next } => {
                if m.depth() <= next {
                    return m.fail(RuntimeError::NotImplemented);
                }
                let item = match m.peek(next) {
                    Value::Mapping(entries) => {
                        proof {
                            crate::value::lemma_mapping_view(*entries);
                        }
                        if next / 2 < entries.len() {
                            if next % 2 == 0 {
                                Some(entries[next / 2].0.duplicate())
                            } else {
                                Some(entries[next / 2].1.duplicate())
                            }
                        } else {
                            None
                        }
                    },
                    _ => {
                        return m.fail(RuntimeError::NotImplemented);
                    },
                };
                match item {
                    Some(item) => {
                        m.push_frame(frame);
                        m.push_value(item);
                        m.go(
                            State::Cast {
                                ty: if next % 2 == 0 {
                                    key
                                } else {
                                    value
                                },
                            },
                        )
                    },
                    None => {
                        let ghost before = m@;
                        let flat = m.take_values(next);
                        m.drop_values(1);
                        proof {
                            assert(before.drop_values(next as int).drop_values(1).values
                                =~= before.drop_values(next + 1).values);
                        }
                        let r = self.pair_up(flat);
                        m.give(r)
                    },
                }
            },
            _ => m.fail(RuntimeError::NotImplemented),
        }
    }

    /// The map of the entries made of keys and values by turns.
    pub fn pair_up<'p>(&self, flat: Vec<Value<'p>>) -> (r: Value<'p>)
        ensures
            r@ == ValueModel::Mapping(paired(list_view(flat@))),
    {
        let ghost values = list_view(flat@);
        let mut entries: Vec<(Value<'p>, Value<'p>)> = Vec::new();
        let pairs = flat.len() / 2;
        let mut i: usize = 0;
        assert(entries_view(entries@) =~= paired_upto(values, 0));
        while i < pairs
            invariant
                i <= pairs,
                pairs == flat.len() / 2,
                values == list_view(flat@),
                entries_view(entries@) == paired_upto(values, i as int),
            decreases pairs - i,
        {
            let k = flat[2 * i].duplicate();
            let v = flat[2 * i + 1].duplicate();
            operators::put_entry(&mut entries, k, v);
            i += 1;
        }
        let result = Value::Mapping(entries);
        proof {
            crate::value::lemma_mapping_view(result->Mapping_0);
        }
        result
    }
}

impl Interpreter {
    /// Hands the value `v` to `frame`; both were topmost before.
    pub fn deliver<'p>(&self, frame: Frame<'p>, v: Value<'p>, m: &mut Machine<'p>) -> (a: Action<
        'p,
    >)
        requires
            old(m).wf(),
        ensures
            final(m).wf(),
            (final(m)@, a@) == deliver(old(m)@, frame, v@),
    {
        match frame {
            Frame::Sequence { exprs, next, env } => {
                if v.is_break() || next >= exprs.len() {
                    m.give(v)
                } else {
                    self.ready(frame, m)
                }
            },
            Frame::Unbreak => m.give(v.into_unbroken()),
            Frame::Close { env } => {
                m.close_scope(env);
                m.give(v)
            },
            Frame::Operands { expr, env, count } => {
                if count < usize::MAX {
                    m.push_value(v);
                    self.operands_ready(expr, env, count + 1, m)
                } else {
                    m.fail(RuntimeError::NotImplemented)
                }
            },
            Frame::Declare { decl, env } => self.bind(decl, env, v, true, m),
            Frame::Vars { .. } => self.ready(frame, m),
            Frame::IfCond { expr, env } => match expr {
                Expr::If { when_true, when_false, .. } => match operators::as_bool(&v) {
                    Ok(true) => m.go(State::Eval { expr: &**when_true, env }),
                    Ok(false) => match when_false {
                        Some(e) => m.go(State::Eval { expr: &**e, env }),
                        None => m.give(Value::Unit),
                    },
                    Err(e) => m.fail(e),
                },
                _ => m.fail(RuntimeError::NotImplemented),
            },
            Frame::Loop { expr, env } => match expr {
                Expr::For { body, .. } => {
                    if v.is_break() {
                        m.give(v.into_unbroken())
                    } else {
                        m.push_frame(frame);
                        m.push_frame(Frame::Sequence { exprs: body, next: 0, env });
                        m.go(State::Ready)
                    }
                },
                _ => m.fail(RuntimeError::NotImplemented),
            },
            Frame::WhileCond { expr, env } => match expr {
                Expr::ForWhile { body, .. } => {
                    if m.depth() < 1 {
                        return m.fail(RuntimeError::NotImplemented);
                    }
                    match operators::as_bool(&v) {
                        Ok(true) => {
                            m.push_frame(Frame::WhileBody { expr, env });
                            m.push_frame(Frame::Sequence { exprs: body, next: 0, env });
                            m.go(State::Ready)
                        },
                        Ok(false) => m.go(State::Return),
                        Err(e) => m.fail(e),
                    }
                },
                _ => m.fail(RuntimeError::NotImplemented),
            },
            Frame::WhileBody { expr, env } => match expr {
                Expr::ForWhile { condition, .. } => {
                    if m.depth() < 1 {
                        return m.fail(RuntimeError::NotImplemented);
                    }
                    m.drop_values(1);
                    if v.is_break() {
                        m.give(v.into_unbroken())
                    } else {
                        m.push_value(v);
                        m.push_frame(Frame::WhileCond { expr, env });
                        m.go(State::Eval { expr: &**condition, env })
                    }
                },
                _ => m.fail(RuntimeError::NotImplemented),
            },
            Frame::ForIn { expr, env, next } => {
                if m.depth() < 2 {
                    return m.fail(RuntimeError::NotImplemented);
                }
                if v.is_break() {
                    m.drop_values(2);
                    m.give(v.into_unbroken())
                } else {
                    m.drop_values(1);
                    m.push_value(v);
                    self.for_in_next(expr, env, next, m)
                }
            },
            Frame::AssignValue { assignment, env } => {
                if m.depth() < 1 {
                    return m.fail(RuntimeError::NotImplemented);
                }
                let current = m.peek(0).duplicate();
                let o = self.assignment_operator(assignment.op, current, v, m.env());
                m.push_frame(Frame::AssignResult { assignment, env });
                self.follow(o, m)
            },
            Frame::AssignResult { assignment, env } => {
                if m.depth() < 1 {
                    return m.fail(RuntimeError::NotImplemented);
                }
                match &assignment.index {
                    Some(index) => {
                        m.push_value(v);
                        m.push_frame(Frame::AssignIndex { assignment, env });
                        m.go(State::Eval { expr: &**index, env })
                    },
                    None => {
                        m.drop_values(1);
                        self.store(&assignment.name, env, v, m)
                    },
                }
            },
            Frame::AssignIndex { assignment, env } => {
                if m.depth() < 2 {
                    return m.fail(RuntimeError::NotImplemented);
                }
                let collection = m.peek(1).duplicate();
                let element = m.peek(0).duplicate();
                let r = self.set_index(collection, v, element, m.env());
                match r {
                    Err(e) => m.fail(e),
                    Ok(c) => {
                        m.drop_values(2);
                        self.store(&assignment.name, env, c, m)
                    },
                }
            },
            Frame::CastItems { ty, next } => {
                if next < usize::MAX {
                    m.push_value(v);
                    self.ready(Frame::CastItems { ty, next: next + 1 }, m)
                } else {
                    m.fail(RuntimeError::NotImplemented)
                }
            },
            Frame::CastEntries { key, value, next } => {
                if next < usize::MAX {
                    m.push_value(v);
                    self.ready(Frame::CastEntries { key, value, next: next + 1 }, m)
                } else {
                    m.fail(RuntimeError::NotImplemented)
                }
            },
        }
    }

    /// One step of the machine: what it comes to is what [`transition`]
    /// says.
    pub fn step<'p>(&self, m: &mut Machine<'p>, event: Event) -> (a: Action<'p>)
        requires
            old(m).wf(),
        ensures
            final(m).wf(),
            (final(m)@, a@) == transition(old(m)@, event@),
    {
        match m.state() {
            State::Idle => Action::Idle,
            State::Waiting(pending) => self.resume(pending, event, m),
            State::Eval { expr, env } => self.interpret_expr(expr, env, m),
            State::Declare { decl, env } => self.interpret_declaration(decl, env, m),
            State::Cast { ty } => match m.pop_value() {
                Some(v) => self.cast_to_type(v, ty, m),
                None => m.fail(RuntimeError::NotImplemented),
            },
            State::Ready => match m.pop_frame() {
                Some(frame) => self.ready(frame, m),
                None => m.fail(RuntimeError::NotImplemented),
            },
            State::Return => {
                if m.depth() < 1 {
                    return m.fail(RuntimeError::NotImplemented);
                }
                match m.pop_frame() {
                    None => m.finish(),
                    Some(frame) => match m.pop_value() {
                        Some(v) => self.deliver(frame, v, m),
                        None => m.fail(RuntimeError::NotImplemented),
                    },
                }
            },
        }
    }

    /// Steps the machine until it asks for something other than a further
    /// step, but `fuel` times at most after the first step.
    pub fn run<'p>(&self, m: &mut Machine<'p>, event: Event, fuel: u64) -> (a: Action<'p>)
        requires
            old(m).wf(),
        ensures
            final(m).wf(),
            (final(m)@, a@) == many_steps(old(m)@, event@, fuel as nat),
    {
        let mut action = self.step(m, event);
        let mut left = fuel;
        while left > 0 && is_continue(&action)
            invariant
                m.wf(),
                many_steps(old(m)@, event@, fuel as nat) == if action@ is Continue && left > 0 {
                    many_steps(m@, EventModel::Step, (left - 1) as nat)
                } else {
                    (m@, action@)
                },
            decreases left,
        {
            left = left - 1;
            action = self.step(m, Event::Step);
        }
        action
    }
}

/// Whether the action asks for a further step.
pub fn is_continue<'p>(action: &Action<'p>) -> (r: bool)
    ensures
        r == (action@ is Continue),
{
    match action {
        Action::Continue => true,
        _ => false,
    }
}

/// What the machine comes to when it is stepped until it asks for something
/// other than a further step, but `fuel` times at most after the first
/// step: the first step takes the answer `event`.
pub open spec fn many_steps<'p>(m: MachineModel<'p>, event: EventModel, fuel: nat) -> (
    MachineModel<'p>,
    ActionModel<'p>,
)
    decreases fuel,
{
    let (next, action) = transition(m, event);
    if action is Continue && fuel > 0 {
        many_steps(next, EventModel::Step, (fuel - 1) as nat)
    } else {
        (next, action)
    }
}

/// A difference in a prefix of the types is the first difference in all of
/// them.
pub proof fn lemma_first_other_prefix(types: Seq<TypeModel>, n: int)
    requires
        0 <= n <= types.len(),
        first_other(types.take(n)) is Some,
    ensures
        first_other(types) == first_other(types.take(n)),
    decreases types.len() - n,
{
    if n < types.len() {
        assert(types.take(n + 1).drop_last() =~= types.take(n));
        lemma_first_other_prefix(types, n + 1);
    } else {
        assert(types.take(n) =~= types);
    }
}

} // verus!
