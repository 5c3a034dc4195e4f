//! The state of an evaluation, and what passes between it and its driver.
//!
//! An evaluation is a machine that is stepped. Whatever only the outside
//! can do (writing, reading, arithmetic on decimals) the machine asks for
//! with an [`Action`], and the driver answers with an [`Event`].

use vstd::prelude::*;
use crate::ast::{Assignment, Declaration, Expr};
use crate::builtin::{pieces_view, Piece, PieceModel};
use crate::dec::{Dec, DecRequest};
use crate::env::{
    assigned, closed, declared_binding, lookup, Constness, EntryModel, Env, ScopeModel,
    ValueEntry,
};
use crate::error::{ErrorModel, RuntimeError};
use crate::types::Type;
use crate::value::unbroken;
use crate::value::{list_view, Value, ValueModel};

verus! {

/// The answer that a machine waits for.
#[derive(Debug, Clone, Copy)]
pub enum Pending<'p> {
    /// That the output was written.
    Written,
    /// The character that was read.
    Char,
    /// The line that was read.
    Line,
    /// All that was read.
    All,
    /// A decimal.
    Dec,
    /// An integer.
    Int,
    /// A text.
    Text,
    /// The decimal that the string on top of the values was read as, in a
    /// cast to `ty`.
    Parsed { ty: &'p Type },
}

/// What a machine does next.
#[derive(Debug, Clone, Copy)]
pub enum State<'p> {
    /// Nothing: no evaluation is under way.
    Idle,
    /// It evaluates `expr` in the scope `env`.
    Eval { expr: &'p Expr, env: usize },
    /// It evaluates `decl` in the scope `env`.
    Declare { decl: &'p Declaration, env: usize },
    /// It goes on with the topmost frame.
    Ready,
    /// It hands the topmost value to the topmost frame.
    Return,
    /// It casts the topmost value to `ty`.
    Cast { ty: &'p Type },
    /// It waits for an answer.
    Waiting(Pending<'p>),
}

/// What is left to do once a value is there: one entry of the stack of an
/// evaluation.
#[derive(Debug, Clone, Copy)]
pub enum Frame<'p> {
    /// The expressions of `exprs` from `next` on, in the scope `env`.
    Sequence { exprs: &'p Vec<Expr>, next: usize, env: usize },
    /// To take the break wrapper off the value.
    Unbreak,
    /// To close the scope `env`, which was opened for what the value is the
    /// value of.
    Close { env: usize },
    /// The operands of `expr` from `count` on, in the scope `env`, and then
    /// `expr` itself; the values of the operands before are the topmost
    /// values.
    Operands { expr: &'p Expr, env: usize, count: usize },
    /// To bind the name of `decl` to the value, in the scope `env`.
    Declare { decl: &'p Declaration, env: usize },
    /// The declarations of `owner` from `next` on, in the scope `env`, and
    /// then what follows them in `owner`.
    Vars { owner: &'p Expr, next: usize, env: usize },
    /// To choose the branch of the conditional `expr` by the value.
    IfCond { expr: &'p Expr, env: usize },
    /// To go round the loop `expr` once more, unless the value breaks it.
    Loop { expr: &'p Expr, env: usize },
    /// To go round the loop `expr` if the value is true; the topmost value
    /// is the last value of its body.
    WhileCond { expr: &'p Expr, env: usize },
    /// To test the condition of the loop `expr` again, unless the value
    /// breaks it.
    WhileBody { expr: &'p Expr, env: usize },
    /// To go round the loop `expr` with the item `next`; under the topmost
    /// value, which is the last value of its body, lies the list of items.
    ForIn { expr: &'p Expr, env: usize, next: usize },
    /// To apply the operator of `assignment` to the topmost value, which
    /// is the one that the name has, and the value.
    AssignValue { assignment: &'p Assignment, env: usize },
    /// To assign the value, or to go on to the index of `assignment`.
    AssignResult { assignment: &'p Assignment, env: usize },
    /// To assign the topmost value to the place in the collection under
    /// it that the value names.
    AssignIndex { assignment: &'p Assignment, env: usize },
    /// To cast the items from `next` on of the list that lies under the
    /// `next` topmost values.
    CastItems { ty: &'p Type, next: usize },
    /// To cast the keys and values from `next` on of the map that lies
    /// under the `next` topmost values.
    CastEntries { key: &'p Type, value: &'p Type, next: usize },
}

/// What a machine asks of its driver.
#[derive(Debug)]
pub enum Action<'p> {
    /// To step it again.
    Continue,
    /// Nothing: no evaluation is under way.
    Idle,
    /// To write the pieces, and to answer with [`Event::Written`].
    Print(Vec<Piece>),
    /// To read one character, and to answer with [`Event::Char`].
    ReadChar,
    /// To read one line, and to answer with [`Event::Line`].
    ReadLine,
    /// To read all of the input, and to answer with [`Event::All`].
    ReadAll,
    /// To compute, and to answer with [`Event::Dec`], [`Event::Int`] or
    /// [`Event::Text`].
    Compute(DecRequest),
    /// To read the text as a decimal, and to answer with [`Event::Dec`], or
    /// with [`Event::NoDec`] where it is none.
    ParseDec(String),
    /// Nothing more: the evaluation ended with this value.
    Finished(Value<'p>),
    /// Nothing more: the evaluation ended with this error.
    Failed(RuntimeError<'p>),
}

/// What a driver tells a machine.
#[derive(Debug)]
pub enum Event {
    /// Nothing.
    Step,
    /// The output was written.
    Written,
    /// The character that was read, if there was one.
    Char(Option<char>),
    /// The line that was read, or the name of the kind of the failure.
    Line(Result<String, String>),
    /// All that was read.
    All(String),
    /// The decimal that was computed.
    Dec(Dec),
    /// The integer that was computed.
    Int(i64),
    /// The text that was computed.
    Text(String),
    /// The text was no decimal.
    NoDec,
}

/// The mathematical value of an [`Action`].
pub ghost enum ActionModel<'p> {
    Continue,
    Idle,
    Print(Seq<PieceModel>),
    ReadChar,
    ReadLine,
    ReadAll,
    Compute(DecRequest),
    ParseDec(Seq<char>),
    Finished(ValueModel<'p>),
    Failed(ErrorModel<'p>),
}

/// The mathematical value of an [`Event`].
pub ghost enum EventModel {
    Step,
    Written,
    Char(Option<char>),
    Line(Result<Seq<char>, Seq<char>>),
    All(Seq<char>),
    Dec(Dec),
    Int(i64),
    Text(Seq<char>),
    NoDec,
}

impl<'p> View for Action<'p> {
    type V = ActionModel<'p>;

    open spec fn view(&self) -> ActionModel<'p> {
        match self {
            Action::Continue => ActionModel::Continue,
            Action::Idle => ActionModel::Idle,
            Action::Print(pieces) => ActionModel::Print(pieces_view(pieces@)),
            Action::ReadChar => ActionModel::ReadChar,
            Action::ReadLine => ActionModel::ReadLine,
            Action::ReadAll => ActionModel::ReadAll,
            Action::Compute(request) => ActionModel::Compute(*request),
            Action::ParseDec(text) => ActionModel::ParseDec(text@),
            Action::Finished(v) => ActionModel::Finished(v@),
            Action::Failed(e) => ActionModel::Failed(e@),
        }
    }
}

impl View for Event {
    type V = EventModel;

    open spec fn view(&self) -> EventModel {
        match self {
            Event::Step => EventModel::Step,
            Event::Written => EventModel::Written,
            Event::Char(c) => EventModel::Char(*c),
            Event::Line(Ok(line)) => EventModel::Line(Ok(line@)),
            Event::Line(Err(kind)) => EventModel::Line(Err(kind@)),
            Event::All(text) => EventModel::All(text@),
            Event::Dec(d) => EventModel::Dec(*d),
            Event::Int(i) => EventModel::Int(*i),
            Event::Text(text) => EventModel::Text(text@),
            Event::NoDec => EventModel::NoDec,
        }
    }
}

/// The mathematical value of a machine: the environment, the frames and the
/// values, each stack with its top last, and what the machine does next.
pub ghost struct MachineModel<'p> {
    pub env: Seq<ScopeModel<'p>>,
    pub frames: Seq<Frame<'p>>,
    pub values: Seq<ValueModel<'p>>,
    pub state: State<'p>,
}

/// A machine after a step, and what it asks for.
pub type Step<'p> = (MachineModel<'p>, ActionModel<'p>);

impl<'p> MachineModel<'p> {
    /// The machine with another state.
    pub open spec fn at(self, state: State<'p>) -> MachineModel<'p> {
        MachineModel { env: self.env, frames: self.frames, values: self.values, state }
    }

    /// The machine with another environment.
    pub open spec fn in_env(self, env: Seq<ScopeModel<'p>>) -> MachineModel<'p> {
        MachineModel { env, frames: self.frames, values: self.values, state: self.state }
    }

    /// The machine with one more frame.
    pub open spec fn push_frame(self, frame: Frame<'p>) -> MachineModel<'p> {
        MachineModel {
            env: self.env,
            frames: self.frames.push(frame),
            values: self.values,
            state: self.state,
        }
    }

    /// The machine without its topmost frame.
    pub open spec fn pop_frame(self) -> MachineModel<'p> {
        MachineModel {
            env: self.env,
            frames: self.frames.drop_last(),
            values: self.values,
            state: self.state,
        }
    }

    /// The machine with one more value.
    pub open spec fn push_value(self, v: ValueModel<'p>) -> MachineModel<'p> {
        MachineModel {
            env: self.env,
            frames: self.frames,
            values: self.values.push(v),
            state: self.state,
        }
    }

    /// The machine without its `n` topmost values.
    pub open spec fn drop_values(self, n: int) -> MachineModel<'p> {
        MachineModel {
            env: self.env,
            frames: self.frames,
            values: self.values.take(self.values.len() - n),
            state: self.state,
        }
    }

    /// The value that lies under `depth` others.
    pub open spec fn top(self, depth: int) -> ValueModel<'p> {
        self.values[self.values.len() - 1 - depth]
    }

    /// The `n` topmost values, the topmost last.
    pub open spec fn top_values(self, n: int) -> Seq<ValueModel<'p>> {
        self.values.subrange(self.values.len() - n, self.values.len() as int)
    }

    /// The machine with a new, empty scope inside `parent`; the index of the
    /// new scope is the number of scopes before.
    pub open spec fn open_scope(self, parent: usize) -> MachineModel<'p> {
        self.in_env(
            self.env.push(
                ScopeModel {
                    parent: if parent < self.env.len() {
                        Some(parent as int)
                    } else {
                        None
                    },
                    vars: Map::empty(),
                },
            ),
        )
    }

    /// The machine after the scope `scope` was closed.
    pub open spec fn close_scope(self, scope: usize) -> MachineModel<'p> {
        self.in_env(closed(self.env, scope as int))
    }

    /// The step that goes on in another state.
    pub open spec fn go(self, state: State<'p>) -> Step<'p> {
        (self.at(state), ActionModel::Continue)
    }

    /// The step that yields a value to the topmost frame.
    pub open spec fn give(self, v: ValueModel<'p>) -> Step<'p> {
        self.push_value(v).go(State::Return)
    }

    /// The step that ends the evaluation with an error: the frames and the
    /// values are dropped, the environment stays as it is.
    pub open spec fn fail(self, e: ErrorModel<'p>) -> Step<'p> {
        (
            MachineModel {
                env: self.env,
                frames: Seq::empty(),
                values: Seq::empty(),
                state: State::Idle,
            },
            ActionModel::Failed(e),
        )
    }

    /// The step that yields a value, or ends the evaluation with an error.
    pub open spec fn settle(self, r: Result<ValueModel<'p>, ErrorModel<'p>>) -> Step<'p> {
        match r {
            Ok(v) => self.give(v),
            Err(e) => self.fail(e),
        }
    }

    /// The step that asks for `action` and waits for its answer.
    pub open spec fn ask(self, pending: Pending<'p>, action: ActionModel<'p>) -> Step<'p> {
        (self.at(State::Waiting(pending)), action)
    }
}

/// A machine.
#[derive(Debug)]
pub struct Machine<'p> {
    env: Env<'p>,
    frames: Vec<Frame<'p>>,
    values: Vec<Value<'p>>,
    state: State<'p>,
}

impl<'p> View for Machine<'p> {
    type V = MachineModel<'p>;

    closed spec fn view(&self) -> MachineModel<'p> {
        MachineModel {
            env: self.env@,
            frames: self.frames@,
            values: list_view(self.values@),
            state: self.state,
        }
    }
}

impl<'p> Machine<'p> {
    /// The environment of the machine is well formed.
    pub closed spec fn wf(&self) -> bool {
        self.env.wf()
    }

    /// A machine that evaluates nothing, with `env` as its environment.
    pub fn new(env: Env<'p>) -> (r: Machine<'p>)
        requires
            env.wf(),
        ensures
            r.wf(),
            r@ == (MachineModel {
                env: env@,
                frames: Seq::empty(),
                values: Seq::empty(),
                state: State::Idle,
            }),
    {
        let r = Machine { env, frames: Vec::new(), values: Vec::new(), state: State::Idle };
        assert(list_view(r.values@) =~= Seq::empty());
        r
    }

    /// The environment.
    pub fn env(&self) -> (r: &Env<'p>)
        requires
            self.wf(),
        ensures
            r.wf(),
            r@ == self@.env,
    {
        &self.env
    }

    /// What the machine does next.
    pub fn state(&self) -> (r: State<'p>)
        ensures
            r == self@.state,
    {
        self.state
    }

    /// Goes on in another state.
    pub(crate) fn go(&mut self, state: State<'p>) -> (a: Action<'p>)
        requires
            old(self).wf(),
        ensures
            final(self).wf(),
            (final(self)@, a@) == old(self)@.go(state),
    {
        self.state = state;
        Action::Continue
    }

    /// Yields a value to the topmost frame.
    pub(crate) fn give(&mut self, v: Value<'p>) -> (a: Action<'p>)
        requires
            old(self).wf(),
        ensures
            final(self).wf(),
            (final(self)@, a@) == old(self)@.give(v@),
    {
        self.values.push(v);
        self.state = State::Return;
        assert(list_view(self.values@) =~= list_view(old(self).values@).push(v@));
        Action::Continue
    }

    /// Ends the evaluation with an error.
    pub(crate) fn fail(&mut self, e: RuntimeError<'p>) -> (a: Action<'p>)
        requires
            old(self).wf(),
        ensures
            final(self).wf(),
            (final(self)@, a@) == old(self)@.fail(e@),
    {
        self.frames.clear();
        self.values.clear();
        self.state = State::Idle;
        assert(list_view(self.values@) =~= Seq::empty());
        assert(self.frames@ =~= Seq::empty());
        Action::Failed(e)
    }

    /// Yields a value, or ends the evaluation with an error.
    pub(crate) fn settle(&mut self, r: Result<Value<'p>, RuntimeError<'p>>) -> (a: Action<'p>)
        requires
            old(self).wf(),
        ensures
            final(self).wf(),
            (final(self)@, a@) == old(self)@.settle(crate::error::result_view(r)),
    {
        match r {
            Ok(v) => self.give(v),
            Err(e) => self.fail(e),
        }
    }

    /// Asks for `action` and waits for its answer.
    pub(crate) fn ask(&mut self, pending: Pending<'p>, action: Action<'p>) -> (a: Action<'p>)
        requires
            old(self).wf(),
        ensures
            final(self).wf(),
            (final(self)@, a@) == old(self)@.ask(pending, action@),
    {
        self.state = State::Waiting(pending);
        action
    }

    /// Puts a frame on top of the frames.
    pub(crate) fn push_frame(&mut self, frame: Frame<'p>)
        requires
            old(self).wf(),
        ensures
            final(self).wf(),
            final(self)@ == old(self)@.push_frame(frame),
    {
        self.frames.push(frame);
    }

    /// Takes the topmost frame off, if there is one.
    pub(crate) fn pop_frame(&mut self) -> (r: Option<Frame<'p>>)
        requires
            old(self).wf(),
        ensures
            final(self).wf(),
            match r {
                Some(frame) => old(self)@.frames.len() > 0 && frame == old(self)@.frames.last()
                    && final(self)@ == old(self)@.pop_frame(),
                None => old(self)@.frames.len() == 0 && final(self)@ == old(self)@,
            },
    {
        let r = self.frames.pop();
        proof {
            if r is Some {
                assert(self.frames@ =~= old(self).frames@.drop_last());
            }
        }
        r
    }

    /// Puts a value on top of the values.
    pub(crate) fn push_value(&mut self, v: Value<'p>)
        requires
            old(self).wf(),
        ensures
            final(self).wf(),
            final(self)@ == old(self)@.push_value(v@),
    {
        self.values.push(v);
        assert(list_view(self.values@) =~= list_view(old(self).values@).push(v@));
    }

    /// How many values there are.
    pub(crate) fn depth(&self) -> (n: usize)
        ensures
            n == self@.values.len(),
    {
        self.values.len()
    }

    /// Takes the topmost value off, if there is one.
    pub(crate) fn pop_value(&mut self) -> (r: Option<Value<'p>>)
        requires
            old(self).wf(),
        ensures
            final(self).wf(),
            match r {
                Some(v) => old(self)@.values.len() > 0 && v@ == old(self)@.top(0) && final(self)@
                    == old(self)@.drop_values(1),
                None => old(self)@.values.len() == 0 && final(self)@ == old(self)@,
            },
    {
        let r = self.values.pop();
        proof {
            if r is Some {
                assert(list_view(self.values@) =~= list_view(old(self).values@).take(
                    old(self).values@.len() - 1,
                ));
            }
        }
        r
    }

    /// Takes the `n` topmost values off: the topmost comes last.
    pub(crate) fn take_values(&mut self, n: usize) -> (r: Vec<Value<'p>>)
        requires
            old(self).wf(),
            n <= old(self)@.values.len(),
        ensures
            final(self).wf(),
            list_view(r@) == old(self)@.top_values(n as int),
            final(self)@ == old(self)@.drop_values(n as int),
    {
        let at = self.values.len() - n;
        let r = self.values.split_off(at);
        assert(list_view(r@) =~= list_view(old(self).values@).subrange(
            at as int,
            old(self).values@.len() as int,
        ));
        assert(list_view(self.values@) =~= list_view(old(self).values@).take(at as int));
        r
    }

    /// Takes the `n` topmost values off.
    pub(crate) fn drop_values(&mut self, n: usize)
        requires
            old(self).wf(),
            n <= old(self)@.values.len(),
        ensures
            final(self).wf(),
            final(self)@ == old(self)@.drop_values(n as int),
    {
        let at = self.values.len() - n;
        self.values.truncate(at);
        assert(list_view(self.values@) =~= list_view(old(self).values@).take(at as int));
    }

    /// The value that lies under `depth` others.
    pub(crate) fn peek(&self, depth: usize) -> (r: &Value<'p>)
        requires
            depth < self@.values.len(),
        ensures
            r@ == self@.top(depth as int),
    {
        &self.values[self.values.len() - 1 - depth]
    }

    /// Opens an empty scope inside `parent` and gives its index.
    pub(crate) fn open_scope(&mut self, parent: usize) -> (id: usize)
        requires
            old(self).wf(),
        ensures
            final(self).wf(),
            id == old(self)@.env.len(),
            final(self)@ == old(self)@.open_scope(parent),
    {
        self.env.extend(parent)
    }

    /// Closes the scope `scope`.
    pub(crate) fn close_scope(&mut self, scope: usize)
        requires
            old(self).wf(),
        ensures
            final(self).wf(),
            final(self)@ == old(self)@.close_scope(scope),
    {
        self.env.close(scope);
    }

    /// What `name` is bound to as seen from `scope`.
    pub(crate) fn find(&self, scope: usize, name: &String) -> (r: Result<
        ValueEntry<'p>,
        RuntimeError<'p>,
    >)
        requires
            self.wf(),
        ensures
            match lookup(self@.env, scope as int, name@) {
                Some(entry) => r is Ok && r->Ok_0@ == entry,
                None => r is Err && r->Err_0@ == ErrorModel::IdentifierNotFound(name@),
            },
    {
        self.env.get(scope, name.clone())
    }

    /// Assigns `value` to `name` as seen from `scope`.
    pub(crate) fn assign(&mut self, scope: usize, name: &String, value: Value<'p>, ignore: bool)
        -> (r: Result<Value<'p>, RuntimeError<'p>>)
        requires
            old(self).wf(),
        ensures
            final(self).wf(),
            match assigned(old(self)@.env, scope as int, name@, value@, ignore) {
                Ok(env) => final(self)@ == old(self)@.in_env(env) && r is Ok && r->Ok_0@ == value@,
                Err(e) => final(self)@ == old(self)@ && r is Err && r->Err_0@ == e,
            },
    {
        self.env.set(scope, name.clone(), value, ignore)
    }

    /// Binds the name that a declaration declares in `scope`.
    pub(crate) fn declare(
        &mut self,
        scope: usize,
        name: &String,
        value: Value<'p>,
        constness: Constness,
        declared: Type,
    ) -> (r: Result<Value<'p>, String>)
        requires
            old(self).wf(),
        ensures
            final(self).wf(),
            match declared_binding(
                old(self)@.env,
                scope as int,
                name@,
                EntryModel { v: value@, c: constness, t: declared@ },
            ) {
                Some(env) => final(self)@ == old(self)@.in_env(env) && r is Ok && r->Ok_0@
                    == value@,
                None => final(self)@ == old(self)@ && r is Err && r->Err_0@ == name@,
            },
    {
        self.env.declare(scope, name.clone(), value, constness, declared)
    }

    /// Ends the evaluation with its value, the topmost one.
    pub(crate) fn finish(&mut self) -> (a: Action<'p>)
        requires
            old(self).wf(),
            old(self)@.values.len() > 0,
        ensures
            final(self).wf(),
            (final(self)@, a@) == (
                MachineModel {
                    env: old(self)@.env,
                    frames: Seq::empty(),
                    values: Seq::empty(),
                    state: State::Idle,
                },
                ActionModel::Finished(old(self)@.top(0)),
            ),
    {
        let v = self.values.pop();
        self.frames.clear();
        self.values.clear();
        self.state = State::Idle;
        assert(list_view(self.values@) =~= Seq::empty());
        assert(self.frames@ =~= Seq::empty());
        match v {
            Some(v) => Action::Finished(v),
            None => Action::Idle,
        }
    }
}

} // verus!
