//! The lexical environment: every scope that evaluation has opened, each
//! with the bindings it owns and a link to the scope around it.

use vstd::prelude::*;
use crate::error::{ErrorModel, RuntimeError};
use crate::types::{Type, TypeModel};
use crate::value::{type_of, Builtin, Func, Value, ValueModel};

verus! {

/// Whether a binding may be assigned to after its definition.
#[derive(Debug, Clone, Copy, PartialEq, Eq, Structural)]
pub enum Constness {
    Const,
    Var,
}

/// What a name is bound to: its value, whether it may be assigned to, and
/// its declared type.
#[derive(Debug)]
pub struct ValueEntry<'p> {
    pub v: Value<'p>,
    pub c: Constness,
    pub t: Type,
}

/// The mathematical value of a [`ValueEntry`].
pub ghost struct EntryModel<'p> {
    pub v: ValueModel<'p>,
    pub c: Constness,
    pub t: TypeModel,
}

impl<'p> View for ValueEntry<'p> {
    type V = EntryModel<'p>;

    open spec fn view(&self) -> EntryModel<'p> {
        EntryModel { v: self.v@, c: self.c, t: self.t@ }
    }
}

impl<'p> ValueEntry<'p> {
    /// A copy of this entry.
    pub fn duplicate(&self) -> (r: ValueEntry<'p>)
        ensures
            r@ == self@,
    {
        ValueEntry { v: self.v.duplicate(), c: self.c, t: self.t.duplicate() }
    }
}

impl<'p> Clone for ValueEntry<'p> {
    fn clone(&self) -> (r: Self)
        ensures
            r@ == self@,
    {
        self.duplicate()
    }
}

/// The mathematical value of a scope: the scope around it, if any, and the
/// bindings it owns.
pub ghost struct ScopeModel<'p> {
    pub parent: Option<int>,
    pub vars: Map<Seq<char>, EntryModel<'p>>,
}

/// One scope.
#[derive(Debug)]
pub struct Scope<'p> {
    parent: Option<usize>,
    names: Vec<String>,
    entries: Vec<ValueEntry<'p>>,
}

/// The environment. A scope is named by its index; scope 0 is the root.
#[derive(Debug)]
pub struct Env<'p> {
    scopes: Vec<Scope<'p>>,
}

/// The scope that owns `name` as seen from `scope`: the scope itself if it
/// binds the name, else the nearest scope around it that does.
pub open spec fn owner_of(env: Seq<ScopeModel>, scope: int, name: Seq<char>) -> Option<int>
    decreases scope,
{
    if scope < 0 || scope >= env.len() {
        None
    } else if env[scope].vars.contains_key(name) {
        Some(scope)
    } else {
        match env[scope].parent {
            Some(p) => if 0 <= p < scope {
                owner_of(env, p, name)
            } else {
                None
            },
            None => None,
        }
    }
}

/// What `name` is bound to as seen from `scope`.
pub open spec fn lookup<'p>(env: Seq<ScopeModel<'p>>, scope: int, name: Seq<char>) -> Option<
    EntryModel<'p>,
> {
    match owner_of(env, scope, name) {
        Some(s) => Some(env[s].vars[name]),
        None => None,
    }
}

/// Every binding seen from `scope`: those of the scopes around it, with
/// those of nearer scopes in place of those of further ones.
pub open spec fn visible<'p>(env: Seq<ScopeModel<'p>>, scope: int) -> Map<
    Seq<char>,
    EntryModel<'p>,
>
    decreases scope,
{
    if scope < 0 || scope >= env.len() {
        Map::empty()
    } else {
        match env[scope].parent {
            Some(p) => if 0 <= p < scope {
                visible(env, p).union_prefer_right(env[scope].vars)
            } else {
                env[scope].vars
            },
            None => env[scope].vars,
        }
    }
}

/// The environment with `entry` bound to `name` in `scope`.
pub open spec fn with_binding<'p>(
    env: Seq<ScopeModel<'p>>,
    scope: int,
    name: Seq<char>,
    entry: EntryModel<'p>,
) -> Seq<ScopeModel<'p>> {
    env.update(
        scope,
        ScopeModel { parent: env[scope].parent, vars: env[scope].vars.insert(name, entry) },
    )
}

/// What the declaration of `name` in `scope` comes to: the environment with
/// the name bound there. In the root scope a name is declared once: the
/// declaration of a name that the root scope binds comes to nothing, as does
/// one in what is no scope.
pub open spec fn declared_binding<'p>(
    env: Seq<ScopeModel<'p>>,
    scope: int,
    name: Seq<char>,
    entry: EntryModel<'p>,
) -> Option<Seq<ScopeModel<'p>>> {
    if scope < 0 || scope >= env.len() {
        None
    } else if scope == 0 && env[0].vars.contains_key(name) {
        None
    } else {
        Some(with_binding(env, scope, name, entry))
    }
}

/// The environment after `scope` was closed: without that scope, where it
/// is the scope that was opened last and is not the root; else as it is.
pub open spec fn closed<'p>(env: Seq<ScopeModel<'p>>, scope: int) -> Seq<ScopeModel<'p>> {
    if 0 < scope && scope == env.len() - 1 {
        env.drop_last()
    } else {
        env
    }
}

/// The environment without the binding of `name` in `scope`.
pub open spec fn without_binding<'p>(env: Seq<ScopeModel<'p>>, scope: int, name: Seq<char>) -> Seq<
    ScopeModel<'p>,
> {
    env.update(scope, ScopeModel { parent: env[scope].parent, vars: env[scope].vars.remove(name) })
}

/// What an assignment of `value` to `name`, seen from `scope`, comes to.
///
/// It fails where no scope binds the name; where the binding is constant,
/// unless constness is to be ignored; and where the type of the value is
/// not the type that the binding has. Else the owning scope holds the value
/// under the name, with the constness it had.
pub open spec fn assigned<'p>(
    env: Seq<ScopeModel<'p>>,
    scope: int,
    name: Seq<char>,
    value: ValueModel<'p>,
    ignore_constness: bool,
) -> Result<Seq<ScopeModel<'p>>, ErrorModel<'p>> {
    match owner_of(env, scope, name) {
        None => Err(ErrorModel::IdentifierNotFound(name)),
        Some(s) => {
            let entry = env[s].vars[name];
            if entry.c == Constness::Const && !ignore_constness {
                Err(ErrorModel::SettingConst(name))
            } else if type_of(value) != entry.t {
                Err(
                    ErrorModel::MismatchedTypes {
                        got: seq![type_of(value)],
                        expected: seq![entry.t],
                    },
                )
            } else {
                Ok(with_binding(env, s, name, EntryModel { v: value, c: entry.c, t: entry.t }))
            }
        },
    }
}

impl<'p> Scope<'p> {
    /// No name is bound twice.
    pub closed spec fn wf(&self) -> bool {
        &&& self.names.len() == self.entries.len()
        &&& forall|i: int, j: int|
            0 <= i < j < self.names.len() ==> self.names[i]@ != self.names[j]@
    }

    /// Where `name` stands among the names, if it does.
    closed spec fn position(&self, name: Seq<char>) -> Option<int> {
        if exists|i: int| 0 <= i < self.names.len() && self.names[i]@ == name {
            Some(choose|i: int| 0 <= i < self.names.len() && self.names[i]@ == name)
        } else {
            None
        }
    }

    /// The bindings of this scope.
    closed spec fn vars(&self) -> Map<Seq<char>, EntryModel<'p>> {
        Map::new(
            |name: Seq<char>| self.position(name) is Some,
            |name: Seq<char>| self.entries[self.position(name)->0]@,
        )
    }

    proof fn lemma_position(&self, name: Seq<char>, i: int)
        requires
            self.wf(),
            0 <= i < self.names.len(),
            self.names[i]@ == name,
        ensures
            self.position(name) == Some(i),
            self.vars().contains_key(name),
            self.vars()[name] == self.entries[i]@,
    {
    }

    proof fn lemma_absent(&self, name: Seq<char>)
        requires
            forall|i: int| 0 <= i < self.names.len() ==> self.names[i]@ != name,
        ensures
            self.position(name) is None,
            !self.vars().contains_key(name),
    {
    }

    fn find(&self, name: &String) -> (r: Option<usize>)
        requires
            self.wf(),
        ensures
            match r {
                Some(i) => i < self.names.len() && self.names[i as int]@ == name@
                    && self.vars().contains_key(name@) && self.vars()[name@]
                    == self.entries[i as int]@,
                None => !self.vars().contains_key(name@) && forall|i: int|
                    0 <= i < self.names.len() ==> self.names[i]@ != name@,
            },
    {
        let mut i: usize = 0;
        while i < self.names.len()
            invariant
                i <= self.names.len(),
                self.wf(),
                forall|j: int| 0 <= j < i ==> self.names[j]@ != name@,
            decreases self.names.len() - i,
        {
            if self.names[i] == *name {
                proof {
                    self.lemma_position(name@, i as int);
                }
                return Some(i);
            }
            i += 1;
        }
        proof {
            self.lemma_absent(name@);
        }
        None
    }

    /// A scope with no binding and nothing around it.
    pub fn new() -> (r: Scope<'p>)
        ensures
            r.wf(),
            r@ == (ScopeModel { parent: None, vars: Map::empty() }),
    {
        let r = Scope { parent: None, names: Vec::new(), entries: Vec::new() };
        proof {
            r.lemma_absent(Seq::empty());
            assert(r.vars() =~= Map::empty());
        }
        r
    }

    /// How many names this scope binds.
    pub fn len(&self) -> (n: usize)
        requires
            self.wf(),
        ensures
            n == self.names().len(),
    {
        self.names.len()
    }

    /// The names that this scope binds, in the order in which they were
    /// first bound: no name stands twice, and they are the names of the
    /// bindings.
    pub closed spec fn names(&self) -> Seq<Seq<char>> {
        Seq::new(self.names.len() as nat, |i: int| self.names[i]@)
    }

    /// The names are those of the bindings, each once.
    pub proof fn lemma_names(&self)
        requires
            self.wf(),
        ensures
            self.names().no_duplicates(),
            forall|k: Seq<char>| self.names().contains(k) <==> self@.vars.contains_key(k),
    {
        assert forall|k: Seq<char>| self.names().contains(k) <==> self@.vars.contains_key(k) by {
            if self.names().contains(k) {
                let i = choose|i: int| 0 <= i < self.names().len() && self.names()[i] == k;
                self.lemma_position(k, i);
            }
            if self@.vars.contains_key(k) {
                let i = self.position(k)->0;
                assert(self.names()[i] == k);
            }
        }
    }

    /// The `i`-th name that this scope binds.
    pub fn name(&self, i: usize) -> (r: &String)
        requires
            self.wf(),
            i < self.names().len(),
        ensures
            r@ == self.names()[i as int],
    {
        &self.names[i]
    }

    /// What the `i`-th name is bound to.
    pub fn entry(&self, i: usize) -> (r: &ValueEntry<'p>)
        requires
            self.wf(),
            i < self.names().len(),
        ensures
            r@ == self@.vars[self.names()[i as int]],
    {
        proof {
            self.lemma_position(self.names[i as int]@, i as int);
        }
        &self.entries[i]
    }

    /// The bindings of the first `n` names.
    closed spec fn prefix_vars(&self, n: int) -> Map<Seq<char>, EntryModel<'p>> {
        Map::new(
            |name: Seq<char>| self.position(name) is Some && self.position(name)->0 < n,
            |name: Seq<char>| self.entries[self.position(name)->0]@,
        )
    }

    /// Binds in `out` each name of this scope to what it is bound to here.
    fn overlay(&self, out: &mut Scope<'p>)
        requires
            self.wf(),
            old(out).wf(),
        ensures
            final(out).wf(),
            final(out).parent == old(out).parent,
            final(out).vars() == old(out).vars().union_prefer_right(self.vars()),
    {
        let ghost base = out.vars();
        let mut i: usize = 0;
        assert(out.vars() =~= base.union_prefer_right(self.prefix_vars(0)));
        while i < self.names.len()
            invariant
                i <= self.names.len(),
                self.wf(),
                out.wf(),
                out.parent == old(out).parent,
                out.vars() == base.union_prefer_right(self.prefix_vars(i as int)),
            decreases self.names.len() - i,
        {
            let ghost before = out.vars();
            out.put(self.names[i].clone(), self.entries[i].duplicate());
            proof {
                let k = self.names[i as int]@;
                let e = self.entries[i as int]@;
                self.lemma_position(k, i as int);
                assert(self.prefix_vars(i as int + 1) =~= self.prefix_vars(i as int).insert(k, e))
                    by {
                    assert forall|name: Seq<char>|
                        self.prefix_vars(i as int + 1).contains_key(name)
                            == self.prefix_vars(i as int).insert(k, e).contains_key(name) by {
                        if self.position(name) is Some && self.position(name)->0 == i {
                            assert(self.names[i as int]@ == name);
                        }
                    }
                }
                assert(out.vars() =~= base.union_prefer_right(self.prefix_vars(i as int + 1)));
            }
            i += 1;
        }
        assert(self.prefix_vars(self.names.len() as int) =~= self.vars());
    }

    /// Puts `entry` in the place `i`, whose name is `name`.
    fn replace(&mut self, i: usize, entry: ValueEntry<'p>, Ghost(name): Ghost<Seq<char>>)
        requires
            old(self).wf(),
            i < old(self).names.len(),
            old(self).names[i as int]@ == name,
        ensures
            final(self).wf(),
            final(self).parent == old(self).parent,
            final(self).vars() == old(self).vars().insert(name, entry@),
    {
        self.entries[i] = entry;
        proof {
            assert(self.names == old(self).names);
            assert(self.wf());
            assert forall|k: Seq<char>| self.position(k) == old(self).position(k) by {}
            old(self).lemma_position(name, i as int);
            self.lemma_position(name, i as int);
            assert(self.vars() =~= old(self).vars().insert(name, entry@));
        }
    }

    /// Binds `name` to `entry`, in place of what it was bound to.
    fn put(&mut self, name: String, entry: ValueEntry<'p>)
        requires
            old(self).wf(),
        ensures
            final(self).wf(),
            final(self).parent == old(self).parent,
            final(self).vars() == old(self).vars().insert(name@, entry@),
    {
        match self.find(&name) {
            Some(i) => {
                self.replace(i, entry, Ghost(name@));
            },
            None => {
                let ghost bound = entry@;
                let ghost key = name@;
                self.names.push(name);
                self.entries.push(entry);
                proof {
                    let n = old(self).names.len() as int;
                    assert(self.wf());
                    self.lemma_position(key, n);
                    assert forall|k: Seq<char>| k != key implies self.position(k) == old(
                        self,
                    ).position(k) by {
                        if old(self).position(k) is Some {
                            let j = old(self).position(k)->0;
                            self.lemma_position(k, j);
                        } else {
                            assert forall|j: int| 0 <= j < self.names.len() implies self.names[j]@
                                != k by {
                                if j < n {
                                    assert(old(self).names[j]@ != k);
                                }
                            }
                            self.lemma_absent(k);
                        }
                    }
                    assert(self.vars() =~= old(self).vars().insert(key, bound));
                }
            },
        }
    }

    /// Removes the binding in the place `i`, whose name is `name`.
    fn take(&mut self, i: usize, Ghost(name): Ghost<Seq<char>>)
        requires
            old(self).wf(),
            i < old(self).names.len(),
            old(self).names[i as int]@ == name,
        ensures
            final(self).wf(),
            final(self).parent == old(self).parent,
            final(self).vars() == old(self).vars().remove(name),
    {
        self.names.remove(i);
        self.entries.remove(i);
        proof {
            let before = *old(self);
            let after = *self;
            assert(after.names@ =~= before.names@.remove(i as int));
            assert(after.entries@ =~= before.entries@.remove(i as int));
            assert(after.wf()) by {
                assert forall|a: int, b: int| 0 <= a < b < after.names.len() implies after.names[a]@
                    != after.names[b]@ by {
                    let a0 = if a < i {
                        a
                    } else {
                        a + 1
                    };
                    let b0 = if b < i {
                        b
                    } else {
                        b + 1
                    };
                    assert(after.names[a] == before.names[a0]);
                    assert(after.names[b] == before.names[b0]);
                }
            }
            before.lemma_position(name, i as int);
            assert forall|j: int| 0 <= j < after.names.len() implies after.names[j]@ != name by {
                let j0 = if j < i {
                    j
                } else {
                    j + 1
                };
                assert(after.names[j] == before.names[j0]);
            }
            after.lemma_absent(name);
            assert forall|k: Seq<char>| k != name implies (#[trigger] after.vars().contains_key(k)
                == before.vars().contains_key(k)) && (before.vars().contains_key(k)
                ==> after.vars()[k] == before.vars()[k]) by {
                if before.position(k) is Some {
                    let j0 = before.position(k)->0;
                    let j = if j0 < i {
                        j0
                    } else {
                        j0 - 1
                    };
                    assert(after.names[j] == before.names[j0]);
                    assert(after.entries[j] == before.entries[j0]);
                    after.lemma_position(k, j);
                    before.lemma_position(k, j0);
                } else {
                    assert forall|j: int| 0 <= j < after.names.len() implies after.names[j]@
                        != k by {
                        let j0 = if j < i {
                            j
                        } else {
                            j + 1
                        };
                        assert(after.names[j] == before.names[j0]);
                    }
                    after.lemma_absent(k);
                }
            }
            assert forall|k: Seq<char>|
                before.vars().remove(name).contains_key(k) implies #[trigger] after.vars().contains_key(
                k,
            ) by {}
            assert(after.vars().dom() =~= before.vars().remove(name).dom());
            assert(after.vars() =~= before.vars().remove(name));
        }
    }
}

impl<'p> View for Scope<'p> {
    type V = ScopeModel<'p>;

    closed spec fn view(&self) -> ScopeModel<'p> {
        ScopeModel {
            parent: match self.parent {
                Some(p) => Some(p as int),
                None => None,
            },
            vars: self.vars(),
        }
    }
}

impl<'p> View for Env<'p> {
    type V = Seq<ScopeModel<'p>>;

    closed spec fn view(&self) -> Seq<ScopeModel<'p>> {
        Seq::new(self.scopes.len() as nat, |i: int| self.scopes[i]@)
    }
}

impl<'p> Env<'p> {
    /// The environment is well formed: it has its root, no scope binds a name
    /// twice, and the scope around a scope was opened before it.
    pub closed spec fn wf(&self) -> bool {
        &&& self.scopes.len() > 0
        &&& forall|i: int| 0 <= i < self.scopes.len() ==> (#[trigger] self.scopes[i]).wf()
        &&& forall|i: int|
            0 <= i < self.scopes.len() ==> match (#[trigger] self.scopes[i]).parent {
                Some(p) => p < i,
                None => true,
            }
    }

    /// In a well-formed environment the scope around a scope has a smaller
    /// index.
    pub proof fn lemma_parents(&self)
        requires
            self.wf(),
        ensures
            self@.len() > 0,
            forall|i: int|
                0 <= i < self@.len() ==> match (#[trigger] self@[i]).parent {
                    Some(p) => 0 <= p < i,
                    None => true,
                },
    {
        assert forall|i: int| 0 <= i < self@.len() implies match (#[trigger] self@[i]).parent {
            Some(p) => 0 <= p < i,
            None => true,
        } by {
            assert(self@[i] == self.scopes[i]@);
        }
    }

    /// An environment with an empty root.
    pub fn new() -> (r: Env<'p>)
        ensures
            r.wf(),
            r@ == seq![ScopeModel { parent: None, vars: Map::empty() }],
    {
        let root = Scope::new();
        let mut scopes: Vec<Scope<'p>> = Vec::new();
        scopes.push(root);
        let r = Env { scopes };
        assert(r@ =~= seq![ScopeModel { parent: None, vars: Map::empty() }]);
        r
    }

    /// How many scopes there are.
    pub fn len(&self) -> (n: usize)
        ensures
            n == self@.len(),
    {
        self.scopes.len()
    }

    /// Opens an empty scope inside `parent` and gives its index. A `parent`
    /// that names no scope gives a scope with nothing around it.
    pub fn extend(&mut self, parent: usize) -> (id: usize)
        requires
            old(self).wf(),
        ensures
            final(self).wf(),
            id == old(self)@.len(),
            final(self)@ == old(self)@.push(
                ScopeModel {
                    parent: if parent < old(self)@.len() {
                        Some(parent as int)
                    } else {
                        None
                    },
                    vars: Map::empty(),
                },
            ),
    {
        let id = self.scopes.len();
        let link = if parent < id {
            Some(parent)
        } else {
            None
        };
        let scope = Scope { parent: link, names: Vec::new(), entries: Vec::new() };
        proof {
            scope.lemma_absent(Seq::empty());
            assert(scope.vars() =~= Map::empty());
        }
        self.scopes.push(scope);
        assert(self@ =~= old(self)@.push(
            ScopeModel {
                parent: if parent < old(self)@.len() {
                    Some(parent as int)
                } else {
                    None
                },
                vars: Map::empty(),
            },
        ));
        id
    }

    /// Closes `scope`: it is removed where no scope was opened after it, and
    /// stays else, for the scopes inside it.
    pub fn close(&mut self, scope: usize)
        requires
            old(self).wf(),
        ensures
            final(self).wf(),
            final(self)@ == closed(old(self)@, scope as int),
    {
        if scope > 0 && scope == self.scopes.len() - 1 {
            self.scopes.pop();
            assert(self@ =~= old(self)@.drop_last());
        }
    }

    /// The scope that owns `name` as seen from `scope`, and where the name
    /// stands in it.
    fn owner(&self, scope: usize, name: &String) -> (r: Option<(usize, usize)>)
        requires
            self.wf(),
        ensures
            match r {
                Some((s, i)) => owner_of(self@, scope as int, name@) == Some(s as int) && s
                    < self.scopes.len() && i < self.scopes[s as int].names.len()
                    && self.scopes[s as int].names[i as int]@ == name@ && self@[s as int].vars[name@]
                    == self.scopes[s as int].entries[i as int]@,
                None => owner_of(self@, scope as int, name@) is None,
            },
    {
        if scope >= self.scopes.len() {
            return None;
        }
        let mut cur = scope;
        loop
            invariant
                self.wf(),
                cur < self.scopes.len(),
                owner_of(self@, scope as int, name@) == owner_of(self@, cur as int, name@),
            decreases cur,
        {
            proof {
                assert(self@[cur as int] == self.scopes[cur as int]@);
            }
            match self.scopes[cur].find(name) {
                Some(i) => {
                    return Some((cur, i));
                },
                None => {},
            }
            match self.scopes[cur].parent {
                Some(p) => {
                    cur = p;
                },
                None => {
                    return None;
                },
            }
        }
    }

    /// What `name` is bound to as seen from `scope`.
    pub fn get(&self, scope: usize, name: String) -> (r: Result<ValueEntry<'p>, RuntimeError<'p>>)
        requires
            self.wf(),
        ensures
            match lookup(self@, scope as int, name@) {
                Some(entry) => r is Ok && r->Ok_0@ == entry,
                None => r is Err && r->Err_0@ == ErrorModel::IdentifierNotFound(name@),
            },
    {
        match self.owner(scope, &name) {
            Some((s, i)) => Ok(self.scopes[s].entries[i].duplicate()),
            None => Err(RuntimeError::IdentifierNotFound(name)),
        }
    }

    /// Assigns `value` to `name` as seen from `scope`, and gives the value
    /// back.
    pub fn set(&mut self, scope: usize, name: String, value: Value<'p>, ignore_constness: bool) -> (r:
        Result<Value<'p>, RuntimeError<'p>>)
        requires
            old(self).wf(),
        ensures
            final(self).wf(),
            match assigned(old(self)@, scope as int, name@, value@, ignore_constness) {
                Ok(env) => final(self)@ == env && r is Ok && r->Ok_0@ == value@,
                Err(e) => final(self)@ == old(self)@ && r is Err && r->Err_0@ == e,
            },
    {
        match self.owner(scope, &name) {
            None => Err(RuntimeError::IdentifierNotFound(name)),
            Some((s, i)) => {
                let constness = self.scopes[s].entries[i].c;
                if constness == Constness::Const && !ignore_constness {
                    return Err(RuntimeError::SettingConst(name));
                }
                let kind = value.type_of();
                if !kind.same(&self.scopes[s].entries[i].t) {
                    let mut got: Vec<Type> = Vec::new();
                    got.push(kind);
                    let mut expected: Vec<Type> = Vec::new();
                    expected.push(self.scopes[s].entries[i].t.duplicate());
                    let e = RuntimeError::MismatchedTypes { got, expected };
                    proof {
                        let entry = old(self)@[s as int].vars[name@];
                        assert(e@->MismatchedTypes_got =~= seq![type_of(value@)]);
                        assert(e@->MismatchedTypes_expected =~= seq![entry.t]);
                    }
                    return Err(e);
                }
                let entry = ValueEntry { v: value.duplicate(), c: constness, t: kind };
                self.write(s, i, entry, Ghost(name@));
                Ok(value)
            },
        }
    }

    /// Puts `entry` in the place `i` of scope `s`, whose name is `name`.
    fn write(&mut self, s: usize, i: usize, entry: ValueEntry<'p>, Ghost(name): Ghost<Seq<char>>)
        requires
            old(self).wf(),
            s < old(self).scopes.len(),
            i < old(self).scopes[s as int].names.len(),
            old(self).scopes[s as int].names[i as int]@ == name,
        ensures
            final(self).wf(),
            final(self)@ == with_binding(old(self)@, s as int, name, entry@),
    {
        let ghost bound = entry@;
        let target = &mut self.scopes[s];
        target.replace(i, entry, Ghost(name));
        proof {
            assert(self@ =~= with_binding(old(self)@, s as int, name, bound));
        }
    }

    /// Binds `name` in `scope`, in place of what it was bound to there, and
    /// gives the value back. A `scope` that names no scope gives the name
    /// back as an error.
    pub fn define(
        &mut self,
        scope: usize,
        name: String,
        value: Value<'p>,
        constness: Constness,
        ident_type: Type,
    ) -> (r: Result<Value<'p>, String>)
        requires
            old(self).wf(),
        ensures
            final(self).wf(),
            scope < old(self)@.len() ==> r is Ok && r->Ok_0@ == value@ && final(self)@
                == with_binding(
                old(self)@,
                scope as int,
                name@,
                EntryModel { v: value@, c: constness, t: ident_type@ },
            ),
            scope >= old(self)@.len() ==> r is Err && r->Err_0@ == name@ && final(self)@ == old(
                self,
            )@,
    {
        if scope >= self.scopes.len() {
            return Err(name);
        }
        let entry = ValueEntry { v: value.duplicate(), c: constness, t: ident_type };
        let ghost bound = entry@;
        let target = &mut self.scopes[scope];
        target.put(name.clone(), entry);
        proof {
            assert(self@ =~= with_binding(old(self)@, scope as int, name@, bound));
        }
        Ok(value)
    }

    /// Binds the name that a declaration declares, and gives the value
    /// back. In the root scope a name is declared once: there, a name that is
    /// bound already is given back as an error, and stays bound as it was.
    pub fn declare(
        &mut self,
        scope: usize,
        name: String,
        value: Value<'p>,
        constness: Constness,
        ident_type: Type,
    ) -> (r: Result<Value<'p>, String>)
        requires
            old(self).wf(),
        ensures
            final(self).wf(),
            match declared_binding(
                old(self)@,
                scope as int,
                name@,
                EntryModel { v: value@, c: constness, t: ident_type@ },
            ) {
                Some(env) => final(self)@ == env && r is Ok && r->Ok_0@ == value@,
                None => final(self)@ == old(self)@ && r is Err && r->Err_0@ == name@,
            },
    {
        if scope == 0 {
            proof {
                assert(self@[0] == self.scopes[0]@);
            }
            if self.scopes[0].find(&name).is_some() {
                return Err(name);
            }
        }
        self.define(scope, name, value, constness, ident_type)
    }

    /// Binds `name` in `scope` as a variable.
    pub fn def_var(&mut self, scope: usize, name: String, value: Value<'p>, declared: Type) -> (r:
        Result<Value<'p>, String>)
        requires
            old(self).wf(),
        ensures
            final(self).wf(),
            scope < old(self)@.len() ==> r is Ok && r->Ok_0@ == value@ && final(self)@
                == with_binding(
                old(self)@,
                scope as int,
                name@,
                EntryModel { v: value@, c: Constness::Var, t: declared@ },
            ),
            scope >= old(self)@.len() ==> r is Err && r->Err_0@ == name@ && final(self)@ == old(
                self,
            )@,
    {
        self.define(scope, name, value, Constness::Var, declared)
    }

    /// Binds `name` in `scope` as a constant.
    pub fn def_const(&mut self, scope: usize, name: String, value: Value<'p>, declared: Type) -> (r:
        Result<Value<'p>, String>)
        requires
            old(self).wf(),
        ensures
            final(self).wf(),
            scope < old(self)@.len() ==> r is Ok && r->Ok_0@ == value@ && final(self)@
                == with_binding(
                old(self)@,
                scope as int,
                name@,
                EntryModel { v: value@, c: Constness::Const, t: declared@ },
            ),
            scope >= old(self)@.len() ==> r is Err && r->Err_0@ == name@ && final(self)@ == old(
                self,
            )@,
    {
        self.define(scope, name, value, Constness::Const, declared)
    }

    /// Removes the binding of `name` from the scope that owns it as seen
    /// from `scope`, if any does.
    pub fn undefine(&mut self, scope: usize, name: String)
        requires
            old(self).wf(),
        ensures
            final(self).wf(),
            match owner_of(old(self)@, scope as int, name@) {
                Some(s) => final(self)@ == without_binding(old(self)@, s, name@),
                None => final(self)@ == old(self)@,
            },
    {
        match self.owner(scope, &name) {
            None => {},
            Some((s, i)) => {
                let target = &mut self.scopes[s];
                target.take(i, Ghost(name@));
                proof {
                    assert(self@ =~= without_binding(old(self)@, s as int, name@));
                }
            },
        }
    }

    /// Binds in `out` every binding seen from `scope`.
    fn collect(&self, scope: usize, out: &mut Scope<'p>)
        requires
            self.wf(),
            old(out).wf(),
        ensures
            final(out).wf(),
            final(out)@.parent == old(out)@.parent,
            final(out)@.vars == old(out)@.vars.union_prefer_right(visible(self@, scope as int)),
        decreases scope,
    {
        let ghost base = out.vars();
        if scope >= self.scopes.len() {
            assert(out.vars() =~= base.union_prefer_right(Map::empty()));
            return ;
        }
        proof {
            assert(self@[scope as int] == self.scopes[scope as int]@);
        }
        match self.scopes[scope].parent {
            Some(p) => {
                self.collect(p, out);
            },
            None => {},
        }
        self.scopes[scope].overlay(out);
        proof {
            let local = self.scopes[scope as int].vars();
            match self.scopes[scope as int].parent {
                Some(p) => {
                    assert(out.vars() =~= base.union_prefer_right(
                        visible(self@, p as int).union_prefer_right(local),
                    ));
                },
                None => {},
            }
        }
    }

    /// Every binding seen from `scope`, as one scope with nothing around it.
    pub fn identifiers(&self, scope: usize) -> (r: Scope<'p>)
        requires
            self.wf(),
        ensures
            r.wf(),
            r@.parent is None,
            r@.vars == visible(self@, scope as int),
    {
        let mut out = Scope::new();
        self.collect(scope, &mut out);
        assert(out@.vars =~= visible(self@, scope as int));
        out
    }

    /// Binds `name` in the root to the function `builtin` of the language.
    fn install(&mut self, name: &str, builtin: Builtin, params: Vec<Type>, ret: Type)
        requires
            old(self).wf(),
        ensures
            final(self).wf(),
            final(self)@ == with_binding(
                old(self)@,
                0,
                name@,
                native_entry(builtin, crate::types::types_view(params@), ret@),
            ),
    {
        let declared = Type::Func(params, Box::new(ret));
        assert(declared@->Func_0 =~= crate::types::types_view(params@));
        proof {
            self.lemma_parents();
        }
        let _ = self.define(
            0,
            name.to_string(),
            Value::Func(Func::Native(builtin)),
            Constness::Const,
            declared,
        );
    }
}

/// The binding of a function of the language.
pub open spec fn native_entry<'p>(builtin: Builtin, params: Seq<TypeModel>, ret: TypeModel)
    -> EntryModel<'p> {
    EntryModel {
        v: ValueModel::Func(Func::Native(builtin)),
        c: Constness::Const,
        t: TypeModel::Func(params, Box::new(ret)),
    }
}

/// The bindings that every program starts with: the functions of the
/// language, each a constant of the root scope.
pub open spec fn builtin_bindings<'p>() -> Map<Seq<char>, EntryModel<'p>> {
    Map::empty().insert(
        "print"@,
        native_entry(Builtin::Print, seq![TypeModel::BuiltinVariadic], TypeModel::Unit),
    ).insert(
        "printline"@,
        native_entry(Builtin::PrintLine, seq![TypeModel::BuiltinVariadic], TypeModel::Unit),
    ).insert(
        "len"@,
        native_entry(Builtin::Len, seq![TypeModel::BuiltinVariadic], TypeModel::Int),
    ).insert(
        "range"@,
        native_entry(
            Builtin::Range,
            seq![TypeModel::Int, TypeModel::Int, TypeModel::Int],
            TypeModel::List(Box::new(TypeModel::Int)),
        ),
    ).insert(
        "repeat"@,
        native_entry(
            Builtin::Repeat,
            seq![TypeModel::Any, TypeModel::Int],
            TypeModel::List(Box::new(TypeModel::Any)),
        ),
    ).insert("inputchar"@, native_entry(Builtin::InputChar, seq![], TypeModel::Str)).insert(
        "inputline"@,
        native_entry(Builtin::InputLine, seq![], TypeModel::Str),
    ).insert("inputall"@, native_entry(Builtin::InputAll, seq![], TypeModel::Str)).insert(
        "ord"@,
        native_entry(Builtin::Ordinal, seq![TypeModel::Str], TypeModel::Int),
    ).insert("char"@, native_entry(Builtin::Character, seq![TypeModel::Int], TypeModel::Str))
}

impl<'p> Default for Env<'p> {
    /// The environment that every program starts in.
    fn default() -> (r: Env<'p>)
        ensures
            r.wf(),
            r@ == seq![ScopeModel { parent: None, vars: builtin_bindings() }],
    {
        let mut env = Env::new();
        let mut params: Vec<Type> = Vec::new();
        params.push(Type::BuiltinVariadic);
        assert(crate::types::types_view(params@) =~= seq![TypeModel::BuiltinVariadic]);
        env.install("print", Builtin::Print, params, Type::Unit);

        let mut params: Vec<Type> = Vec::new();
        params.push(Type::BuiltinVariadic);
        assert(crate::types::types_view(params@) =~= seq![TypeModel::BuiltinVariadic]);
        env.install("printline", Builtin::PrintLine, params, Type::Unit);

        let mut params: Vec<Type> = Vec::new();
        params.push(Type::BuiltinVariadic);
        assert(crate::types::types_view(params@) =~= seq![TypeModel::BuiltinVariadic]);
        env.install("len", Builtin::Len, params, Type::Int);

        let mut params: Vec<Type> = Vec::new();
        params.push(Type::Int);
        params.push(Type::Int);
        params.push(Type::Int);
        assert(crate::types::types_view(params@) =~= seq![
            TypeModel::Int,
            TypeModel::Int,
            TypeModel::Int,
        ]);
        env.install("range", Builtin::Range, params, Type::List(Box::new(Type::Int)));

        let mut params: Vec<Type> = Vec::new();
        params.push(Type::Any);
        params.push(Type::Int);
        assert(crate::types::types_view(params@) =~= seq![TypeModel::Any, TypeModel::Int]);
        env.install("repeat", Builtin::Repeat, params, Type::List(Box::new(Type::Any)));

        let params: Vec<Type> = Vec::new();
        assert(crate::types::types_view(params@) =~= seq![]);
        env.install("inputchar", Builtin::InputChar, params, Type::Str);

        let params: Vec<Type> = Vec::new();
        assert(crate::types::types_view(params@) =~= seq![]);
        env.install("inputline", Builtin::InputLine, params, Type::Str);

        let params: Vec<Type> = Vec::new();
        assert(crate::types::types_view(params@) =~= seq![]);
        env.install("inputall", Builtin::InputAll, params, Type::Str);

        let mut params: Vec<Type> = Vec::new();
        params.push(Type::Str);
        assert(crate::types::types_view(params@) =~= seq![TypeModel::Str]);
        env.install("ord", Builtin::Ordinal, params, Type::Int);

        let mut params: Vec<Type> = Vec::new();
        params.push(Type::Int);
        assert(crate::types::types_view(params@) =~= seq![TypeModel::Int]);
        env.install("char", Builtin::Character, params, Type::Str);

        assert(env@ =~= seq![ScopeModel { parent: None, vars: builtin_bindings() }]);
        env
    }
}

} // verus!
