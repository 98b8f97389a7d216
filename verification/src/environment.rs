//! Environments: the chains of scopes in which a running program keeps its
//! variables. All the scopes of a run live in one `Environment`, each named
//! by a handle; a scope may be enclosed by one made before it. A variable is
//! looked up in a scope and then outwards along the chain.

use vstd::prelude::*;

use crate::text::{decimal, push_decimal, push_str};
use crate::token::Token;

verus! {

/// One scope: its variables, in the order first defined, and the handle of
/// the scope that encloses it.
pub struct Scope<V> {
    pub values: Seq<(Seq<char>, V)>,
    pub enclosing: Option<usize>,
}

/// The index of the variable called `name` in `values`, the first one if
/// several, or -1.
pub open spec fn key_index<V>(values: Seq<(Seq<char>, V)>, name: Seq<char>) -> int
    decreases values.len(),
{
    if values.len() == 0 {
        -1
    } else if key_index(values.drop_last(), name) >= 0 {
        key_index(values.drop_last(), name)
    } else if values.last().0 == name {
        values.len() - 1
    } else {
        -1
    }
}

/// The handle of the first scope along the chain from `at` that holds
/// `name`, or -1.
pub open spec fn holder<V>(scopes: Seq<Scope<V>>, at: int, name: Seq<char>) -> int
    decreases at,
{
    if at < 0 || at >= scopes.len() {
        -1
    } else if key_index(scopes[at].values, name) >= 0 {
        at
    } else {
        match scopes[at].enclosing {
            Some(e) => if e < at {
                holder(scopes, e as int, name)
            } else {
                -1
            },
            None => -1,
        }
    }
}

/// The value of `name` in scope `k` alone.
pub open spec fn value_in<V>(scopes: Seq<Scope<V>>, k: int, name: Seq<char>) -> Option<V> {
    if 0 <= k < scopes.len() && key_index(scopes[k].values, name) >= 0 {
        Some(scopes[k].values[key_index(scopes[k].values, name)].1)
    } else {
        None
    }
}

/// The value of `name` seen from scope `at`: in the first scope along the
/// chain that holds it.
pub open spec fn lookup<V>(scopes: Seq<Scope<V>>, at: int, name: Seq<char>) -> Option<V> {
    value_in(scopes, holder(scopes, at, name), name)
}

/// The scope `distance` steps out along the chain from `at`, or -1 if the
/// chain is shorter.
pub open spec fn ancestor_of<V>(scopes: Seq<Scope<V>>, at: int, distance: nat) -> int
    decreases distance,
{
    if at < 0 || at >= scopes.len() {
        -1
    } else if distance == 0 {
        at
    } else {
        match scopes[at].enclosing {
            Some(e) => if e < at {
                ancestor_of(scopes, e as int, (distance - 1) as nat)
            } else {
                -1
            },
            None => -1,
        }
    }
}

/// `scopes` with `name` set to `value` in scope `k`: the variable's value
/// replaced if `k` holds it, else the variable added at the end.
pub open spec fn set_in<V>(scopes: Seq<Scope<V>>, k: int, name: Seq<char>, value: V) -> Seq<Scope<V>> {
    let vals = scopes[k].values;
    let j = key_index(vals, name);
    let vals2 = if j >= 0 {
        vals.update(j, (name, value))
    } else {
        vals.push((name, value))
    };
    scopes.update(k, Scope { values: vals2, enclosing: scopes[k].enclosing })
}

/// The message for a variable that no scope along the chain holds.
pub open spec fn undefined_message(name: Seq<char>) -> Seq<char> {
    "Undefined variable '"@ + name + "'."@
}

/// The message when `get_at` does not find the variable.
pub open spec fn undefined_at_message(name: Seq<char>) -> Seq<char> {
    "Undefined variable '"@ + name + "'"@
}

/// The message for a chain shorter than `distance`.
pub open spec fn no_ancestor_message(distance: nat) -> Seq<char> {
    "Cannot find an environment at distance "@ + decimal(distance)
}


/// Where a prefix of `values` finds `name`, `values` finds it too.
proof fn lemma_key_index_prefix<V>(values: Seq<(Seq<char>, V)>, k: int, name: Seq<char>)
    requires
        0 <= k <= values.len(),
        key_index(values.take(k), name) >= 0,
    ensures
        key_index(values, name) == key_index(values.take(k), name),
    decreases values.len(),
{
    if k == values.len() {
        assert(values.take(k) =~= values);
    } else {
        assert(values.drop_last().take(k) =~= values.take(k));
        lemma_key_index_prefix(values.drop_last(), k, name);
    }
}

/// What `key_index` finds is a variable of that name, and -1 means there
/// is none.
pub proof fn lemma_key_index<V>(values: Seq<(Seq<char>, V)>, name: Seq<char>)
    ensures
        -1 <= key_index(values, name) < values.len(),
        key_index(values, name) >= 0 ==> values[key_index(values, name)].0 == name,
        key_index(values, name) == -1 ==> forall|i: int| 0 <= i < values.len() ==> values[i].0 != name,
    decreases values.len(),
{
    if values.len() > 0 {
        lemma_key_index(values.drop_last(), name);
        if key_index(values, name) == -1 {
            assert forall|i: int| 0 <= i < values.len() implies values[i].0 != name by {
                if i < values.len() - 1 {
                    assert(values.drop_last()[i] == values[i]);
                }
            }
        }
    }
}

/// The index of the variable called `name` in `values`, the first one.
fn find_key<V>(values: &Vec<(String, V)>, name: &String) -> (r: Option<usize>)
    ensures
        match r {
            Some(j) => j as int == key_index(frame_values(values@), name@) && j < values@.len(),
            None => key_index(frame_values(values@), name@) == -1,
        },
{
    let ghost m = frame_values(values@);
    let mut i: usize = 0;
    assert(m.take(0) =~= Seq::<(Seq<char>, V)>::empty());
    while i < values.len()
        invariant
            i <= values@.len(),
            m == frame_values(values@),
            key_index(m.take(i as int), name@) == -1,
        decreases values@.len() - i,
    {
        proof {
            assert(m.take(i + 1).drop_last() =~= m.take(i as int));
        }
        if values[i].0 == *name {
            proof {
                lemma_key_index_prefix(m, i + 1, name@);
            }
            return Some(i);
        }
        i += 1;
    }
    proof {
        assert(m.take(values@.len() as int) =~= m);
    }
    None
}

/// `key_index` reads only the names of the variables.
proof fn lemma_key_index_names<V>(a: Seq<(Seq<char>, V)>, b: Seq<(Seq<char>, V)>, name: Seq<char>)
    requires
        a.len() == b.len(),
        forall|i: int| 0 <= i < a.len() ==> a[i].0 == b[i].0,
    ensures
        key_index(a, name) == key_index(b, name),
    decreases a.len(),
{
    if a.len() > 0 {
        lemma_key_index_names(a.drop_last(), b.drop_last(), name);
    }
}

/// The scope found along the chain from `at` is `at` or one made before it.
proof fn lemma_holder_bound<V>(scopes: Seq<Scope<V>>, at: int, name: Seq<char>)
    ensures
        holder(scopes, at, name) >= -1,
        holder(scopes, at, name) >= 0 ==> holder(scopes, at, name) <= at,
        holder(scopes, at, name) >= 0 ==> holder(scopes, at, name) < scopes.len()
            && key_index(scopes[holder(scopes, at, name)].values, name) >= 0,
    decreases at,
{
    if 0 <= at < scopes.len() && key_index(scopes[at].values, name) < 0 {
        match scopes[at].enclosing {
            Some(e) => if e < at {
                lemma_holder_bound(scopes, e as int, name);
            },
            None => {},
        }
    }
}

/// Lookups from `at` read only the scopes up to `at`.
proof fn lemma_lookup_agree<V>(a: Seq<Scope<V>>, b: Seq<Scope<V>>, at: int, name: Seq<char>)
    requires
        0 <= at < a.len(),
        at < b.len(),
        forall|i: int| 0 <= i <= at ==> a[i] == b[i],
    ensures
        holder(a, at, name) == holder(b, at, name),
        lookup(a, at, name) == lookup(b, at, name),
    decreases at,
{
    if key_index(a[at].values, name) < 0 {
        match a[at].enclosing {
            Some(e) => if e < at {
                lemma_lookup_agree(a, b, e as int, name);
            },
            None => {},
        }
    }
    lemma_holder_bound(a, at, name);
}

/// Setting `name` in scope `k` leaves every name the scopes hold where it
/// was, and adds `name` to scope `k` if it was not there.
proof fn lemma_set_in_names<V>(scopes: Seq<Scope<V>>, k: int, name: Seq<char>, value: V, other: Seq<char>)
    requires
        0 <= k < scopes.len(),
    ensures
        set_in(scopes, k, name, value).len() == scopes.len(),
        forall|i: int| 0 <= i < scopes.len() && i != k ==> set_in(scopes, k, name, value)[i] == scopes[i],
        set_in(scopes, k, name, value)[k].enclosing == scopes[k].enclosing,
        key_index(set_in(scopes, k, name, value)[k].values, name) >= 0,
        set_in(scopes, k, name, value)[k].values[key_index(set_in(scopes, k, name, value)[k].values, name)].1 == value,
        other != name ==> key_index(set_in(scopes, k, name, value)[k].values, other) == key_index(scopes[k].values, other),
        other != name && key_index(scopes[k].values, other) >= 0 ==> set_in(scopes, k, name, value)[k].values[key_index(
            scopes[k].values,
            other,
        )] == scopes[k].values[key_index(scopes[k].values, other)],
{
    let vals = scopes[k].values;
    let j = key_index(vals, name);
    lemma_key_index(vals, name);
    lemma_key_index(vals, other);
    if j >= 0 {
        let vals2 = vals.update(j, (name, value));
        lemma_key_index_names(vals, vals2, name);
        lemma_key_index_names(vals, vals2, other);
    } else {
        let vals2 = vals.push((name, value));
        assert(vals2.drop_last() =~= vals);
    }
}

/// A variable defined in a scope is seen from that scope with the value it
/// was given.
pub proof fn law_define_then_get<V>(scopes: Seq<Scope<V>>, at: int, name: Seq<char>, value: V)
    requires
        0 <= at < scopes.len(),
    ensures
        lookup(set_in(scopes, at, name, value), at, name) == Some(value),
{
    lemma_set_in_names(scopes, at, name, value, name);
}

/// After an assignment from scope `at` to a variable that the chain holds,
/// the variable is seen from `at` with the assigned value.
pub proof fn law_assign_then_get<V>(scopes: Seq<Scope<V>>, at: int, name: Seq<char>, value: V)
    requires
        0 <= at < scopes.len(),
        holder(scopes, at, name) >= 0,
    ensures
        lookup(set_in(scopes, holder(scopes, at, name), name, value), at, name) == Some(value),
    decreases at,
{
    let h = holder(scopes, at, name);
    lemma_holder_bound(scopes, at, name);
    lemma_set_in_names(scopes, h, name, value, name);
    let s2 = set_in(scopes, h, name, value);
    if h != at {
        match scopes[at].enclosing {
            Some(e) => {
                assert(e < at);
                law_assign_then_get(scopes, e as int, name, value);
                assert(key_index(s2[at].values, name) == key_index(scopes[at].values, name));
            },
            None => {},
        }
    }
}

/// Setting a variable changes what no other name is seen as, from any scope.
pub proof fn law_set_keeps_other_names<V>(scopes: Seq<Scope<V>>, k: int, name: Seq<char>, value: V, at: int, other: Seq<char>)
    requires
        0 <= k < scopes.len(),
        0 <= at < scopes.len(),
        other != name,
    ensures
        lookup(set_in(scopes, k, name, value), at, other) == lookup(scopes, at, other),
    decreases at,
{
    let s2 = set_in(scopes, k, name, value);
    lemma_set_in_names(scopes, k, name, value, other);
    lemma_holder_bound(scopes, at, other);
    lemma_holder_bound(s2, at, other);
    assert(s2[at].values == scopes[at].values || at == k);
    assert(key_index(s2[at].values, other) == key_index(scopes[at].values, other));
    if key_index(scopes[at].values, other) < 0 {
        match scopes[at].enclosing {
            Some(e) => if e < at {
                law_set_keeps_other_names(scopes, k, name, value, e as int, other);
            },
            None => {},
        }
    }
}

/// An assignment from scope `at` finds a variable exactly when a read from
/// `at` does.
pub proof fn law_assign_finds_what_get_finds<V>(scopes: Seq<Scope<V>>, at: int, name: Seq<char>)
    requires
        0 <= at < scopes.len(),
    ensures
        holder(scopes, at, name) >= 0 <==> lookup(scopes, at, name) is Some,
{
    lemma_holder_bound(scopes, at, name);
}

/// A scope made after `at` changes nothing seen from `at`.
pub proof fn law_later_scope_invisible<V>(scopes: Seq<Scope<V>>, k: int, name: Seq<char>, value: V, at: int, other: Seq<char>)
    requires
        0 <= at < k < scopes.len(),
    ensures
        lookup(set_in(scopes, k, name, value), at, other) == lookup(scopes, at, other),
{
    lemma_set_in_names(scopes, k, name, value, other);
    lemma_lookup_agree(scopes, set_in(scopes, k, name, value), at, other);
}

/// A new scope, before anything is defined in it, sees what the scope that
/// encloses it sees.
pub proof fn law_new_scope_sees_enclosing<V>(scopes: Seq<Scope<V>>, enclosing: usize, name: Seq<char>)
    requires
        0 <= enclosing < scopes.len(),
    ensures
        lookup(
            scopes.push(Scope { values: Seq::empty(), enclosing: Some(enclosing) }),
            scopes.len() as int,
            name,
        ) == lookup(scopes, enclosing as int, name),
{
    let s2 = scopes.push(Scope { values: Seq::empty(), enclosing: Some(enclosing) });
    assert(key_index(s2[scopes.len() as int].values, name) == -1);
    lemma_lookup_agree(scopes, s2, enclosing as int, name);
}

/// From `at`, the scope zero steps out is `at` itself, and one step out is
/// the scope that encloses it.
pub proof fn law_ancestor_steps<V>(scopes: Seq<Scope<V>>, at: int)
    requires
        0 <= at < scopes.len(),
        match scopes[at].enclosing {
            Some(e) => e < at,
            None => true,
        },
    ensures
        ancestor_of(scopes, at, 0) == at,
        ancestor_of(scopes, at, 1) == match scopes[at].enclosing {
            Some(e) => e as int,
            None => -1,
        },
{
    match scopes[at].enclosing {
        Some(e) => {
            assert(ancestor_of(scopes, e as int, 0) == e);
        },
        None => {},
    }
}

/// Walking `d` steps out from a scope with an enclosing scope is walking
/// `d - 1` steps out from that one; from a scope with none, no walk of a
/// step or more arrives.
pub proof fn law_ancestor_one_step<V>(scopes: Seq<Scope<V>>, at: int, d: nat)
    requires
        0 <= at < scopes.len(),
        d >= 1,
        match scopes[at].enclosing {
            Some(e) => e < at,
            None => true,
        },
    ensures
        ancestor_of(scopes, at, d) == match scopes[at].enclosing {
            Some(e) => ancestor_of(scopes, e as int, (d - 1) as nat),
            None => -1,
        },
{
}

/// A walk that arrives somewhere stays among the scopes.
proof fn lemma_ancestor_in_range<V>(scopes: Seq<Scope<V>>, at: int, d: nat)
    ensures
        -1 <= ancestor_of(scopes, at, d) < scopes.len(),
    decreases d,
{
    if 0 <= at < scopes.len() && d > 0 {
        match scopes[at].enclosing {
            Some(e) => if e < at {
                lemma_ancestor_in_range(scopes, e as int, (d - 1) as nat);
            },
            None => {},
        }
    }
}

/// Walking `d1 + d2` steps out is walking `d1` steps and then `d2` more;
/// and where the first `d1` steps arrive nowhere, so do all `d1 + d2`.
pub proof fn law_ancestor_adds<V>(scopes: Seq<Scope<V>>, at: int, d1: nat, d2: nat)
    ensures
        ancestor_of(scopes, at, d1) >= 0 ==> ancestor_of(scopes, at, d1 + d2) == ancestor_of(
            scopes,
            ancestor_of(scopes, at, d1),
            d2,
        ),
        ancestor_of(scopes, at, d1) < 0 ==> ancestor_of(scopes, at, d1 + d2) == -1,
    decreases d1,
{
    lemma_ancestor_in_range(scopes, at, d1);
    if 0 <= at < scopes.len() && d1 > 0 {
        match scopes[at].enclosing {
            Some(e) => if e < at {
                law_ancestor_adds(scopes, e as int, (d1 - 1) as nat, d2);
                assert((d1 - 1) as nat + d2 == (d1 + d2 - 1) as nat);
            },
            None => {},
        }
    } else if d1 == 0 {
        assert(d1 + d2 == d2);
    }
}

struct Frame<V> {
    values: Vec<(String, V)>,
    enclosing: Option<usize>,
}

/// All the scopes of a run, each named by its handle.
pub struct Environment<V> {
    frames: Vec<Frame<V>>,
}

spec fn frame_values<V>(values: Seq<(String, V)>) -> Seq<(Seq<char>, V)> {
    values.map_values(|p: (String, V)| (p.0@, p.1))
}

spec fn frame_model<V>(f: Frame<V>) -> Scope<V> {
    Scope { values: frame_values(f.values@), enclosing: f.enclosing }
}

impl<V> Environment<V> {
    /// The scopes, by handle.
    pub closed spec fn scopes(&self) -> Seq<Scope<V>> {
        self.frames@.map_values(|f: Frame<V>| frame_model(f))
    }

    /// Each scope is enclosed only by a scope made before it.
    pub closed spec fn wf(&self) -> bool {
        forall|i: int|
            0 <= i < self.frames@.len() ==> match #[trigger] self.frames@[i].enclosing {
                Some(e) => e < i,
                None => true,
            }
    }

    /// An environment with one scope, the global one, of handle 0, which
    /// holds no variable.
    pub fn new() -> (env: Self)
        ensures
            env.wf(),
            env.scopes() == seq![Scope::<V> { values: Seq::empty(), enclosing: None }],
    {
        let mut frames: Vec<Frame<V>> = Vec::new();
        frames.push(Frame { values: Vec::new(), enclosing: None });
        let env = Environment { frames };
        proof {
            assert(frame_values(env.frames@[0].values@) =~= Seq::<(Seq<char>, V)>::empty());
            assert(env.scopes() =~= seq![Scope::<V> { values: Seq::empty(), enclosing: None }]);
        }
        env
    }

    /// The number of scopes; the valid handles are those below it.
    pub fn len(&self) -> (n: usize)
        ensures
            n == self.scopes().len(),
    {
        self.frames.len()
    }

    /// Makes a new scope, with no variable, enclosed by scope `enclosing`;
    /// returns its handle.
    pub fn new_with_enclosing(&mut self, enclosing: usize) -> (at: usize)
        requires
            old(self).wf(),
            enclosing < old(self).scopes().len(),
        ensures
            final(self).wf(),
            at == old(self).scopes().len(),
            final(self).scopes() == old(self).scopes().push(Scope { values: Seq::empty(), enclosing: Some(enclosing) }),
    {
        let at = self.frames.len();
        self.frames.push(Frame { values: Vec::new(), enclosing: Some(enclosing) });
        proof {
            assert(frame_values(self.frames@[at as int].values@) =~= Seq::<(Seq<char>, V)>::empty());
            assert(self.scopes() =~= old(self).scopes().push(Scope { values: Seq::empty(), enclosing: Some(enclosing) }));
        }
        at
    }

    /// Defines `name` as `value` in scope `at`: a variable of that name
    /// there gets the new value, else the variable is added.
    pub fn define(&mut self, at: usize, name: &str, value: V)
        requires
            old(self).wf(),
            at < old(self).scopes().len(),
        ensures
            final(self).wf(),
            final(self).scopes() == set_in(old(self).scopes(), at as int, name@, value),
    {
        let key = String::from_str(name);
        let ghost old_vals = self.frames@[at as int].values@;
        match find_key(&self.frames[at].values, &key) {
            Some(j) => {
                self.frames[at].values.set(j, (key, value));
                proof {
                    assert(frame_values(self.frames@[at as int].values@) =~= frame_values(old_vals).update(j as int, (name@, value)));
                }
            },
            None => {
                self.frames[at].values.push((key, value));
                proof {
                    assert(frame_values(self.frames@[at as int].values@) =~= frame_values(old_vals).push((name@, value)));
                }
            },
        }
        proof {
            assert(self.scopes() =~= set_in(old(self).scopes(), at as int, name@, value));
        }
    }

    /// The value of the variable named by `token`, seen from scope `at`:
    /// from the first scope along the chain that holds it.
    pub fn get(&self, at: usize, token: &Token) -> (r: Result<&V, String>)
        requires
            self.wf(),
            at < self.scopes().len(),
        ensures
            match r {
                Ok(v) => lookup(self.scopes(), at as int, token.lexeme@) == Some(*v),
                Err(m) => lookup(self.scopes(), at as int, token.lexeme@) is None
                    && m@ == undefined_message(token.lexeme@),
            },
    {
        let ghost sc = self.scopes();
        let mut cur = at;
        loop
            invariant
                self.wf(),
                sc == self.scopes(),
                cur < sc.len(),
                holder(sc, at as int, token.lexeme@) == holder(sc, cur as int, token.lexeme@),
            decreases cur,
        {
            match find_key(&self.frames[cur].values, &token.lexeme) {
                Some(j) => {
                    return Ok(&self.frames[cur].values[j].1);
                },
                None => {},
            }
            match self.frames[cur].enclosing {
                Some(e) => {
                    cur = e;
                },
                None => {
                    let mut m = String::from_str("Undefined variable '");
                    push_str(&mut m, token.lexeme.as_str());
                    push_str(&mut m, "'.");
                    return Err(m);
                },
            }
        }
    }

    /// The scope `distance` steps out along the chain from `at`, for a
    /// distance of at least one.
    fn ancestor(&self, at: usize, distance: usize) -> (r: Result<usize, String>)
        requires
            self.wf(),
            at < self.scopes().len(),
            distance >= 1,
        ensures
            match r {
                Ok(k) => k as int == ancestor_of(self.scopes(), at as int, distance as nat) && k < self.scopes().len(),
                Err(m) => ancestor_of(self.scopes(), at as int, distance as nat) == -1
                    && m@ == no_ancestor_message(distance as nat),
            },
    {
        let ghost sc = self.scopes();
        let mut env = self.frames[at].enclosing;
        let mut i: usize = 1;
        while i < distance
            invariant
                self.wf(),
                sc == self.scopes(),
                1 <= i <= distance,
                match env {
                    Some(e) => e < sc.len() && ancestor_of(sc, at as int, distance as nat) == ancestor_of(
                        sc,
                        e as int,
                        (distance - i) as nat,
                    ),
                    None => ancestor_of(sc, at as int, distance as nat) == -1,
                },
            decreases distance - i,
        {
            match env {
                Some(e) => {
                    env = self.frames[e].enclosing;
                },
                None => {
                    let mut m = String::from_str("Cannot find an environment at distance ");
                    push_decimal(&mut m, distance as u64);
                    return Err(m);
                },
            }
            i += 1;
        }
        match env {
            Some(e) => Ok(e),
            None => {
                let mut m = String::from_str("Cannot find an environment at distance ");
                push_decimal(&mut m, distance as u64);
                Err(m)
            },
        }
    }

    /// The value of `name` in the scope `distance` steps out from `at`,
    /// that scope alone.
    pub fn get_at(&self, at: usize, name: &str, distance: usize) -> (r: Result<&V, String>)
        requires
            self.wf(),
            at < self.scopes().len(),
        ensures
            ancestor_of(self.scopes(), at as int, distance as nat) == -1 ==> r == Err::<&V, String>(r->Err_0)
                && r->Err_0@ == no_ancestor_message(distance as nat),
            ancestor_of(self.scopes(), at as int, distance as nat) >= 0 ==> match r {
                Ok(v) => value_in(self.scopes(), ancestor_of(self.scopes(), at as int, distance as nat), name@)
                    == Some(*v),
                Err(m) => value_in(self.scopes(), ancestor_of(self.scopes(), at as int, distance as nat), name@)
                    is None && m@ == undefined_at_message(name@),
            },
    {
        let k = if distance == 0 {
            at
        } else {
            match self.ancestor(at, distance) {
                Ok(k) => k,
                Err(m) => return Err(m),
            }
        };
        let key = String::from_str(name);
        match find_key(&self.frames[k].values, &key) {
            Some(j) => Ok(&self.frames[k].values[j].1),
            None => {
                let mut m = String::from_str("Undefined variable '");
                push_str(&mut m, name);
                push_str(&mut m, "'");
                Err(m)
            },
        }
    }

    /// Gives the variable named by `name` the value `value`, in the first
    /// scope along the chain from `at` that holds it.
    pub fn assign(&mut self, at: usize, name: &Token, value: V) -> (r: Result<(), String>)
        requires
            old(self).wf(),
            at < old(self).scopes().len(),
        ensures
            final(self).wf(),
            match r {
                Ok(_) => holder(old(self).scopes(), at as int, name.lexeme@) >= 0 && final(self).scopes() == set_in(
                    old(self).scopes(),
                    holder(old(self).scopes(), at as int, name.lexeme@),
                    name.lexeme@,
                    value,
                ),
                Err(m) => holder(old(self).scopes(), at as int, name.lexeme@) == -1 && final(self).scopes()
                    == old(self).scopes() && m@ == undefined_message(name.lexeme@),
            },
    {
        let ghost sc = self.scopes();
        let mut cur = at;
        loop
            invariant
                self.wf(),
                sc == self.scopes(),
                self.frames@ == old(self).frames@,
                cur < sc.len(),
                holder(sc, at as int, name.lexeme@) == holder(sc, cur as int, name.lexeme@),
            decreases cur,
        {
            match find_key(&self.frames[cur].values, &name.lexeme) {
                Some(j) => {
                    let ghost old_vals = self.frames@[cur as int].values@;
                    let key = name.lexeme.clone();
                    self.frames[cur].values.set(j, (key, value));
                    proof {
                        lemma_key_index(frame_values(old_vals), name.lexeme@);
                        assert(frame_values(self.frames@[cur as int].values@) =~= frame_values(old_vals).update(
                            j as int,
                            (name.lexeme@, value),
                        ));
                        assert(self.scopes() =~= set_in(sc, cur as int, name.lexeme@, value));
                    }
                    return Ok(());
                },
                None => {},
            }
            match self.frames[cur].enclosing {
                Some(e) => {
                    cur = e;
                },
                None => {
                    let mut m = String::from_str("Undefined variable '");
                    push_str(&mut m, name.lexeme.as_str());
                    push_str(&mut m, "'.");
                    return Err(m);
                },
            }
        }
    }

    /// Gives the variable named by `name` the value `value` in the scope
    /// `distance` steps out from `at`, that scope alone.
    pub fn assign_at(&mut self, at: usize, name: &Token, value: V, distance: usize) -> (r: Result<(), String>)
        requires
            old(self).wf(),
            at < old(self).scopes().len(),
        ensures
            final(self).wf(),
            ({
                let k = ancestor_of(old(self).scopes(), at as int, distance as nat);
                match r {
                    Ok(_) => k >= 0 && value_in(old(self).scopes(), k, name.lexeme@) is Some && final(self).scopes()
                        == set_in(old(self).scopes(), k, name.lexeme@, value),
                    Err(m) => final(self).scopes() == old(self).scopes() && (if k == -1 {
                        m@ == no_ancestor_message(distance as nat)
                    } else {
                        value_in(old(self).scopes(), k, name.lexeme@) is None && m@ == undefined_message(name.lexeme@)
                    }),
                }
            }),
    {
        let k = if distance == 0 {
            at
        } else {
            match self.ancestor(at, distance) {
                Ok(k) => k,
                Err(m) => return Err(m),
            }
        };
        match find_key(&self.frames[k].values, &name.lexeme) {
            Some(j) => {
                let ghost old_vals = self.frames@[k as int].values@;
                let key = name.lexeme.clone();
                self.frames[k].values.set(j, (key, value));
                proof {
                    lemma_key_index(frame_values(old_vals), name.lexeme@);
                    assert(frame_values(self.frames@[k as int].values@) =~= frame_values(old_vals).update(
                        j as int,
                        (name.lexeme@, value),
                    ));
                    assert(self.scopes() =~= set_in(old(self).scopes(), k as int, name.lexeme@, value));
                }
                Ok(())
            },
            None => {
                let mut m = String::from_str("Undefined variable '");
                push_str(&mut m, name.lexeme.as_str());
                push_str(&mut m, "'.");
                Err(m)
            },
        }
    }

}

} // verus!
