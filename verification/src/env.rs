//! Chains of variable scopes, as an evaluator keeps them.
use vstd::prelude::*;

verus! {

/// The variables a scope binds, by name. Where a name were bound twice, the
/// map would hold one of its values; a well-formed scope binds each name once.
pub open spec fn scope_of<V>(vars: Seq<(String, V)>) -> Map<Seq<char>, V> {
    Map::new(
        |k: Seq<char>| exists|i: int| 0 <= i < vars.len() && vars[i].0@ == k,
        |k: Seq<char>| vars[choose|i: int| 0 <= i < vars.len() && vars[i].0@ == k].1,
    )
}

/// No name is bound twice.
pub open spec fn distinct_names<V>(vars: Seq<(String, V)>) -> bool {
    forall|i: int, j: int| 0 <= i < j < vars.len() ==> vars[i].0@ != vars[j].0@
}

/// The value a name has in a chain of scopes, innermost first: the binding
/// of the first scope that binds it.
pub open spec fn lookup<V>(scopes: Seq<Map<Seq<char>, V>>, name: Seq<char>) -> Option<V>
    decreases scopes.len(),
{
    if scopes.len() == 0 {
        None
    } else if scopes[0].contains_key(name) {
        Some(scopes[0][name])
    } else {
        lookup(scopes.drop_first(), name)
    }
}

/// Defining a name: a name bound in the innermost scope is rebound there; one
/// bound in the scope just outside it (but not in the innermost) is rebound
/// there; any other name is bound in the innermost scope.
pub open spec fn define_in<V>(scopes: Seq<Map<Seq<char>, V>>, name: Seq<char>, value: V) -> Seq<
    Map<Seq<char>, V>,
> {
    if !scopes[0].contains_key(name) && scopes.len() > 1 && scopes[1].contains_key(name) {
        scopes.update(1, scopes[1].insert(name, value))
    } else {
        scopes.update(0, scopes[0].insert(name, value))
    }
}

/// Assigning to a name: the innermost scope that binds it is rebound; `None`
/// where no scope binds it.
pub open spec fn assign_in<V>(scopes: Seq<Map<Seq<char>, V>>, name: Seq<char>, value: V) -> Option<
    Seq<Map<Seq<char>, V>>,
>
    decreases scopes.len(),
{
    if scopes.len() == 0 {
        None
    } else if scopes[0].contains_key(name) {
        Some(scopes.update(0, scopes[0].insert(name, value)))
    } else {
        match assign_in(scopes.drop_first(), name, value) {
            Some(rest) => Some(seq![scopes[0]] + rest),
            None => None,
        }
    }
}

/// `b` holds the names of `a`, scope by scope, each bound to a clone of its value in `a`.
pub open spec fn scopes_cloned<V: Clone>(
    a: Seq<Map<Seq<char>, V>>,
    b: Seq<Map<Seq<char>, V>>,
) -> bool {
    &&& a.len() == b.len()
    &&& forall|i: int| 0 <= i < a.len() ==> #[trigger] b[i].dom() == a[i].dom()
    &&& forall|i: int, k: Seq<char>|
        0 <= i < a.len() && #[trigger] a[i].contains_key(k) ==> cloned(a[i][k], b[i][k])
}

/// A chain of variable scopes: the innermost scope's bindings and the scope around it.
pub struct Env<V> {
    parent: Option<Box<Env<V>>>,
    vars: Vec<(String, V)>,
}

pub closed spec fn env_scopes<V>(e: Env<V>) -> Seq<Map<Seq<char>, V>>
    decreases e,
{
    seq![scope_of(e.vars@)] + match e.parent {
        Some(p) => env_scopes(*p),
        None => Seq::empty(),
    }
}

pub closed spec fn env_wf<V>(e: Env<V>) -> bool
    decreases e,
{
    &&& distinct_names(e.vars@)
    &&& match e.parent {
        Some(p) => env_wf(*p),
        None => true,
    }
}

impl<V> View for Env<V> {
    type V = Seq<Map<Seq<char>, V>>;

    closed spec fn view(&self) -> Seq<Map<Seq<char>, V>> {
        env_scopes(*self)
    }
}

proof fn lemma_scope_of_at<V>(vars: Seq<(String, V)>, i: int)
    requires
        distinct_names(vars),
        0 <= i < vars.len(),
    ensures
        scope_of(vars).contains_key(vars[i].0@),
        scope_of(vars)[vars[i].0@] == vars[i].1,
{
    let k = vars[i].0@;
    assert(scope_of(vars).contains_key(k));
    let j = choose|j: int| 0 <= j < vars.len() && vars[j].0@ == k;
    assert(j == i);
}

proof fn lemma_scope_of_set<V>(vars: Seq<(String, V)>, i: int, name: String, value: V)
    requires
        distinct_names(vars),
        0 <= i < vars.len(),
        vars[i].0@ == name@,
    ensures
        distinct_names(vars.update(i, (name, value))),
        scope_of(vars.update(i, (name, value))) == scope_of(vars).insert(name@, value),
{
    let w = vars.update(i, (name, value));
    assert(distinct_names(w));
    assert forall|k: Seq<char>| #[trigger]
        scope_of(w).contains_key(k) == scope_of(vars).insert(name@, value).contains_key(k) by {
        if scope_of(vars).contains_key(k) {
            let j = choose|j: int| 0 <= j < vars.len() && vars[j].0@ == k;
            assert(w[j].0@ == k);
        }
        if scope_of(w).contains_key(k) {
            let j = choose|j: int| 0 <= j < w.len() && w[j].0@ == k;
            assert(vars[j].0@ == k);
        }
    }
    assert forall|k: Seq<char>| #[trigger] scope_of(w).contains_key(k) implies scope_of(w)[k]
        == scope_of(vars).insert(name@, value)[k] by {
        let j = choose|j: int| 0 <= j < w.len() && w[j].0@ == k;
        lemma_scope_of_at(w, j);
        if k != name@ {
            lemma_scope_of_at(vars, j);
        }
    }
    assert(scope_of(w) =~= scope_of(vars).insert(name@, value));
}

proof fn lemma_scope_of_push<V>(vars: Seq<(String, V)>, name: String, value: V)
    requires
        distinct_names(vars),
        !scope_of(vars).contains_key(name@),
    ensures
        distinct_names(vars.push((name, value))),
        scope_of(vars.push((name, value))) == scope_of(vars).insert(name@, value),
{
    let w = vars.push((name, value));
    assert forall|i: int| 0 <= i < vars.len() implies vars[i].0@ != name@ by {
        if vars[i].0@ == name@ {
            assert(scope_of(vars).contains_key(name@));
        }
    }
    assert(distinct_names(w));
    assert forall|k: Seq<char>| #[trigger]
        scope_of(w).contains_key(k) == scope_of(vars).insert(name@, value).contains_key(k) by {
        if scope_of(vars).contains_key(k) {
            let j = choose|j: int| 0 <= j < vars.len() && vars[j].0@ == k;
            assert(w[j].0@ == k);
        }
        if k == name@ {
            assert(w[vars.len() as int].0@ == k);
        }
        if scope_of(w).contains_key(k) {
            let j = choose|j: int| 0 <= j < w.len() && w[j].0@ == k;
            if j < vars.len() {
                assert(vars[j].0@ == k);
            }
        }
    }
    assert forall|k: Seq<char>| #[trigger] scope_of(w).contains_key(k) implies scope_of(w)[k]
        == scope_of(vars).insert(name@, value)[k] by {
        let j = choose|j: int| 0 <= j < w.len() && w[j].0@ == k;
        lemma_scope_of_at(w, j);
        if j < vars.len() {
            lemma_scope_of_at(vars, j);
        }
    }
    assert(scope_of(w) =~= scope_of(vars).insert(name@, value));
}

/// The index of the binding of `name`, if `vars` binds it.
fn find<V>(vars: &Vec<(String, V)>, name: &String) -> (r: Option<usize>)
    ensures
        match r {
            Some(i) => i < vars@.len() && vars@[i as int].0@ == name@,
            None => !scope_of(vars@).contains_key(name@),
        },
{
    let mut i: usize = 0;
    while i < vars.len()
        invariant
            0 <= i <= vars@.len(),
            forall|j: int| 0 <= j < i ==> vars@[j].0@ != name@,
        decreases vars@.len() - i,
    {
        if vars[i].0 == *name {
            return Some(i);
        }
        i = i + 1;
    }
    proof {
        if scope_of(vars@).contains_key(name@) {
            let j = choose|j: int| 0 <= j < vars@.len() && vars@[j].0@ == name@;
            assert(vars@[j].0@ == name@);
        }
    }
    None
}

impl<V> Env<V> {
    /// Well-formed: no scope binds a name twice.
    pub closed spec fn wf(&self) -> bool {
        env_wf(*self)
    }

    /// An environment of one empty scope.
    pub fn new() -> (r: Env<V>)
        ensures
            r.wf(),
            r@ == seq![Map::<Seq<char>, V>::empty()],
    {
        let r = Env { parent: None, vars: Vec::new() };
        proof {
            assert(scope_of(r.vars@) =~= Map::<Seq<char>, V>::empty());
            assert(r@ =~= seq![Map::<Seq<char>, V>::empty()]);
        }
        r
    }

    /// Binds `name` to `value`: where the innermost scope binds it, there;
    /// else where the scope just around binds it, there; else in the innermost
    /// scope. Afterwards `name` has `value`, and every other name keeps its value.
    pub fn define(&mut self, name: String, value: V)
        requires
            old(self).wf(),
        ensures
            final(self).wf(),
            final(self)@ == define_in(old(self)@, name@, value),
            lookup(final(self)@, name@) == Some(value),
            forall|other: Seq<char>|
                other != name@ ==> #[trigger] lookup(final(self)@, other) == lookup(
                    old(self)@,
                    other,
                ),
    {
        let ghost s0 = self@;
        let ghost key = name@;
        self.bind(name, value);
        proof {
            lemma_env_nonempty(&*self);
            law_define_then_lookup(s0, key, value);
            assert forall|other: Seq<char>| other != key implies #[trigger] lookup(self@, other)
                == lookup(s0, other) by {
                law_define_keeps_other_names(s0, key, value, other);
            }
        }
    }

    fn bind(&mut self, name: String, value: V)
        requires
            old(self).wf(),
        ensures
            final(self).wf(),
            final(self)@ == define_in(old(self)@, name@, value),
    {
        let ghost s0 = self@;
        proof {
            assert(s0[0] == scope_of(self.vars@));
        }
        match find(&self.vars, &name) {
            Some(i) => {
                proof {
                    lemma_scope_of_at(self.vars@, i as int);
                    lemma_scope_of_set(self.vars@, i as int, name, value);
                }
                self.vars.set(i, (name, value));
                proof {
                    assert(self@ =~= define_in(s0, name@, value));
                }
                return ;
            },
            None => {},
        }
        let mut parent = self.parent.take();
        match parent {
            Some(mut p) => {
                let ghost ps = p@;
                proof {
                    assert(env_wf(*p));
                    assert(distinct_names(p.vars@));
                    assert(ps[0] == scope_of(p.vars@));
                }
                match find(&p.vars, &name) {
                    Some(i) => {
                        proof {
                            lemma_scope_of_at(p.vars@, i as int);
                            lemma_scope_of_set(p.vars@, i as int, name, value);
                        }
                        p.vars.set(i, (name, value));
                        proof {
                            assert(p@ =~= ps.update(0, ps[0].insert(name@, value)));
                            assert(env_wf(*p));
                        }
                        self.parent = Some(p);
                        proof {
                            assert(self@ =~= define_in(s0, name@, value));
                        }
                        return ;
                    },
                    None => {
                        self.parent = Some(p);
                    },
                }
            },
            None => {},
        }
        proof {
            lemma_scope_of_push(self.vars@, name, value);
        }
        self.vars.push((name, value));
        proof {
            assert(self@ =~= define_in(s0, name@, value));
        }
    }
}


proof fn lemma_scope_of_cloned<V: Clone>(v: Seq<(String, V)>, w: Seq<(String, V)>)
    requires
        distinct_names(v),
        w.len() == v.len(),
        forall|i: int| 0 <= i < v.len() ==> #[trigger] w[i].0@ == v[i].0@,
        forall|i: int| 0 <= i < v.len() ==> cloned(v[i].1, #[trigger] w[i].1),
    ensures
        distinct_names(w),
        scope_of(w).dom() == scope_of(v).dom(),
        forall|k: Seq<char>| #[trigger]
            scope_of(v).contains_key(k) ==> cloned(scope_of(v)[k], scope_of(w)[k]),
{
    assert forall|i: int, j: int| 0 <= i < j < w.len() implies w[i].0@ != w[j].0@ by {
        assert(w[i].0@ == v[i].0@);
        assert(w[j].0@ == v[j].0@);
    }
    assert forall|k: Seq<char>| #[trigger]
        scope_of(w).contains_key(k) == scope_of(v).contains_key(k) by {
        if scope_of(v).contains_key(k) {
            let j = choose|j: int| 0 <= j < v.len() && v[j].0@ == k;
            assert(w[j].0@ == k);
        }
        if scope_of(w).contains_key(k) {
            let j = choose|j: int| 0 <= j < w.len() && w[j].0@ == k;
            assert(v[j].0@ == k);
        }
    }
    assert(scope_of(w).dom() =~= scope_of(v).dom());
    assert forall|k: Seq<char>| #[trigger] scope_of(v).contains_key(k) implies cloned(
        scope_of(v)[k],
        scope_of(w)[k],
    ) by {
        let j = choose|j: int| 0 <= j < v.len() && v[j].0@ == k;
        lemma_scope_of_at(v, j);
        assert(w[j].0@ == k);
        lemma_scope_of_at(w, j);
    }
}

impl<V> Env<V> {
    fn get_key(&self, key: &String) -> (r: Option<V>) where V: Clone
        requires
            self.wf(),
        ensures
            r is Some == lookup(self@, key@) is Some,
            r matches Some(v) ==> cloned(lookup(self@, key@)->0, v),
        decreases self,
    {
        proof {
            assert(self@[0] == scope_of(self.vars@));
            assert(self@.drop_first() =~= match self.parent {
                Some(p) => env_scopes(*p),
                None => Seq::empty(),
            });
        }
        match find(&self.vars, key) {
            Some(i) => {
                proof {
                    lemma_scope_of_at(self.vars@, i as int);
                }
                return Some(self.vars[i].1.clone());
            },
            None => {},
        }
        match &self.parent {
            Some(p) => {
                proof {
                    assert(self@.drop_first() == p@);
                    assert(lookup(self@, key@) == lookup(p@, key@));
                }
                p.get_key(key)
            },
            None => {
                proof {
                    assert(lookup(self@.drop_first(), key@) is None);
                }
                None
            },
        }
    }

    /// A clone of the value of `name` in the innermost scope that binds it;
    /// `None` where no scope binds it.
    pub fn get(&self, name: &str) -> (r: Option<V>) where V: Clone
        requires
            self.wf(),
        ensures
            r is Some == lookup(self@, name@) is Some,
            r matches Some(v) ==> cloned(lookup(self@, name@)->0, v),
    {
        let key = name.to_owned();
        self.get_key(&key)
    }

    fn set_key(&mut self, key: String, value: V) -> (r: bool)
        requires
            old(self).wf(),
        ensures
            final(self).wf(),
            r == assign_in(old(self)@, key@, value) is Some,
            r ==> final(self)@ == assign_in(old(self)@, key@, value)->0,
            !r ==> final(self)@ == old(self)@,
        decreases old(self)@.len(),
    {
        let ghost s0 = self@;
        proof {
            assert(s0[0] == scope_of(self.vars@));
            assert(s0.drop_first() =~= match self.parent {
                Some(p) => env_scopes(*p),
                None => Seq::empty(),
            });
        }
        match find(&self.vars, &key) {
            Some(i) => {
                proof {
                    lemma_scope_of_at(self.vars@, i as int);
                    lemma_scope_of_set(self.vars@, i as int, key, value);
                }
                self.vars.set(i, (key, value));
                proof {
                    assert(self@ =~= assign_in(s0, key@, value)->0);
                }
                return true;
            },
            None => {},
        }
        let mut parent = self.parent.take();
        match parent {
            Some(mut p) => {
                proof {
                    assert(env_wf(*p));
                }
                let ghost ps = p@;
                let r = p.set_key(key, value);
                proof {
                    assert(env_wf(*p));
                }
                self.parent = Some(p);
                proof {
                    assert(s0.drop_first() == ps);
                    assert(assign_in(s0, key@, value) == match assign_in(ps, key@, value) {
                        Some(rest) => Some(seq![s0[0]] + rest),
                        None => None,
                    });
                    if r {
                        assert(self@ =~= seq![s0[0]] + assign_in(ps, key@, value)->0);
                    } else {
                        assert(self@ =~= s0);
                    }
                }
                r
            },
            None => {
                proof {
                    assert(self@ =~= s0);
                    assert(assign_in(s0.drop_first(), key@, value) is None);
                }
                false
            },
        }
    }

    /// Assigns `value` to `name` in the innermost scope that binds it, and
    /// tells whether one does; where none does, nothing changes.
    pub fn set(&mut self, name: &str, value: V) -> (r: bool)
        requires
            old(self).wf(),
        ensures
            final(self).wf(),
            r == assign_in(old(self)@, name@, value) is Some,
            r ==> final(self)@ == assign_in(old(self)@, name@, value)->0,
            !r ==> final(self)@ == old(self)@,
    {
        let key = name.to_owned();
        self.set_key(key, value)
    }

    fn deep_clone(&self) -> (r: Env<V>) where V: Clone
        ensures
            self.wf() ==> r.wf() && scopes_cloned(self@, r@),
        decreases self,
    {
        let mut vars: Vec<(String, V)> = Vec::new();
        let mut i: usize = 0;
        while i < self.vars.len()
            invariant
                0 <= i <= self.vars@.len(),
                vars@.len() == i,
                forall|j: int| 0 <= j < i ==> #[trigger] vars@[j].0@ == self.vars@[j].0@,
                forall|j: int| 0 <= j < i ==> cloned(self.vars@[j].1, #[trigger] vars@[j].1),
            decreases self.vars@.len() - i,
        {
            let entry = (self.vars[i].0.clone(), self.vars[i].1.clone());
            vars.push(entry);
            i = i + 1;
        }
        proof {
            if self.wf() {
                lemma_scope_of_cloned(self.vars@, vars@);
            }
        }
        let parent = match &self.parent {
            Some(p) => Some(Box::new(p.deep_clone())),
            None => None,
        };
        let r = Env { parent, vars };
        proof {
            if self.wf() {
            let a = self@;
            let b = r@;
            assert(a[0] == scope_of(self.vars@));
            assert(b[0] == scope_of(r.vars@));
            match (&self.parent, &r.parent) {
                (Some(p), Some(q)) => {
                    assert(a.drop_first() =~= env_scopes(**p));
                    assert(b.drop_first() =~= env_scopes(**q));
                    assert forall|i: int| 0 < i < a.len() implies #[trigger] b[i].dom() == a[i].dom() by {
                        assert(a[i] == a.drop_first()[i - 1]);
                        assert(b[i] == b.drop_first()[i - 1]);
                    }
                    assert forall|i: int, k: Seq<char>|
                        0 < i < a.len() && #[trigger] a[i].contains_key(k) implies cloned(a[i][k], b[i][k]) by {
                        assert(a[i] == a.drop_first()[i - 1]);
                        assert(b[i] == b.drop_first()[i - 1]);
                    }
                },
                _ => {
                    assert(a.len() == 1);
                    assert(b.len() == 1);
                },
            }
            }
        }
        r
    }

    /// A new innermost scope, empty, around a clone of this environment.
    pub fn child(&mut self) -> (r: Env<V>) where V: Clone
        requires
            old(self).wf(),
        ensures
            *final(self) == *old(self),
            r.wf(),
            r@.len() == old(self)@.len() + 1,
            r@[0] == Map::<Seq<char>, V>::empty(),
            scopes_cloned(old(self)@, r@.drop_first()),
    {
        let copy = self.deep_clone();
        let r = Env { parent: Some(Box::new(copy)), vars: Vec::new() };
        proof {
            assert(scope_of(r.vars@) =~= Map::<Seq<char>, V>::empty());
            assert(r@.drop_first() =~= copy@);
        }
        r
    }
}

impl<V: Clone> Clone for Env<V> {
    /// A copy of every scope, with each value cloned.
    fn clone(&self) -> (r: Self)
        ensures
            self.wf() ==> r.wf() && scopes_cloned(self@, r@),
    {
        self.deep_clone()
    }
}

/// Every environment has at least its innermost scope.
pub proof fn lemma_env_nonempty<V>(e: &Env<V>)
    ensures
        e@.len() >= 1,
{
    assert(env_scopes(*e)[0] == scope_of(e.vars@));
}

/// A fresh environment binds no name.
pub proof fn law_new_binds_nothing<V>(name: Seq<char>)
    ensures
        lookup(seq![Map::<Seq<char>, V>::empty()], name) is None,
{
    let s = seq![Map::<Seq<char>, V>::empty()];
    assert(s.drop_first() =~= Seq::<Map<Seq<char>, V>>::empty());
    assert(lookup(s.drop_first(), name) is None);
    assert(lookup(s, name) == lookup(s.drop_first(), name));
}

/// After a name is defined, looking it up gives the value it was defined with.
pub proof fn law_define_then_lookup<V>(scopes: Seq<Map<Seq<char>, V>>, name: Seq<char>, value: V)
    requires
        scopes.len() >= 1,
    ensures
        lookup(define_in(scopes, name, value), name) == Some(value),
{
    let t = define_in(scopes, name, value);
    if !scopes[0].contains_key(name) && scopes.len() > 1 && scopes[1].contains_key(name) {
        assert(t.drop_first()[0] == scopes[1].insert(name, value));
        assert(lookup(t.drop_first(), name) == Some(value));
        assert(lookup(t, name) == lookup(t.drop_first(), name));
    }
}

/// Defining a name leaves the value of every other name as it was.
pub proof fn law_define_keeps_other_names<V>(
    scopes: Seq<Map<Seq<char>, V>>,
    name: Seq<char>,
    value: V,
    other: Seq<char>,
)
    requires
        scopes.len() >= 1,
        other != name,
    ensures
        lookup(define_in(scopes, name, value), other) == lookup(scopes, other),
{
    let t = define_in(scopes, name, value);
    assert(t[0].contains_key(other) == scopes[0].contains_key(other));
    if !scopes[0].contains_key(other) {
        if !scopes[0].contains_key(name) && scopes.len() > 1 && scopes[1].contains_key(name) {
            let a = scopes.drop_first();
            let b = t.drop_first();
            assert(b[0].contains_key(other) == a[0].contains_key(other));
            if !a[0].contains_key(other) {
                assert(b.drop_first() =~= a.drop_first());
                assert(lookup(b, other) == lookup(b.drop_first(), other));
                assert(lookup(a, other) == lookup(a.drop_first(), other));
            } else {
                assert(b[0][other] == a[0][other]);
                assert(lookup(b, other) == lookup(a, other));
            }
            assert(lookup(b, other) == lookup(a, other));
        } else {
            assert(t.drop_first() =~= scopes.drop_first());
        }
        assert(lookup(t, other) == lookup(t.drop_first(), other));
    }
}

/// Assignment succeeds exactly where the name is bound, and afterwards the
/// name has the assigned value.
pub proof fn law_assign_then_lookup<V>(scopes: Seq<Map<Seq<char>, V>>, name: Seq<char>, value: V)
    ensures
        assign_in(scopes, name, value) is Some == lookup(scopes, name) is Some,
        assign_in(scopes, name, value) matches Some(t) ==> lookup(t, name) == Some(value),
    decreases scopes.len(),
{
    if scopes.len() > 0 && !scopes[0].contains_key(name) {
        law_assign_then_lookup(scopes.drop_first(), name, value);
        if let Some(rest) = assign_in(scopes.drop_first(), name, value) {
            let t = seq![scopes[0]] + rest;
            assert(t.drop_first() =~= rest);
        }
    }
}

/// A child environment sees what its parent sees: the same names, each
/// bound to a clone of the parent's value.
pub proof fn law_child_sees_parent<V: Clone>(
    parent: Seq<Map<Seq<char>, V>>,
    child: Seq<Map<Seq<char>, V>>,
    name: Seq<char>,
)
    requires
        child.len() == parent.len() + 1,
        child[0] == Map::<Seq<char>, V>::empty(),
        scopes_cloned(parent, child.drop_first()),
    ensures
        lookup(child, name) is Some == lookup(parent, name) is Some,
        lookup(parent, name) is Some ==> cloned(lookup(parent, name)->0, lookup(child, name)->0),
{
    lemma_lookup_cloned(parent, child.drop_first(), name);
}

proof fn lemma_lookup_cloned<V: Clone>(
    a: Seq<Map<Seq<char>, V>>,
    b: Seq<Map<Seq<char>, V>>,
    name: Seq<char>,
)
    requires
        scopes_cloned(a, b),
    ensures
        lookup(b, name) is Some == lookup(a, name) is Some,
        lookup(a, name) is Some ==> cloned(lookup(a, name)->0, lookup(b, name)->0),
    decreases a.len(),
{
    if a.len() > 0 {
        assert(b[0].dom() == a[0].dom());
        if !a[0].contains_key(name) {
            assert(!b[0].contains_key(name));
            let a1 = a.drop_first();
            let b1 = b.drop_first();
            assert forall|i: int| 0 <= i < a1.len() implies #[trigger] b1[i].dom() == a1[i].dom() by {
                assert(b1[i] == b[i + 1]);
                assert(a1[i] == a[i + 1]);
            }
            assert forall|i: int, k: Seq<char>|
                0 <= i < a1.len() && #[trigger] a1[i].contains_key(k) implies cloned(
                a1[i][k],
                b1[i][k],
            ) by {
                assert(b1[i] == b[i + 1]);
                assert(a1[i] == a[i + 1]);
            }
            lemma_lookup_cloned(a1, b1, name);
        }
    }
}
/// Looking a name up finds the innermost scope that binds it.
pub proof fn law_lookup_innermost<V>(scopes: Seq<Map<Seq<char>, V>>, name: Seq<char>, i: int)
    requires
        0 <= i < scopes.len(),
        scopes[i].contains_key(name),
        forall|j: int| 0 <= j < i ==> !(#[trigger] scopes[j].contains_key(name)),
    ensures
        lookup(scopes, name) == Some(scopes[i][name]),
    decreases i,
{
    if i > 0 {
        let rest = scopes.drop_first();
        assert forall|j: int| 0 <= j < i - 1 implies !(#[trigger] rest[j].contains_key(name)) by {
            assert(rest[j] == scopes[j + 1]);
        }
        assert(!scopes[0].contains_key(name));
        law_lookup_innermost(rest, name, i - 1);
    }
}

/// A name bound nowhere is looked up as `None`.
pub proof fn law_lookup_unbound<V>(scopes: Seq<Map<Seq<char>, V>>, name: Seq<char>)
    requires
        forall|j: int| 0 <= j < scopes.len() ==> !(#[trigger] scopes[j].contains_key(name)),
    ensures
        lookup(scopes, name) is None,
    decreases scopes.len(),
{
    if scopes.len() > 0 {
        let rest = scopes.drop_first();
        assert forall|j: int| 0 <= j < rest.len() implies !(#[trigger] rest[j].contains_key(name)) by {
            assert(rest[j] == scopes[j + 1]);
        }
        assert(!scopes[0].contains_key(name));
        law_lookup_unbound(rest, name);
    }
}

/// Defining a name changes one scope and keeps the number of scopes: the
/// scope just around the innermost one when it alone of the two binds the
/// name, the innermost one otherwise.
pub proof fn law_define_scope<V>(scopes: Seq<Map<Seq<char>, V>>, name: Seq<char>, value: V)
    requires
        scopes.len() >= 1,
    ensures
        define_in(scopes, name, value).len() == scopes.len(),
        !scopes[0].contains_key(name) && scopes.len() > 1 && scopes[1].contains_key(name) ==> {
            &&& define_in(scopes, name, value)[1] == scopes[1].insert(name, value)
            &&& forall|j: int|
                0 <= j < scopes.len() && j != 1 ==> #[trigger] define_in(scopes, name, value)[j]
                    == scopes[j]
        },
        !(!scopes[0].contains_key(name) && scopes.len() > 1 && scopes[1].contains_key(name))
            ==> {
            &&& define_in(scopes, name, value)[0] == scopes[0].insert(name, value)
            &&& forall|j: int|
                0 < j < scopes.len() ==> #[trigger] define_in(scopes, name, value)[j] == scopes[j]
        },
{
}

/// Assigning to a name changes only the innermost scope that binds it, and
/// leaves every other name's value as it was.
pub proof fn law_assign_keeps_other_names<V>(
    scopes: Seq<Map<Seq<char>, V>>,
    name: Seq<char>,
    value: V,
    other: Seq<char>,
)
    requires
        other != name,
    ensures
        assign_in(scopes, name, value) matches Some(t) ==> t.len() == scopes.len() && lookup(
            t,
            other,
        ) == lookup(scopes, other),
    decreases scopes.len(),
{
    if scopes.len() > 0 {
        if scopes[0].contains_key(name) {
            let t = scopes.update(0, scopes[0].insert(name, value));
            assert(t[0].contains_key(other) == scopes[0].contains_key(other));
            if !scopes[0].contains_key(other) {
                assert(t.drop_first() =~= scopes.drop_first());
            }
        } else {
            law_assign_keeps_other_names(scopes.drop_first(), name, value, other);
            if let Some(rest) = assign_in(scopes.drop_first(), name, value) {
                let t = seq![scopes[0]] + rest;
                assert(t.drop_first() =~= rest);
                assert(t[0] == scopes[0]);
            }
        }
    }
}

} // verus!
