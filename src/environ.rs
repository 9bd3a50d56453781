//! The environment of a child: the inherited part of the parent's
//! environment, overridden by the declared variables.

use crate::spec;
use vstd::prelude::*;

verus! {

/// An environment, as (name, value) pairs with distinct names.
pub type Env = Vec<(String, String)>;

/// The map that (name, value) pairs denote; a later pair overrides an earlier
/// one with the same name.
pub open spec fn pairs_map(s: Seq<(String, String)>) -> Map<Seq<char>, Seq<char>>
    decreases s.len(),
{
    if s.len() == 0 {
        Map::empty()
    } else {
        pairs_map(s.drop_last()).insert(s.last().0@, s.last().1@)
    }
}

pub open spec fn distinct_names(s: Seq<(String, String)>) -> bool {
    forall|i: int, j: int| 0 <= i < j < s.len() ==> (#[trigger] s[i]).0@ != (#[trigger] s[j]).0@
}

/// Whether the policy lets a child inherit the variable `name`.
pub open spec fn inherits(inherit: &spec::EnvInherit, name: Seq<char>) -> bool {
    match inherit {
        spec::EnvInherit::Nothing => false,
        spec::EnvInherit::All => true,
        spec::EnvInherit::Vars(v) => exists|i: int| 0 <= i < v@.len() && (#[trigger] v@[i])@ == name,
    }
}

/// The variables of `start` that the policy lets a child inherit.
pub open spec fn inherited_map(start: Seq<(String, String)>, inherit: &spec::EnvInherit) -> Map<Seq<char>, Seq<char>>
    decreases start.len(),
{
    if start.len() == 0 {
        Map::empty()
    } else if inherits(inherit, start.last().0@) {
        inherited_map(start.drop_last(), inherit).insert(start.last().0@, start.last().1@)
    } else {
        inherited_map(start.drop_last(), inherit)
    }
}

proof fn lemma_pairs_map(s: Seq<(String, String)>)
    requires
        distinct_names(s),
    ensures
        forall|k: Seq<char>| #[trigger] pairs_map(s).contains_key(k) <==> exists|i: int| 0 <= i < s.len() && s[i].0@ == k,
        forall|i: int| 0 <= i < s.len() ==> pairs_map(s)[(#[trigger] s[i]).0@] == s[i].1@,
    decreases s.len(),
{
    if s.len() > 0 {
        let t = s.drop_last();
        assert(distinct_names(t)) by {
            assert forall|i: int, j: int| 0 <= i < j < t.len() implies (#[trigger] t[i]).0@ != (#[trigger] t[j]).0@ by {
                assert(t[i] == s[i] && t[j] == s[j]);
            }
        }
        lemma_pairs_map(t);
        assert forall|k: Seq<char>| #[trigger] pairs_map(s).contains_key(k) <==> exists|i: int| 0 <= i < s.len() && s[i].0@ == k by {
            if pairs_map(s).contains_key(k) && k != s.last().0@ {
                assert(pairs_map(t).contains_key(k));
                let i = choose|i: int| 0 <= i < t.len() && t[i].0@ == k;
                assert(s[i].0@ == k);
            }
            if exists|i: int| 0 <= i < s.len() && s[i].0@ == k {
                let i = choose|i: int| 0 <= i < s.len() && s[i].0@ == k;
                if i < s.len() - 1 {
                    assert(t[i].0@ == k);
                }
            }
        }
        assert forall|i: int| 0 <= i < s.len() implies pairs_map(s)[(#[trigger] s[i]).0@] == s[i].1@ by {
            if i < s.len() - 1 {
                assert(t[i] == s[i]);
                assert(s[i].0@ != s[s.len() - 1].0@);
            }
        }
    }
}

/// Sets `name` to `value` in `env`, replacing an earlier value.
fn upsert(env: &mut Env, name: String, value: String)
    requires
        distinct_names(old(env)@),
    ensures
        distinct_names(final(env)@),
        pairs_map(final(env)@) == pairs_map(old(env)@).insert(name@, value@),
{
    let ghost s = env@;
    let ghost m = pairs_map(s);
    let n = env.len();
    let mut i: usize = 0;
    while i < n
        invariant
            n == env@.len(),
            env@ == s,
            s == old(env)@,
            distinct_names(s),
            m == pairs_map(s),
            i <= n,
            forall|j: int| 0 <= j < i ==> (#[trigger] s[j]).0@ != name@,
        decreases n - i,
    {
        if env[i].0 == name {
            let ghost key = name@;
            let ghost val = value@;
            env.set(i, (name, value));
            proof {
                let t = env@;
                lemma_pairs_map(s);
                assert forall|a: int, b: int| 0 <= a < b < t.len() implies (#[trigger] t[a]).0@ != (#[trigger] t[b]).0@ by {
                    assert(t[a].0@ == s[a].0@ && t[b].0@ == s[b].0@);
                }
                lemma_pairs_map(t);
                assert forall|k: Seq<char>| #[trigger] pairs_map(t).contains_key(k) == m.insert(key, val).contains_key(k) by {
                    assert(t[i as int].0@ == key);
                    if m.insert(key, val).contains_key(k) && k != key {
                        let j = choose|j: int| 0 <= j < s.len() && s[j].0@ == k;
                        assert(t[j].0@ == k);
                    }
                    if pairs_map(t).contains_key(k) {
                        let j = choose|j: int| 0 <= j < t.len() && t[j].0@ == k;
                        assert(s[j].0@ == k);
                    }
                }
                assert forall|k: Seq<char>| pairs_map(t).contains_key(k) implies pairs_map(t)[k] == m.insert(key, val)[k] by {
                    let j = choose|j: int| 0 <= j < t.len() && t[j].0@ == k;
                    assert(t[j].0@ == k);
                    if j != i {
                        assert(s[j] == t[j]);
                    }
                }
                assert(pairs_map(t) =~= m.insert(key, val));
            }
            return;
        }
        i = i + 1;
    }
    env.push((name, value));
    proof {
        let t = env@;
        assert(t.drop_last() =~= s);
        assert forall|a: int, b: int| 0 <= a < b < t.len() implies (#[trigger] t[a]).0@ != (#[trigger] t[b]).0@ by {
            if b == t.len() - 1 {
                assert(t[a] == s[a]);
            } else {
                assert(t[a] == s[a] && t[b] == s[b]);
            }
        }
    }
}

/// Whether `v` holds `name`.
fn contains_name(v: &Vec<String>, name: &String) -> (r: bool)
    ensures
        r == exists|i: int| 0 <= i < v@.len() && (#[trigger] v@[i])@ == name@,
{
    let mut i: usize = 0;
    while i < v.len()
        invariant
            i <= v@.len(),
            forall|j: int| 0 <= j < i ==> (#[trigger] v@[j])@ != name@,
        decreases v@.len() - i,
    {
        if v[i] == *name {
            assert(v@[i as int]@ == name@);
            return true;
        }
        i = i + 1;
    }
    false
}

/// Whether the policy lets a child inherit the variable `name`.
fn inherit_allows(inherit: &spec::EnvInherit, name: &String) -> (r: bool)
    ensures
        r == inherits(inherit, name@),
{
    match inherit {
        spec::EnvInherit::Nothing => false,
        spec::EnvInherit::All => true,
        spec::EnvInherit::Vars(v) => contains_name(v, name),
    }
}

/// The environment of a child: the variables of `start_env` that the policy
/// lets it inherit, then the declared variables, which override them.
pub fn build(start_env: Vec<(String, String)>, spec: &spec::Env) -> (r: Env)
    ensures
        distinct_names(r@),
        pairs_map(r@) == inherited_map(start_env@, &spec.inherit).union_prefer_right(pairs_map(spec.vars@)),
{
    let mut env: Env = Vec::new();
    let ghost s0 = start_env@;
    let mut start_env = start_env;
    let n = start_env.len();
    let mut k: usize = 0;
    assert(s0.subrange(0, 0) =~= Seq::<(String, String)>::empty());
    assert(pairs_map(env@) =~= inherited_map(s0.subrange(0, 0), &spec.inherit));
    while k < n
        invariant
            n == s0.len(),
            k <= n,
            start_env@ == s0.subrange(k as int, n as int),
            distinct_names(env@),
            pairs_map(env@) == inherited_map(s0.subrange(0, k as int), &spec.inherit),
        decreases n - k,
    {
        let (name, value) = start_env.remove(0);
        assert((name, value) == s0[k as int]);
        let ghost sk = s0.subrange(0, k + 1);
        assert(sk.drop_last() =~= s0.subrange(0, k as int));
        if inherit_allows(&spec.inherit, &name) {
            upsert(&mut env, name, value);
        }
        assert(start_env@ =~= s0.subrange(k + 1, n as int));
        k = k + 1;
    }
    assert(s0.subrange(0, n as int) =~= s0);
    let ghost base = inherited_map(s0, &spec.inherit);
    let vars = &spec.vars;
    let mut j: usize = 0;
    assert(vars@.subrange(0, 0) =~= Seq::<(String, String)>::empty());
    assert(base.union_prefer_right(pairs_map(vars@.subrange(0, 0))) =~= base);
    while j < vars.len()
        invariant
            j <= vars@.len(),
            distinct_names(env@),
            pairs_map(env@) == base.union_prefer_right(pairs_map(vars@.subrange(0, j as int))),
        decreases vars@.len() - j,
    {
        let name = vars[j].0.clone();
        let value = vars[j].1.clone();
        let ghost vj = vars@.subrange(0, j + 1);
        assert(vj.drop_last() =~= vars@.subrange(0, j as int));
        upsert(&mut env, name, value);
        assert(base.union_prefer_right(pairs_map(vj)) =~= base.union_prefer_right(
            pairs_map(vars@.subrange(0, j as int)),
        ).insert(vars@[j as int].0@, vars@[j as int].1@));
        j = j + 1;
    }
    assert(vars@.subrange(0, vars@.len() as int) =~= vars@);
    env
}

} // verus!
