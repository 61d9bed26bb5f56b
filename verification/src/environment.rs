//! The environment of a script: a mapping from variable names to values,
//! held as a list in which no name occurs twice.

use vstd::prelude::*;
use crate::bytes::bytes_eq;
use crate::headers::Pair;

verus! {

/// Whether no two pairs of `ps` have the same key.
pub open spec fn distinct_keys(ps: Seq<(Seq<u8>, Seq<u8>)>) -> bool {
    forall|i: int, j: int| 0 <= i < j < ps.len() ==> (#[trigger] ps[i]).0 != (#[trigger] ps[j]).0
}

/// Whether a pair of `ps` has the key `k`.
pub open spec fn has_key(ps: Seq<(Seq<u8>, Seq<u8>)>, k: Seq<u8>) -> bool {
    exists|i: int| 0 <= i < ps.len() && (#[trigger] ps[i]).0 == k
}

/// The value that goes with the key `k` in `ps`.
pub open spec fn value_of(ps: Seq<(Seq<u8>, Seq<u8>)>, k: Seq<u8>) -> Seq<u8> {
    ps[choose|i: int| 0 <= i < ps.len() && (#[trigger] ps[i]).0 == k].1
}

/// The mapping that a list of pairs with distinct keys stands for.
pub open spec fn as_map(ps: Seq<(Seq<u8>, Seq<u8>)>) -> Map<Seq<u8>, Seq<u8>> {
    Map::new(|k: Seq<u8>| has_key(ps, k), |k: Seq<u8>| value_of(ps, k))
}

/// In a list with distinct keys, the value of a key is that of the pair
/// which holds the key.
pub proof fn lemma_value_at(ps: Seq<(Seq<u8>, Seq<u8>)>, i: int)
    requires
        distinct_keys(ps),
        0 <= i < ps.len(),
    ensures
        has_key(ps, ps[i].0),
        value_of(ps, ps[i].0) == ps[i].1,
{
    let k = ps[i].0;
    let j = choose|j: int| 0 <= j < ps.len() && (#[trigger] ps[j]).0 == k;
    assert(j == i);
}

/// Replacing the value of a key that is there changes the mapping at that
/// key alone.
pub proof fn lemma_as_map_update(ps: Seq<(Seq<u8>, Seq<u8>)>, i: int, v: Seq<u8>)
    requires
        distinct_keys(ps),
        0 <= i < ps.len(),
    ensures
        distinct_keys(ps.update(i, (ps[i].0, v))),
        as_map(ps.update(i, (ps[i].0, v))) == as_map(ps).insert(ps[i].0, v),
{
    let k = ps[i].0;
    let qs = ps.update(i, (k, v));
    assert(distinct_keys(qs)) by {
        assert forall|a: int, b: int| 0 <= a < b < qs.len() implies (#[trigger] qs[a]).0 != (
        #[trigger] qs[b]).0 by {
            assert(qs[a].0 == ps[a].0);
            assert(qs[b].0 == ps[b].0);
        }
    }
    assert forall|key: Seq<u8>| has_key(qs, key) == (#[trigger] has_key(ps, key)) by {
        if has_key(qs, key) {
            let j = choose|j: int| 0 <= j < qs.len() && (#[trigger] qs[j]).0 == key;
            assert(ps[j].0 == key);
        }
        if has_key(ps, key) {
            let j = choose|j: int| 0 <= j < ps.len() && (#[trigger] ps[j]).0 == key;
            assert(qs[j].0 == key);
        }
    }
    assert forall|key: Seq<u8>| has_key(qs, key) implies #[trigger] value_of(qs, key) == (if key
        == k {
        v
    } else {
        value_of(ps, key)
    }) by {
        let j = choose|j: int| 0 <= j < qs.len() && (#[trigger] qs[j]).0 == key;
        lemma_value_at(qs, j);
        if key != k {
            assert(ps[j].0 == key);
            lemma_value_at(ps, j);
        } else {
            assert(qs[i].0 == k);
            assert(j == i);
        }
    }
    lemma_value_at(ps, i);
    assert(as_map(qs) =~= as_map(ps).insert(k, v));
}

/// Adding a pair with a new key extends the mapping by that key.
pub proof fn lemma_as_map_push(ps: Seq<(Seq<u8>, Seq<u8>)>, k: Seq<u8>, v: Seq<u8>)
    requires
        distinct_keys(ps),
        !has_key(ps, k),
    ensures
        distinct_keys(ps.push((k, v))),
        as_map(ps.push((k, v))) == as_map(ps).insert(k, v),
{
    let qs = ps.push((k, v));
    assert(distinct_keys(qs)) by {
        assert forall|a: int, b: int| 0 <= a < b < qs.len() implies (#[trigger] qs[a]).0 != (
        #[trigger] qs[b]).0 by {
            assert(qs[a] == ps[a]);
            if b < ps.len() {
                assert(qs[b] == ps[b]);
            }
        }
    }
    assert forall|key: Seq<u8>| #[trigger] has_key(qs, key) == (key == k || has_key(ps, key)) by {
        if has_key(qs, key) {
            let j = choose|j: int| 0 <= j < qs.len() && (#[trigger] qs[j]).0 == key;
            if j < ps.len() {
                assert(ps[j].0 == key);
            }
        }
        if has_key(ps, key) {
            let j = choose|j: int| 0 <= j < ps.len() && (#[trigger] ps[j]).0 == key;
            assert(qs[j].0 == key);
        }
        if key == k {
            assert(qs[ps.len() as int].0 == key);
        }
    }
    assert forall|key: Seq<u8>| has_key(qs, key) implies #[trigger] value_of(qs, key) == (if key
        == k {
        v
    } else {
        value_of(ps, key)
    }) by {
        let j = choose|j: int| 0 <= j < qs.len() && (#[trigger] qs[j]).0 == key;
        lemma_value_at(qs, j);
        if key != k {
            assert(ps[j].0 == key);
            lemma_value_at(ps, j);
        } else {
            lemma_value_at(qs, ps.len() as int);
        }
    }
    assert(as_map(qs) =~= as_map(ps).insert(k, v));
}

/// Finds the pair of `vars` whose key is `key`.
fn position(vars: &Vec<Pair>, key: &[u8]) -> (r: Option<usize>)
    ensures
        match r {
            Some(i) => i < vars.len() && vars.deep_view()[i as int].0 == key@,
            None => !has_key(vars.deep_view(), key@),
        },
{
    let mut i: usize = 0;
    while i < vars.len()
        invariant
            i <= vars.len(),
            forall|j: int| 0 <= j < i ==> (#[trigger] vars.deep_view()[j]).0 != key@,
        decreases vars.len() - i,
    {
        assert(vars.deep_view()[i as int] == vars@[i as int]@);
        if bytes_eq(vars[i].key.as_slice(), key) {
            return Some(i);
        }
        i += 1;
    }
    None
}

/// The variables that a script is started with.
#[derive(Debug)]
pub struct Environment {
    vars: Vec<Pair>,
}

impl View for Environment {
    type V = Map<Seq<u8>, Seq<u8>>;

    closed spec fn view(&self) -> Map<Seq<u8>, Seq<u8>> {
        as_map(self.vars.deep_view())
    }
}

impl Environment {
    #[verifier::type_invariant]
    spec fn no_key_twice(&self) -> bool {
        distinct_keys(self.vars.deep_view())
    }

    /// The environment without variables.
    pub fn new() -> (e: Environment)
        ensures
            e@ == Map::<Seq<u8>, Seq<u8>>::empty(),
    {
        let e = Environment { vars: Vec::new() };
        assert(e@ =~= Map::<Seq<u8>, Seq<u8>>::empty());
        e
    }

    /// Sets the variable `key` to `value`; a value that it had is replaced.
    pub fn set(&mut self, key: Vec<u8>, value: Vec<u8>)
        ensures
            final(self)@ == old(self)@.insert(key@, value@),
    {
        proof {
            use_type_invariant(&*self);
        }
        let mut taken = Environment { vars: Vec::new() };
        core::mem::swap(self, &mut taken);
        let mut vars = taken.vars;
        let ghost before = vars.deep_view();
        match position(&vars, key.as_slice()) {
            Some(i) => {
                proof {
                    lemma_as_map_update(before, i as int, value@);
                }
                vars[i] = Pair { key, value };
                assert(vars.deep_view() =~= before.update(i as int, (key@, value@)));
            },
            None => {
                proof {
                    lemma_as_map_push(before, key@, value@);
                }
                vars.push(Pair { key, value });
                assert(vars.deep_view() =~= before.push((key@, value@)));
            },
        }
        *self = Environment { vars };
    }

    /// The value of the variable `key`, if it is set.
    pub fn value(&self, key: &[u8]) -> (r: Option<&Vec<u8>>)
        ensures
            match r {
                Some(v) => self@.contains_key(key@) && self@[key@] == v@,
                None => !self@.contains_key(key@),
            },
    {
        proof {
            use_type_invariant(self);
        }
        match position(&self.vars, key) {
            Some(i) => {
                proof {
                    lemma_value_at(self.vars.deep_view(), i as int);
                    assert(self.vars.deep_view()[i as int] == self.vars@[i as int]@);
                }
                Some(&self.vars[i].value)
            },
            None => None,
        }
    }

    /// The variables as a list, each name once.
    pub fn vars(&self) -> (r: &Vec<Pair>)
        ensures
            distinct_keys(r.deep_view()),
            as_map(r.deep_view()) == self@,
    {
        proof {
            use_type_invariant(self);
        }
        &self.vars
    }
}

} // verus!
