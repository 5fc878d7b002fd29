//! The environment: one flat mapping from names to runtime values, viewed as
//! a `Map<Seq<char>, ObjV>`. There is no scope chain; a function call gets a
//! fresh environment of its own.
use vstd::prelude::*;
use vstd::string::StrSliceExecFns;
use crate::object::{Object, ObjV, clone_object};
use crate::token::str_eq;

verus! {

/// A name-to-value frame. Bindings are held as pairs with pairwise distinct
/// names, so the frame denotes exactly one mapping.
pub struct Env {
    pairs: Vec<(String, Object)>,
}

/// Pairwise distinct binding names.
pub open spec fn keys_unique(pairs: Seq<(String, Object)>) -> bool {
    forall|i: int, j: int| 0 <= i < j < pairs.len() ==> pairs[i].0@ != pairs[j].0@
}

/// The mapping that a sequence of bindings denotes; a later binding for the
/// same name would win, though a well-formed frame never holds two.
pub open spec fn env_map(pairs: Seq<(String, Object)>) -> Map<Seq<char>, ObjV>
    decreases pairs,
{
    if pairs.len() == 0 {
        Map::empty()
    } else {
        env_map(pairs.drop_last()).insert(pairs.last().0@, pairs.last().1@)
    }
}

/// With distinct names, each binding is visible in the denoted mapping, and
/// nothing else is.
pub proof fn lemma_env_map_props(pairs: Seq<(String, Object)>)
    requires
        keys_unique(pairs),
    ensures
        forall|i: int| 0 <= i < pairs.len() ==> #[trigger] env_map(pairs).contains_key(
            pairs[i].0@,
        ) && env_map(pairs)[pairs[i].0@] == pairs[i].1@,
        forall|k: Seq<char>| #[trigger] env_map(pairs).contains_key(k) ==> exists|i: int|
            0 <= i < pairs.len() && #[trigger] pairs[i].0@ == k,
    decreases pairs,
{
    if pairs.len() > 0 {
        let prefix = pairs.drop_last();
        assert(keys_unique(prefix)) by {
            assert forall|i: int, j: int| 0 <= i < j < prefix.len() implies prefix[i].0@
                != prefix[j].0@ by {
                assert(pairs[i].0@ != pairs[j].0@);
            }
        }
        lemma_env_map_props(prefix);
        assert forall|i: int| 0 <= i < pairs.len() implies #[trigger] env_map(
            pairs,
        ).contains_key(pairs[i].0@) && env_map(pairs)[pairs[i].0@] == pairs[i].1@ by {
            if i < pairs.len() - 1 {
                assert(prefix[i] == pairs[i]);
                assert(env_map(prefix).contains_key(prefix[i].0@));
                assert(env_map(prefix)[prefix[i].0@] == prefix[i].1@);
                assert(pairs[i].0@ != pairs.last().0@);
            }
        }
        assert forall|k: Seq<char>| #[trigger] env_map(pairs).contains_key(k) implies exists|
            i: int,
        | 0 <= i < pairs.len() && #[trigger] pairs[i].0@ == k by {
            if k == pairs.last().0@ {
                assert(pairs[pairs.len() - 1].0@ == k);
            } else {
                assert(env_map(prefix).contains_key(k));
                let i = choose|i: int| 0 <= i < prefix.len() && #[trigger] prefix[i].0@ == k;
                assert(pairs[i].0@ == k);
            }
        }
    }
}

impl View for Env {
    type V = Map<Seq<char>, ObjV>;

    closed spec fn view(&self) -> Map<Seq<char>, ObjV> {
        env_map(self.pairs@)
    }
}

impl Env {
    #[verifier::type_invariant]
    spec fn wf(self) -> bool {
        keys_unique(self.pairs@)
    }

    /// A fresh, empty frame.
    pub fn new() -> (r: Env)
        ensures
            r@ == Map::<Seq<char>, ObjV>::empty(),
    {
        Env { pairs: Vec::new() }
    }

    /// Inserts a binding, overwriting any binding the name already has.
    pub fn set(&mut self, key: String, val: Object)
        ensures
            final(self)@ == old(self)@.insert(key@, val@),
    {
        proof {
            use_type_invariant(&*self);
            lemma_env_map_props(self.pairs@);
        }
        let ghost pairs0 = self.pairs@;
        let mut pairs: Vec<(String, Object)> = Vec::new();
        core::mem::swap(&mut pairs, &mut self.pairs);
        let mut i: usize = 0;
        while i < pairs.len()
            invariant
                pairs@ == pairs0,
                keys_unique(pairs0),
                old(self)@ == env_map(pairs0),
                self.pairs@.len() == 0,
                i <= pairs0.len(),
                forall|j: int| 0 <= j < i ==> pairs0[j].0@ != key@,
            decreases pairs0.len() - i,
        {
            if str_eq(pairs[i].0.as_str(), key.as_str()) {
                pairs.remove(i);
                pairs.push((key, val));
                proof {
                    lemma_env_map_props(pairs0);
                    let removed = pairs0.remove(i as int);
                    assert(pairs@ == removed.push((key, val)));
                    assert(keys_unique(removed) && forall|j: int|
                        0 <= j < removed.len() ==> removed[j].0@ != key@) by {
                        assert forall|j: int| 0 <= j < removed.len() implies removed[j].0@
                            != key@ by {
                            if j < i {
                                assert(removed[j] == pairs0[j]);
                                assert(pairs0[j].0@ != pairs0[i as int].0@);
                            } else {
                                assert(removed[j] == pairs0[j + 1]);
                                assert(pairs0[i as int].0@ != pairs0[j + 1].0@);
                            }
                        }
                        assert forall|a: int, b: int| 0 <= a < b < removed.len() implies removed[a].0@
                            != removed[b].0@ by {
                            let a0 = if a < i { a } else { a + 1 };
                            let b0 = if b < i { b } else { b + 1 };
                            assert(removed[a] == pairs0[a0] && removed[b] == pairs0[b0]);
                            assert(pairs0[a0].0@ != pairs0[b0].0@);
                        }
                    }
                    lemma_env_map_props(removed);
                    lemma_env_map_props(pairs@);
                    assert(pairs@.drop_last() =~= removed);
                    assert forall|k: Seq<char>| env_map(pairs0).insert(key@, val@).contains_key(k)
                        <==> #[trigger] env_map(pairs@).contains_key(k) by {
                        if k != key@ {
                            if env_map(pairs0).contains_key(k) {
                                let j = choose|j: int|
                                    0 <= j < pairs0.len() && #[trigger] pairs0[j].0@ == k;
                                let j2 = if j < i { j } else { j - 1 };
                                assert(j != i);
                                assert(removed[j2] == pairs0[j]);
                                assert(env_map(removed).contains_key(k));
                            }
                            if env_map(removed).contains_key(k) {
                                let j = choose|j: int|
                                    0 <= j < removed.len() && #[trigger] removed[j].0@ == k;
                                let j0 = if j < i { j } else { j + 1 };
                                assert(removed[j] == pairs0[j0]);
                                assert(env_map(pairs0).contains_key(k));
                            }
                        }
                    }
                    assert forall|k: Seq<char>|
                        #[trigger] env_map(pairs@).contains_key(k) implies env_map(
                        pairs@,
                    )[k] == env_map(pairs0).insert(key@, val@)[k] by {
                        if k != key@ {
                            let j = choose|j: int|
                                0 <= j < removed.len() && #[trigger] removed[j].0@ == k;
                            let j0 = if j < i { j } else { j + 1 };
                            assert(removed[j] == pairs0[j0]);
                            assert(env_map(removed)[k] == removed[j].1@);
                            assert(env_map(pairs0)[k] == pairs0[j0].1@);
                            assert(env_map(pairs@)[k] == env_map(removed)[k]);
                        }
                    }
                    assert(env_map(pairs@) =~= env_map(pairs0).insert(key@, val@));
                    assert(keys_unique(pairs@)) by {
                        assert forall|a: int, b: int| 0 <= a < b < pairs@.len() implies pairs@[a].0@
                            != pairs@[b].0@ by {
                            if b < pairs@.len() - 1 {
                                assert(pairs@[a] == removed[a] && pairs@[b] == removed[b]);
                            } else {
                                assert(pairs@[a] == removed[a]);
                            }
                        }
                    }
                }
                self.pairs = pairs;
                return ;
            }
            i = i + 1;
        }
        pairs.push((key, val));
        proof {
            assert(pairs@.drop_last() =~= pairs0);
            assert(keys_unique(pairs@)) by {
                assert forall|a: int, b: int| 0 <= a < b < pairs@.len() implies pairs@[a].0@
                    != pairs@[b].0@ by {
                    if b < pairs@.len() - 1 {
                        assert(pairs@[a] == pairs0[a] && pairs@[b] == pairs0[b]);
                    } else {
                        assert(pairs@[a] == pairs0[a]);
                    }
                }
            }
        }
        self.pairs = pairs;
    }

    /// Looks a name up, handing back a copy of its value: the copy of the
    /// bound value where the name is bound, nothing otherwise.
    pub fn get(&self, key: &str) -> (r: Option<Object>)
        ensures
            match r {
                Some(o) => self@.contains_key(key@) && o@ == self@[key@],
                None => !self@.contains_key(key@),
            },
    {
        proof {
            use_type_invariant(&*self);
            lemma_env_map_props(self.pairs@);
        }
        let mut i: usize = 0;
        while i < self.pairs.len()
            invariant
                keys_unique(self.pairs@),
                i <= self.pairs@.len(),
                forall|j: int| 0 <= j < i ==> self.pairs@[j].0@ != key@,
            decreases self.pairs@.len() - i,
        {
            if str_eq(self.pairs[i].0.as_str(), key) {
                proof {
                    lemma_env_map_props(self.pairs@);
                }
                return Some(clone_object(&self.pairs[i].1));
            }
            i = i + 1;
        }
        proof {
            if self@.contains_key(key@) {
                lemma_env_map_props(self.pairs@);
            }
        }
        None
    }

    /// Looks a name up, handing back a borrowed view of its value.
    pub fn get_by_ref(&self, key: &str) -> (r: Option<&Object>)
        ensures
            match r {
                Some(o) => self@.contains_key(key@) && o@ == self@[key@],
                None => !self@.contains_key(key@),
            },
    {
        proof {
            use_type_invariant(&*self);
            lemma_env_map_props(self.pairs@);
        }
        let mut i: usize = 0;
        while i < self.pairs.len()
            invariant
                keys_unique(self.pairs@),
                i <= self.pairs@.len(),
                forall|j: int| 0 <= j < i ==> self.pairs@[j].0@ != key@,
            decreases self.pairs@.len() - i,
        {
            if str_eq(self.pairs[i].0.as_str(), key) {
                proof {
                    lemma_env_map_props(self.pairs@);
                }
                return Some(&self.pairs[i].1);
            }
            i = i + 1;
        }
        proof {
            if self@.contains_key(key@) {
                lemma_env_map_props(self.pairs@);
            }
        }
        None
    }
}

} // verus!
