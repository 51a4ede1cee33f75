//! The assignment pool ("hat") and its feasibility-checked random draw.
//!
//! A `Hat` owns two pools of participants: the remaining givers and the
//! remaining receivers. Each call to `draw_name` removes one giver (always
//! from the end of the pool), scans the receivers in circular order from a
//! random start, and commits the first candidate that keeps a complete valid
//! matching of the remaining participants possible. The exclusion rule that
//! decides which pairings are legal is supplied by the caller as a
//! `PairValidator`.

use rand::Rng;
use vstd::prelude::*;

verus! {

/// One member of the roster: a name and the sub-group they belong to.
#[derive(Debug)]
pub struct Person {
    pub name: String,
    pub group: String,
}

impl Person {
    pub fn new(name: &str, group: &str) -> (r: Self)
        ensures
            r.name@ == name@,
            r.group@ == group@,
    {
        Self { name: String::from_str(name), group: String::from_str(group) }
    }
}

impl Clone for Person {
    fn clone(&self) -> (r: Self)
        ensures
            r == *self,
    {
        Self { name: self.name.clone(), group: self.group.clone() }
    }
}

/// One committed assignment: `giver` gives a gift to `receiver`.
#[derive(Debug)]
pub struct Pair {
    pub giver: Person,
    pub receiver: Person,
}

impl Clone for Pair {
    fn clone(&self) -> (r: Self)
        ensures
            r == *self,
    {
        Self { giver: self.giver.clone(), receiver: self.receiver.clone() }
    }
}

/// Why a draw produced no pair.
#[derive(Debug, PartialEq, Eq, Structural, Clone, Copy)]
pub enum DrawError {
    /// The giver pool is empty; the draw sequence is complete.
    NoGivers,
    /// No legal, feasibility-preserving receiver exists for the popped giver.
    /// The giver is consumed all the same (see `draw_name`).
    NoValidReceiver,
}

/// A pluggable exclusion rule deciding whether a giver/receiver pairing is
/// legal. The executable decision must agree with the mathematical rule
/// `spec_valid`, so the rule is a pure function of the two participants.
pub trait PairValidator: Sized {
    /// The pairing rule as a mathematical predicate.
    spec fn spec_valid(&self, giver: Person, receiver: Person) -> bool;

    /// Decide whether `giver` may give to `receiver`.
    fn valid(&self, giver: &Person, receiver: &Person) -> (r: bool)
        ensures
            r == self.spec_valid(*giver, *receiver);
}

/// The default exclusion rule: giver and receiver must not share a sub-group.
pub struct GroupExclusion;

impl PairValidator for GroupExclusion {
    open spec fn spec_valid(&self, giver: Person, receiver: Person) -> bool {
        giver.group@ != receiver.group@
    }

    fn valid(&self, giver: &Person, receiver: &Person) -> (r: bool) {
        crate::valid_pair(giver, receiver)
    }
}

/// Does a complete matching exist that assigns every giver a distinct
/// receiver, with every pair allowed by `validate`? Receivers may be left
/// over; the giver side must be exhausted. Givers are matched from the end of
/// their sequence, which is also the order the executable search uses.
pub open spec fn matching_exists<V: PairValidator>(
    validate: V,
    givers: Seq<Person>,
    receivers: Seq<Person>,
) -> bool
    decreases givers.len(),
{
    if givers.len() == 0 {
        true
    } else {
        exists|i: int|
            0 <= i < receivers.len() && validate.spec_valid(givers.last(), #[trigger] receivers[i])
                && matching_exists(validate, givers.drop_last(), receivers.remove(i))
    }
}

/// The two pools of an assignment process: the participants who have not yet
/// given, and those who have not yet received.
pub struct Hat {
    givers: Vec<Person>,
    receivers: Vec<Person>,
}

impl Hat {
    /// The remaining givers, as a mathematical sequence.
    pub closed spec fn spec_givers(&self) -> Seq<Person> {
        self.givers@
    }

    /// The remaining receivers, as a mathematical sequence.
    pub closed spec fn spec_receivers(&self) -> Seq<Person> {
        self.receivers@
    }

    /// Validity of a hat: failed draws consume a giver but never a receiver,
    /// so the giver pool never outgrows the receiver pool.
    pub open spec fn wf(&self) -> bool {
        self.spec_givers().len() <= self.spec_receivers().len()
    }

    /// Start a fresh assignment process: both pools are independent copies of
    /// the roster, in roster order.
    pub fn with_people(list: Vec<Person>) -> (h: Self)
        ensures
            h.spec_givers() == list@,
            h.spec_receivers() == list@,
            h.wf(),
    {
        let givers = clone_people(&list);
        Self { givers, receivers: list }
    }

    /// The remaining givers (read-only).
    pub fn givers(&self) -> (r: &Vec<Person>)
        ensures
            r@ == self.spec_givers(),
    {
        &self.givers
    }

    /// The remaining receivers (read-only).
    pub fn receivers(&self) -> (r: &Vec<Person>)
        ensures
            r@ == self.spec_receivers(),
    {
        &self.receivers
    }

    /// Probe: does a complete valid matching exist for the current pools?
    /// The hat itself is only read; the search runs on scratch copies.
    pub fn valid_solution_exists<V: PairValidator>(&self, validate: &V) -> (r: bool)
        ensures
            r == matching_exists(*validate, self.spec_givers(), self.spec_receivers()),
    {
        let mut givers = clone_people(&self.givers);
        let mut receivers = clone_people(&self.receivers);
        Self::valid_solution_exists_inner(&mut givers, &mut receivers, validate)
    }

    /// Exhaustive backtracking search for a complete valid matching. Pops the
    /// last giver, tries each legal receiver in ascending index order, and
    /// recurses on the reduced pools. Every tentative removal is undone, so
    /// both pools are exactly as given when the search returns, whatever the
    /// boolean outcome.
    #[verifier::loop_isolation(false)]
    pub fn valid_solution_exists_inner<V: PairValidator>(
        givers: &mut Vec<Person>,
        receivers: &mut Vec<Person>,
        validate: &V,
    ) -> (r: bool)
        ensures
            final(givers)@ == old(givers)@,
            final(receivers)@ == old(receivers)@,
            r == matching_exists(*validate, old(givers)@, old(receivers)@),
        decreases old(givers)@.len(),
    {
        let ghost g0 = old(givers)@;
        let ghost r0 = old(receivers)@;
        let giver = match givers.pop() {
            None => {
                return true;
            },
            Some(g) => g,
        };
        proof {
            assert(givers@ =~= g0.drop_last());
        }
        let n = receivers.len();
        let mut idx: usize = 0;
        let mut found = false;
        while idx < n && !found
            invariant
                idx <= n,
                givers@ == g0.drop_last(),
                receivers@ == r0,
                !found ==> forall|j: int|
                    0 <= j < idx ==> !(validate.spec_valid(giver, #[trigger] r0[j])
                        && matching_exists(*validate, g0.drop_last(), r0.remove(j))),
                found ==> matching_exists(*validate, g0, r0),
            decreases n - idx,
        {
            if validate.valid(&giver, &receivers[idx]) {
                let receiver = receivers.remove(idx);
                let sub = Self::valid_solution_exists_inner(givers, receivers, validate);
                receivers.insert(idx, receiver);
                proof {
                    assert(r0.remove(idx as int).insert(idx as int, r0[idx as int]) =~= r0);
                }
                if sub {
                    found = true;
                    proof {
                        assert(matching_exists(*validate, g0, r0)) by {
                            assert(0 <= idx < r0.len() && validate.spec_valid(
                                g0.last(),
                                r0[idx as int],
                            ) && matching_exists(*validate, g0.drop_last(), r0.remove(idx as int)));
                        };
                    }
                }
            }
            idx += 1;
        }
        givers.push(giver);
        proof {
            assert(g0.drop_last().push(g0.last()) =~= g0);
        }
        found
    }
}

impl Hat {
    /// One randomized, feasibility-checked draw.
    ///
    /// Removes the last giver, then scans the receivers in circular order
    /// from a uniformly random start. The first legal candidate whose removal
    /// still leaves a complete valid matching possible is committed. A draw
    /// succeeds exactly when the pools, as given, admit a complete valid
    /// matching with at least one giver in them; a committed draw therefore
    /// never strands the remaining participants.
    ///
    /// On `NoValidReceiver` the popped giver is *not* put back: the giver
    /// pool shrinks even though no pair was produced, while the receiver pool
    /// is exactly as before. The asymmetry is part of the contract: the same
    /// giver cannot be retried, and the caller's only recourse is to rebuild
    /// the pool with `with_people`.
    #[verifier::loop_isolation(false)]
    pub fn draw_name<V: PairValidator>(&mut self, validate: &V) -> (r: Result<Pair, DrawError>)
        requires
            old(self).wf(),
        ensures
            final(self).wf(),
            r is Ok <==> (old(self).spec_givers().len() > 0 && matching_exists(
                *validate,
                old(self).spec_givers(),
                old(self).spec_receivers(),
            )),
            r matches Ok(pair) ==> {
                &&& pair.giver == old(self).spec_givers().last()
                &&& validate.spec_valid(pair.giver, pair.receiver)
                &&& final(self).spec_givers() == old(self).spec_givers().drop_last()
                &&& exists|i: int|
                    0 <= i < old(self).spec_receivers().len() && pair.receiver == old(
                        self,
                    ).spec_receivers()[i] && final(self).spec_receivers() == old(
                        self,
                    ).spec_receivers().remove(i)
                &&& matching_exists(
                    *validate,
                    final(self).spec_givers(),
                    final(self).spec_receivers(),
                )
                &&& final(self).spec_givers().len() == old(self).spec_givers().len() - 1
                &&& final(self).spec_receivers().len() == old(self).spec_receivers().len() - 1
            },
            r matches Err(e) ==> (e == DrawError::NoGivers <==> old(self).spec_givers().len()
                == 0),
            r == Result::<Pair, DrawError>::Err(DrawError::NoGivers) ==> {
                &&& old(self).spec_givers().len() == 0
                &&& final(self).spec_givers() == old(self).spec_givers()
                &&& final(self).spec_receivers() == old(self).spec_receivers()
            },
            r == Result::<Pair, DrawError>::Err(DrawError::NoValidReceiver) ==> {
                &&& old(self).spec_givers().len() > 0
                &&& !matching_exists(
                    *validate,
                    old(self).spec_givers(),
                    old(self).spec_receivers(),
                )
                &&& final(self).spec_givers() == old(self).spec_givers().drop_last()
                &&& final(self).spec_givers().len() == old(self).spec_givers().len() - 1
                &&& final(self).spec_receivers() == old(self).spec_receivers()
            },
    {
        let ghost g0 = old(self).spec_givers();
        let ghost r0 = old(self).spec_receivers();
        let giver = match self.givers.pop() {
            None => {
                return Err(DrawError::NoGivers);
            },
            Some(g) => g,
        };
        proof {
            assert(self.givers@ =~= g0.drop_last());
        }
        let n = self.receivers.len();
        let start_idx = random_index(n);
        let mut offset: usize = 0;
        while offset < n
            invariant
                offset <= n,
                self.givers@ == g0.drop_last(),
                self.receivers@ == r0,
                forall|j: int|
                    0 <= j < n && ((j >= start_idx && j - start_idx < offset) || (j < start_idx && j
                        + n - start_idx < offset)) ==> !(validate.spec_valid(
                        giver,
                        #[trigger] r0[j],
                    ) && matching_exists(*validate, g0.drop_last(), r0.remove(j))),
            decreases n - offset,
        {
            let idx = if offset < n - start_idx {
                start_idx + offset
            } else {
                offset - (n - start_idx)
            };
            if validate.valid(&giver, &self.receivers[idx]) {
                let receiver = self.receivers.remove(idx);
                if self.valid_solution_exists(validate) {
                    proof {
                        assert(matching_exists(*validate, g0, r0)) by {
                            assert(0 <= idx < r0.len() && validate.spec_valid(
                                g0.last(),
                                r0[idx as int],
                            ) && matching_exists(*validate, g0.drop_last(), r0.remove(idx as int)));
                        };
                    }
                    return Ok(Pair { giver, receiver });
                }
                self.receivers.insert(idx, receiver);
                proof {
                    assert(r0.remove(idx as int).insert(idx as int, r0[idx as int]) =~= r0);
                }
            }
            offset += 1;
        }
        proof {
            assert(forall|j: int|
                0 <= j < r0.len() ==> !(validate.spec_valid(giver, #[trigger] r0[j])
                    && matching_exists(*validate, g0.drop_last(), r0.remove(j))));
        }
        Err(DrawError::NoValidReceiver)
    }
}

/// Law: a pairing the default rule allows always joins two distinct
/// sub-groups, so every pair committed under `GroupExclusion` has
/// `giver.group != receiver.group`.
pub proof fn lemma_default_rule_excludes_same_group(v: GroupExclusion, a: Person, b: Person)
    requires
        v.spec_valid(a, b),
    ensures
        a.group@ != b.group@,
{
}

/// Law: removing the candidate at index `i` from a pool and re-inserting it
/// at the same index restores the pool element for element, in the same
/// order. This is the exactness of the backtracking restore step.
pub proof fn lemma_restore_after_removal(s: Seq<Person>, i: int)
    requires
        0 <= i < s.len(),
    ensures
        s.remove(i).insert(i, s[i]) == s,
{
    assert(s.remove(i).insert(i, s[i]) =~= s);
}

/// Law: a feasible pool never yields a failed draw before the givers run
/// out. Starting from pools that admit a complete valid matching, repeated
/// draws empty the giver pool entirely, one committed pair per giver, and
/// every committed pair is allowed by the rule; `NoValidReceiver` never
/// occurs along the way.
#[verifier::loop_isolation(false)]
pub fn draw_all<V: PairValidator>(hat: &mut Hat, validate: &V) -> (pairs: Vec<Pair>)
    requires
        old(hat).wf(),
        matching_exists(*validate, old(hat).spec_givers(), old(hat).spec_receivers()),
    ensures
        final(hat).wf(),
        final(hat).spec_givers().len() == 0,
        pairs@.len() == old(hat).spec_givers().len(),
        forall|k: int|
            0 <= k < pairs@.len() ==> validate.spec_valid(
                #[trigger] pairs@[k].giver,
                pairs@[k].receiver,
            ),
{
    let mut pairs: Vec<Pair> = Vec::new();
    while hat.givers().len() > 0
        invariant
            hat.wf(),
            matching_exists(*validate, hat.spec_givers(), hat.spec_receivers()),
            pairs@.len() + hat.spec_givers().len() == old(hat).spec_givers().len(),
            forall|k: int|
                0 <= k < pairs@.len() ==> validate.spec_valid(
                    #[trigger] pairs@[k].giver,
                    pairs@[k].receiver,
                ),
        decreases hat.spec_givers().len(),
    {
        match hat.draw_name(validate) {
            Ok(pair) => {
                pairs.push(pair);
            },
            Err(_) => {
                proof {
                    assert(false);
                }
            },
        }
    }
    pairs
}

/// Relies on rand: `thread_rng().gen_range(0..n)` returns a uniformly random
/// index strictly below `n`; it panics only on an empty range, which the
/// precondition rules out.
#[verifier::external_body]
fn random_index(n: usize) -> (r: usize)
    requires
        n > 0,
    ensures
        r < n,
{
    rand::thread_rng().gen_range(0..n)
}

/// Copy a roster element for element.
fn clone_people(v: &Vec<Person>) -> (r: Vec<Person>)
    ensures
        r@ == v@,
{
    let mut r: Vec<Person> = Vec::new();
    let mut i: usize = 0;
    while i < v.len()
        invariant
            i <= v.len(),
            r@ == v@.subrange(0, i as int),
        decreases v.len() - i,
    {
        r.push(v[i].clone());
        proof {
            assert(v@.subrange(0, i as int).push(v@[i as int]) =~= v@.subrange(0, i + 1));
        }
        i += 1;
    }
    proof {
        assert(v@.subrange(0, v@.len() as int) =~= v@);
    }
    r
}

} // verus!
