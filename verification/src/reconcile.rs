//! Edge-triggered reconciliation: compare each probe result against the
//! last recorded liveness and emit a notification only on a change.

use vstd::prelude::*;

verus! {

/// The notifications that a run of probe results produces, given the last
/// recorded liveness: one per transition, carrying the new value.
pub open spec fn notifications_of(last: bool, probes: Seq<bool>) -> Seq<bool>
    decreases probes.len(),
{
    if probes.len() == 0 {
        Seq::empty()
    } else if probes[0] != last {
        seq![probes[0]] + notifications_of(probes[0], probes.skip(1))
    } else {
        notifications_of(last, probes.skip(1))
    }
}

/// The liveness recorded after a run of probe results.
pub open spec fn recorded_after(last: bool, probes: Seq<bool>) -> bool {
    if probes.len() == 0 {
        last
    } else {
        probes.last()
    }
}

/// The reconciliation loop's memory: the last observed liveness, used only
/// to detect transitions and avoid redundant notifications.
pub struct Reconciler {
    last: bool,
}

impl Reconciler {
    /// The last recorded liveness.
    pub closed spec fn last_state(&self) -> bool {
        self.last
    }

    /// Start from an initial probe of the daemon's state.
    pub fn new(initial: bool) -> (r: Self)
        ensures
            r.last_state() == initial,
    {
        Reconciler { last: initial }
    }

    /// Executable accessor for the last recorded liveness.
    pub fn current(&self) -> (r: bool)
        ensures
            r == self.last_state(),
    {
        self.last
    }

    /// One tick: record the probe result and report `Some(new state)` on a
    /// transition, `None` when nothing changed.
    pub fn observe(&mut self, probed: bool) -> (r: Option<bool>)
        ensures
            final(self).last_state() == probed,
            r == (if probed != old(self).last_state() {
                Some(probed)
            } else {
                None::<bool>
            }),
    {
        if probed != self.last {
            self.last = probed;
            Some(probed)
        } else {
            None
        }
    }

    /// Feed a whole run of probe results, collecting the notifications in
    /// order: exactly one per transition, carrying the new liveness.
    pub fn observe_run(&mut self, probes: &Vec<bool>) -> (r: Vec<bool>)
        ensures
            r@ == notifications_of(old(self).last_state(), probes@),
            final(self).last_state() == recorded_after(old(self).last_state(), probes@),
    {
        let mut out: Vec<bool> = Vec::new();
        let mut i: usize = 0;
        proof {
            assert(probes@.skip(0) =~= probes@);
            assert(Seq::<bool>::empty() + notifications_of(self.last_state(), probes@)
                =~= notifications_of(self.last_state(), probes@));
        }
        while i < probes.len()
            invariant
                i <= probes@.len(),
                notifications_of(old(self).last_state(), probes@) == out@ + notifications_of(
                    self.last_state(),
                    probes@.skip(i as int),
                ),
                recorded_after(old(self).last_state(), probes@) == recorded_after(
                    self.last_state(),
                    probes@.skip(i as int),
                ),
            decreases probes@.len() - i,
        {
            proof {
                assert(probes@.skip(i as int).len() > 0);
                assert(probes@.skip(i as int)[0] == probes@[i as int]);
                assert(probes@.skip(i as int).skip(1) =~= probes@.skip(i + 1));
                assert(probes@.skip(i as int).last() == probes@.last());
            }
            match self.observe(probes[i]) {
                Some(change) => { out.push(change); },
                None => {},
            }
            i += 1;
        }
        proof {
            assert(probes@.skip(probes@.len() as int) =~= Seq::<bool>::empty());
            assert(out@ + Seq::<bool>::empty() =~= out@);
        }
        out
    }
}

/// Every notification reports a state different from the one recorded
/// before it; in particular consecutive notifications alternate.
pub proof fn lemma_notifications_alternate(last: bool, probes: Seq<bool>)
    ensures
        forall|i: int|
            0 <= i < notifications_of(last, probes).len() ==> notifications_of(last, probes)[i]
                == (i % 2 == 0) != last,
    decreases probes.len(),
{
    if probes.len() > 0 {
        if probes[0] != last {
            lemma_notifications_alternate(probes[0], probes.skip(1));
            assert forall|i: int| 0 <= i < notifications_of(last, probes).len() implies
                notifications_of(last, probes)[i] == ((i % 2 == 0) != last) by {
                if i > 0 {
                    assert(notifications_of(last, probes)[i] == notifications_of(
                        probes[0],
                        probes.skip(1),
                    )[i - 1]);
                }
            }
        } else {
            lemma_notifications_alternate(last, probes.skip(1));
        }
    }
}

} // verus!
