//! Fan-out accounting: which recipients a broadcast attempted, and which
//! sends failed.
//!
//! A broadcast is planned from `Registry::snapshot_except`, the lock is
//! released, and each recipient's send is attempted independently. The
//! report below folds the per-recipient outcomes back together: one dead or
//! slow peer marks only itself failed, removes nobody else from the attempt
//! list, and never fails the broadcast as a whole.

use vstd::prelude::*;

verus! {

/// The identifiers whose sends failed, given each recipient's outcome.
pub open spec fn spec_failures(recipients: Seq<u64>, outcomes: Seq<bool>) -> Seq<u64>
    decreases recipients.len(),
{
    if recipients.len() == 0 || outcomes.len() == 0 {
        Seq::empty()
    } else {
        let rest = spec_failures(recipients.drop_last(), outcomes.drop_last());
        if outcomes.last() {
            rest
        } else {
            rest.push(recipients.last())
        }
    }
}

/// The outcome of one fan-out.
pub struct DeliveryReport {
    attempted: Vec<u64>,
    failed: Vec<u64>,
}

impl DeliveryReport {
    /// Every recipient a send was attempted to, in order.
    pub closed spec fn spec_attempted(&self) -> Seq<u64> {
        self.attempted@
    }

    /// The recipients whose send failed, in order.
    pub closed spec fn spec_failed(&self) -> Seq<u64> {
        self.failed@
    }

    /// An empty report.
    pub fn new() -> (r: DeliveryReport)
        ensures
            r.spec_attempted() == Seq::<u64>::empty(),
            r.spec_failed() == Seq::<u64>::empty(),
    {
        DeliveryReport { attempted: Vec::new(), failed: Vec::new() }
    }

    /// Books one recipient's outcome. The attempt is recorded whatever the
    /// outcome was, and a failure touches no other recipient's entry.
    pub fn record(&mut self, id: u64, ok: bool)
        ensures
            final(self).spec_attempted() == old(self).spec_attempted().push(id),
            ok ==> final(self).spec_failed() == old(self).spec_failed(),
            !ok ==> final(self).spec_failed() == old(self).spec_failed().push(id),
    {
        self.attempted.push(id);
        if !ok {
            self.failed.push(id);
        }
    }

    /// How many sends were attempted.
    pub fn attempted_count(&self) -> (n: usize)
        ensures
            n == self.spec_attempted().len(),
    {
        self.attempted.len()
    }

    /// How many sends failed.
    pub fn failed_count(&self) -> (n: usize)
        ensures
            n == self.spec_failed().len(),
    {
        self.failed.len()
    }
}

/// Folds per-recipient outcomes into a report: recipient `i`'s send
/// succeeded exactly when `outcomes[i]`. Every planned recipient is
/// attempted, whatever the outcomes hold, and the fold itself cannot fail.
pub fn broadcast_report(recipients: &Vec<u64>, outcomes: &Vec<bool>) -> (r: DeliveryReport)
    requires
        outcomes@.len() == recipients@.len(),
    ensures
        r.spec_attempted() == recipients@,
        r.spec_failed() == spec_failures(recipients@, outcomes@),
{
    let mut r = DeliveryReport::new();
    let mut i: usize = 0;
    proof {
        assert(recipients@.take(0) =~= Seq::<u64>::empty());
        assert(spec_failures(recipients@.take(0), outcomes@.take(0)) == Seq::<u64>::empty());
    }
    while i < recipients.len()
        invariant
            i <= recipients@.len(),
            outcomes@.len() == recipients@.len(),
            r.spec_attempted() == recipients@.take(i as int),
            r.spec_failed() == spec_failures(recipients@.take(i as int), outcomes@.take(i as int)),
        decreases recipients@.len() - i,
    {
        r.record(recipients[i], outcomes[i]);
        proof {
            let rt = recipients@.take(i as int + 1);
            let ot = outcomes@.take(i as int + 1);
            assert(rt.drop_last() =~= recipients@.take(i as int));
            assert(ot.drop_last() =~= outcomes@.take(i as int));
            assert(rt.last() == recipients@[i as int]);
            assert(ot.last() == outcomes@[i as int]);
            assert(recipients@.take(i as int).push(recipients@[i as int]) =~= rt);
        }
        i = i + 1;
    }
    proof {
        assert(recipients@.take(recipients@.len() as int) =~= recipients@);
        assert(outcomes@.take(outcomes@.len() as int) =~= outcomes@);
    }
    r
}

/// Partial-failure isolation: with a duplicate-free plan — as
/// `Registry::snapshot_except` yields — each recipient is marked failed
/// exactly when its own send failed. One closed sink puts only its own
/// recipient among the failures; every other planned recipient is still
/// attempted and, where its own send went through, is not failed.
pub proof fn lemma_partial_failure_isolation(recipients: Seq<u64>, outcomes: Seq<bool>)
    requires
        outcomes.len() == recipients.len(),
        forall|i: int, j: int| 0 <= i < j < recipients.len() ==> recipients[i] != recipients[j],
    ensures
        forall|id: u64|
            spec_failures(recipients, outcomes).contains(id) ==> recipients.contains(id),
        forall|i: int|
            0 <= i < recipients.len() && outcomes[i] ==> !spec_failures(
                recipients,
                outcomes,
            ).contains(recipients[i]),
        forall|i: int|
            0 <= i < recipients.len() && !outcomes[i] ==> spec_failures(
                recipients,
                outcomes,
            ).contains(recipients[i]),
    decreases recipients.len(),
{
    broadcast use vstd::seq_lib::group_seq_properties;

    if recipients.len() == 0 {
    } else {
        let r1 = recipients.drop_last();
        let o1 = outcomes.drop_last();
        let last = recipients.last();
        let f1 = spec_failures(r1, o1);
        let f = spec_failures(recipients, outcomes);
        lemma_partial_failure_isolation(r1, o1);
        if outcomes.last() {
            assert(f == f1);
        } else {
            assert(f == f1.push(last));
        }
        assert forall|id: u64| f.contains(id) implies recipients.contains(id) by {
            let x = choose|x: int| 0 <= x < f.len() && f[x] == id;
            if outcomes.last() {
                assert(f1.contains(id));
                assert(r1.contains(id));
                let y = choose|y: int| 0 <= y < r1.len() && r1[y] == id;
                assert(recipients[y] == id);
            } else {
                if x < f1.len() {
                    assert(f1[x] == id);
                    assert(f1.contains(id));
                    assert(r1.contains(id));
                    let y = choose|y: int| 0 <= y < r1.len() && r1[y] == id;
                    assert(recipients[y] == id);
                } else {
                    assert(id == last);
                    assert(recipients[recipients.len() - 1] == id);
                }
            }
        }
        assert forall|i: int|
            0 <= i < recipients.len() && outcomes[i] implies !f.contains(recipients[i]) by {
            if i < recipients.len() - 1 {
                assert(o1[i] == outcomes[i]);
                assert(r1[i] == recipients[i]);
                assert(!f1.contains(recipients[i]));
                if !outcomes.last() {
                    assert(recipients[i] != last);
                    if f.contains(recipients[i]) {
                        let x = choose|x: int| 0 <= x < f.len() && f[x] == recipients[i];
                        if x < f1.len() {
                            assert(f1[x] == recipients[i]);
                            assert(f1.contains(recipients[i]));
                        } else {
                            assert(f[x] == last);
                        }
                    }
                }
            } else {
                assert(f == f1);
                if f1.contains(last) {
                    assert(r1.contains(last));
                    let y = choose|y: int| 0 <= y < r1.len() && r1[y] == last;
                    assert(r1[y] == recipients[y]);
                    assert(recipients[y] == recipients[recipients.len() - 1]);
                }
            }
        }
        assert forall|i: int|
            0 <= i < recipients.len() && !outcomes[i] implies f.contains(recipients[i]) by {
            if i < recipients.len() - 1 {
                assert(o1[i] == outcomes[i]);
                assert(r1[i] == recipients[i]);
                assert(f1.contains(recipients[i]));
                let x = choose|x: int| 0 <= x < f1.len() && f1[x] == recipients[i];
                if !outcomes.last() {
                    assert(f[x] == recipients[i]);
                } else {
                    assert(f[x] == recipients[i]);
                }
            } else {
                assert(f[f.len() - 1] == recipients[i]);
            }
        }
    }
}

} // verus!
