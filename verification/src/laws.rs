//! The laws the pool obeys.
//!
//! The pool itself only ever sees its queue of available resources; a
//! guard only ever sees the one resource it holds. To state laws that
//! span both — nothing is lost, nothing is handed out twice — this
//! module models a pool together with everything checked out of it, and
//! proves that every operation's step on that model keeps the laws.
//! Each step function mirrors the `ensures` of the operation it is
//! named after.

use vstd::multiset::Multiset;
use vstd::prelude::*;

verus! {

broadcast use vstd::multiset::group_multiset_axioms, vstd::seq_lib::group_to_multiset_ensures;

/// A ghost model of one pool together with its outstanding borrows.
///
/// `available` is the pool's view: the FIFO queue of resources not
/// currently checked out. `outstanding` collects the resources held by
/// the pool's active guards — a multiset, since the pool keeps no order
/// over checked-out resources. `added` counts every resource ever put
/// into circulation: the initial seed plus each later `add`.
pub struct PoolModel<T> {
    pub available: Seq<T>,
    pub outstanding: Multiset<T>,
    pub added: nat,
}

/// The model of a pool freshly created from `initial` (empty for
/// `AsyncPool::new`), before any guard exists.
pub open spec fn seeded<T>(initial: Seq<T>) -> PoolModel<T> {
    PoolModel { available: initial, outstanding: Multiset::empty(), added: initial.len() }
}

/// The step `AsyncPool::add(item)` takes on the model: one more
/// resource enters circulation at the back of the queue.
pub open spec fn added_step<T>(m: PoolModel<T>, item: T) -> PoolModel<T> {
    PoolModel {
        available: m.available.push(item),
        outstanding: m.outstanding,
        added: m.added + 1,
    }
}

/// The step a successful `AsyncPool::rsvp` takes on the model: the
/// front of the queue moves into a new guard's hands.
pub open spec fn reserved_step<T>(m: PoolModel<T>) -> PoolModel<T>
    recommends
        m.available.len() > 0,
{
    PoolModel {
        available: m.available.drop_first(),
        outstanding: m.outstanding.insert(m.available.first()),
        added: m.added,
    }
}

/// The step an active guard's `release` takes on the model: the guard's
/// resource `item` leaves its hands and rejoins the back of the queue.
pub open spec fn released_step<T>(m: PoolModel<T>, item: T) -> PoolModel<T>
    recommends
        m.outstanding.count(item) > 0,
{
    PoolModel {
        available: m.available.push(item),
        outstanding: m.outstanding.remove(item),
        added: m.added,
    }
}

/// Conservation: the resources still queued and the resources checked
/// out together account for every resource ever added — the pool never
/// loses or duplicates one.
pub open spec fn conserved<T>(m: PoolModel<T>) -> bool {
    m.available.len() + m.outstanding.len() == m.added
}

/// Everything a pool accounts for, queued or checked out, as one
/// multiset of resource instances.
pub open spec fn in_circulation<T>(m: PoolModel<T>) -> Multiset<T> {
    m.available.to_multiset().add(m.outstanding)
}

/// Exclusivity: every resource instance is in at most one place — it is
/// counted at most once between the queue and all active guards.
pub open spec fn exclusive<T>(m: PoolModel<T>) -> bool {
    forall|r: T| #[trigger] in_circulation(m).count(r) <= 1
}

/// A fresh pool is conserved: everything seeded is still queued and no
/// guard exists yet.
pub proof fn lemma_seeded_conserved<T>(initial: Seq<T>)
    ensures
        conserved(seeded(initial)),
{
}

/// Conservation: adding a resource keeps the books balanced — the queue
/// and the count of resources ever added grow together.
pub proof fn lemma_add_conserves<T>(m: PoolModel<T>, item: T)
    requires
        conserved(m),
    ensures
        conserved(added_step(m, item)),
{
}

/// Conservation: a reservation keeps the books balanced — the dequeued
/// resource reappears in a guard's hands.
pub proof fn lemma_rsvp_conserves<T>(m: PoolModel<T>)
    requires
        conserved(m),
        m.available.len() > 0,
    ensures
        conserved(reserved_step(m)),
{
}

/// Conservation: a release keeps the books balanced — the guard's
/// resource reappears at the back of the queue.
pub proof fn lemma_release_conserves<T>(m: PoolModel<T>, item: T)
    requires
        conserved(m),
        m.outstanding.count(item) > 0,
    ensures
        conserved(released_step(m, item)),
{
    assert(Multiset::singleton(item).subset_of(m.outstanding)) by {
        assert forall|v: T| Multiset::singleton(item).count(v) <= m.outstanding.count(v) by {
            if v != item {
                assert(Multiset::singleton(item).count(v) == 0);
            }
        }
    }
}

/// A reservation moves one resource from the queue to a guard: the
/// instances in circulation are exactly the ones from before.
pub proof fn lemma_rsvp_keeps_circulation<T>(m: PoolModel<T>)
    requires
        m.available.len() > 0,
    ensures
        in_circulation(reserved_step(m)) == in_circulation(m),
{
    let s = m.available;
    assert(s.remove(0) =~= s.drop_first());
    assert(s.contains(s[0]));
    assert(s.drop_first().to_multiset() == s.to_multiset().remove(s[0]));
    assert(in_circulation(reserved_step(m)) =~= in_circulation(m)) by {
        assert forall|v: T|
            in_circulation(reserved_step(m)).count(v) == in_circulation(m).count(v) by {
            assert(s.to_multiset().count(s[0]) > 0);
            if v != s[0] {
                assert(Multiset::singleton(s[0]).count(v) == 0);
            }
        }
    }
}

/// A release moves one resource from a guard back to the queue: the
/// instances in circulation are exactly the ones from before.
pub proof fn lemma_release_keeps_circulation<T>(m: PoolModel<T>, item: T)
    requires
        m.outstanding.count(item) > 0,
    ensures
        in_circulation(released_step(m, item)) == in_circulation(m),
{
    assert(in_circulation(released_step(m, item)) =~= in_circulation(m)) by {
        assert forall|v: T|
            in_circulation(released_step(m, item)).count(v) == in_circulation(m).count(v) by {
            if v != item {
                assert(Multiset::singleton(item).count(v) == 0);
            }
        }
    }
}

/// A pool seeded with pairwise distinct resources starts exclusive.
pub proof fn lemma_seeded_exclusive<T>(initial: Seq<T>)
    requires
        initial.no_duplicates(),
    ensures
        exclusive(seeded(initial)),
{
    initial.lemma_multiset_has_no_duplicates();
    assert forall|r: T| #[trigger] in_circulation(seeded(initial)).count(r) <= 1 by {
        if initial.to_multiset().count(r) > 0 {
            assert(initial.to_multiset().contains(r));
        }
    }
}

/// Exclusivity is preserved by adding a resource instance that is not
/// already in circulation.
pub proof fn lemma_add_preserves_exclusive<T>(m: PoolModel<T>, item: T)
    requires
        exclusive(m),
        in_circulation(m).count(item) == 0,
    ensures
        exclusive(added_step(m, item)),
{
    assert forall|r: T| #[trigger] in_circulation(added_step(m, item)).count(r) <= 1 by {
        if r != item {
            assert(Multiset::singleton(item).count(r) == 0);
        }
        assert(in_circulation(m).count(r) <= 1);
    }
}

/// Exclusivity is preserved by a reservation.
pub proof fn lemma_rsvp_preserves_exclusive<T>(m: PoolModel<T>)
    requires
        exclusive(m),
        m.available.len() > 0,
    ensures
        exclusive(reserved_step(m)),
{
    lemma_rsvp_keeps_circulation(m);
}

/// Exclusivity is preserved by a release.
pub proof fn lemma_release_preserves_exclusive<T>(m: PoolModel<T>, item: T)
    requires
        exclusive(m),
        m.outstanding.count(item) > 0,
    ensures
        exclusive(released_step(m, item)),
{
    lemma_release_keeps_circulation(m, item);
}

/// Exclusivity, read off the guards alone: in an exclusive pool no two
/// concurrently active guards hold the same resource instance.
pub proof fn lemma_no_double_borrow<T>(m: PoolModel<T>, r: T)
    requires
        exclusive(m),
    ensures
        m.outstanding.count(r) <= 1,
{
    assert(in_circulation(m).count(r) <= 1);
}

/// FIFO order: with at least two resources queued and nothing
/// interleaving, two reservations in a row hand out the front two
/// resources, in the order they stand in the queue.
pub proof fn lemma_fifo_order<T>(m: PoolModel<T>)
    requires
        m.available.len() >= 2,
    ensures
        m.available.first() == m.available[0],
        reserved_step(m).available.first() == m.available[1],
{
}

/// A resource added to an empty queue serves the waiting reservation:
/// the next reservation is handed exactly that resource.
pub proof fn lemma_added_is_served_next<T>(m: PoolModel<T>, item: T)
    requires
        m.available.len() == 0,
    ensures
        added_step(m, item).available.first() == item,
{
}

/// A released resource is immediately available again: when the queue
/// was empty, the very next reservation is served exactly the resource
/// the guard gave back.
pub proof fn lemma_released_is_served_next<T>(m: PoolModel<T>, item: T)
    requires
        m.available.len() == 0,
        m.outstanding.count(item) > 0,
    ensures
        released_step(m, item).available.first() == item,
{
}

/// One full borrow cycle on a nonempty queue: the front resource is
/// reserved, then released back, so it moves to the rear.
pub open spec fn cycle<T>(s: Seq<T>) -> Seq<T>
    recommends
        s.len() > 0,
{
    s.drop_first().push(s.first())
}

/// `n` borrow cycles in a row.
pub open spec fn cycle_n<T>(s: Seq<T>, n: nat) -> Seq<T>
    decreases n,
{
    if n == 0 {
        s
    } else {
        cycle_n(cycle(s), (n - 1) as nat)
    }
}

/// Round trip: one reserve-then-release cycle changes neither how many
/// resources the queue holds nor which ones — only their order, by
/// rotating the front to the rear.
pub proof fn lemma_cycle_preserves_elements<T>(s: Seq<T>)
    requires
        s.len() > 0,
    ensures
        cycle(s).len() == s.len(),
        cycle(s).to_multiset() == s.to_multiset(),
{
    assert(s.remove(0) =~= s.drop_first());
    assert(s.contains(s[0]));
    assert(cycle(s).to_multiset() == s.drop_first().to_multiset().insert(s.first()));
    assert(cycle(s).to_multiset() =~= s.to_multiset()) by {
        assert forall|v: T| cycle(s).to_multiset().count(v) == s.to_multiset().count(v) by {
            assert(s.to_multiset().count(s[0]) > 0);
            if v != s[0] {
                assert(Multiset::singleton(s[0]).count(v) == 0);
            }
        }
    }
}

/// Round trip, repeated: any number of reserve-then-release cycles
/// leaves the pool's available resources the same multiset, at the same
/// count.
pub proof fn lemma_cycle_n_preserves_elements<T>(s: Seq<T>, n: nat)
    requires
        s.len() > 0,
    ensures
        cycle_n(s, n).len() == s.len(),
        cycle_n(s, n).to_multiset() == s.to_multiset(),
    decreases n,
{
    if n > 0 {
        lemma_cycle_preserves_elements(s);
        lemma_cycle_n_preserves_elements(cycle(s), (n - 1) as nat);
    }
}

/// `n` cycles rotate the queue by `n` places: the first `n` resources
/// have moved, in order, to the rear.
pub proof fn lemma_cycle_n_rotates<T>(s: Seq<T>, n: nat)
    requires
        s.len() > 0,
        n <= s.len(),
    ensures
        cycle_n(s, n) == s.subrange(n as int, s.len() as int) + s.subrange(0, n as int),
    decreases n,
{
    let len = s.len() as int;
    if n == 0 {
        assert(cycle_n(s, 0) =~= s.subrange(0, len) + s.subrange(0, 0));
    } else {
        let c = cycle(s);
        lemma_cycle_preserves_elements(s);
        lemma_cycle_n_rotates(c, (n - 1) as nat);
        assert(cycle_n(s, n) =~= s.subrange(n as int, len) + s.subrange(0, n as int)) by {
            let rotated = c.subrange(n - 1, len) + c.subrange(0, n - 1);
            assert(cycle_n(s, n) == rotated);
            assert forall|i: int| 0 <= i < len implies rotated[i] == (s.subrange(n as int, len)
                + s.subrange(0, n as int))[i] by {
                if i < len - n {
                    assert(rotated[i] == c[n - 1 + i]);
                    assert(c[n - 1 + i] == s[n + i]);
                } else if i == len - n {
                    assert(rotated[i] == c[len - 1]);
                    assert(c[len - 1] == s[0]);
                } else {
                    assert(rotated[i] == c[i - (len - n + 1)]);
                    assert(c[i - (len - n + 1)] == s[i - len + n]);
                }
            }
        }
    }
}

/// Round trip, full circle: cycling once through every queued resource
/// restores the queue exactly — same resources, original order.
pub proof fn lemma_full_rotation_restores<T>(s: Seq<T>)
    requires
        s.len() > 0,
    ensures
        cycle_n(s, s.len()) == s,
{
    let len = s.len() as int;
    lemma_cycle_n_rotates(s, s.len());
    assert(s.subrange(len, len) + s.subrange(0, len) =~= s);
}

} // verus!
