//! Delivery bookkeeping for background code cell completions.
//!
//! A code cell that runs in the background is registered, armed when the model
//! should be woken up for it, and completed when it finishes (possibly before it
//! was registered). Once a registration is both armed and completed, a wakeup is
//! enqueued for it, exactly once. Observing the cell directly, finishing it or
//! delivering its wakeup retires the registration.
//!
//! The broker decides; the caller performs the returned [`BrokerAction`]s
//! (enqueueing or retracting a wakeup in the session's input queue) and, once an
//! enqueue has been carried out, asks [`CodeCellCompletionBroker::enqueued_wakeup_observed`]
//! whether the registration was observed meanwhile.
use vstd::prelude::*;

verus! {

/// The delivery state of one registration of a code cell.
#[derive(Debug, Clone, Copy, PartialEq, Eq)]
pub struct CodeCellCompletionRegistration {
    /// Identifies the registration among all registrations of the broker.
    pub id: u64,
    /// The model is waiting to be woken up for this cell.
    pub armed: bool,
    /// The cell has finished running.
    pub completed: bool,
    /// A wakeup has been enqueued for this registration.
    pub enqueued: bool,
    /// The cell's result was observed directly or its wakeup was delivered.
    pub observed: bool,
    /// A wakeup is still owed for this registration.
    pub delivery_pending: bool,
}

/// A registration after it is armed, and whether a wakeup is to be enqueued now.
pub open spec fn armed_registration(r: CodeCellCompletionRegistration) -> (
    CodeCellCompletionRegistration,
    bool,
) {
    let fire = r.completed && !r.enqueued && !r.observed;
    (
        CodeCellCompletionRegistration {
            id: r.id,
            armed: true,
            completed: r.completed,
            enqueued: r.enqueued || fire,
            observed: r.observed,
            delivery_pending: true,
        },
        fire,
    )
}

/// A registration after its cell completes, and whether a wakeup is to be enqueued now.
pub open spec fn completed_registration(r: CodeCellCompletionRegistration) -> (
    CodeCellCompletionRegistration,
    bool,
) {
    let fire = r.armed && !r.enqueued && !r.observed;
    (
        CodeCellCompletionRegistration {
            id: r.id,
            armed: r.armed,
            completed: true,
            enqueued: r.enqueued || fire,
            observed: r.observed,
            delivery_pending: r.delivery_pending,
        },
        fire,
    )
}

/// A registration after its cell was observed or its wakeup delivered.
pub open spec fn observed_registration(r: CodeCellCompletionRegistration) -> CodeCellCompletionRegistration {
    CodeCellCompletionRegistration {
        id: r.id,
        armed: r.armed,
        completed: r.completed,
        enqueued: r.enqueued,
        observed: true,
        delivery_pending: false,
    }
}

/// A fresh registration: nothing has happened to it yet.
pub open spec fn fresh_registration(id: u64) -> CodeCellCompletionRegistration {
    CodeCellCompletionRegistration {
        id,
        armed: false,
        completed: false,
        enqueued: false,
        observed: false,
        delivery_pending: false,
    }
}

impl CodeCellCompletionRegistration {
    /// A fresh registration with the given identity.
    pub fn new(id: u64) -> (r: Self)
        ensures
            r == fresh_registration(id),
    {
        CodeCellCompletionRegistration {
            id,
            armed: false,
            completed: false,
            enqueued: false,
            observed: false,
            delivery_pending: false,
        }
    }

    /// Arms the registration; returns whether a wakeup is to be enqueued now.
    pub fn arm(&mut self) -> (should_enqueue: bool)
        ensures
            (*final(self), should_enqueue) == armed_registration(*old(self)),
            should_enqueue <==> (old(self).completed && !old(self).enqueued && !old(self).observed),
            final(self).armed && final(self).delivery_pending,
            final(self).enqueued == (old(self).enqueued || should_enqueue),
            final(self).id == old(self).id && final(self).completed == old(self).completed
                && final(self).observed == old(self).observed,
    {
        self.delivery_pending = true;
        self.armed = true;
        if self.completed && !self.enqueued && !self.observed {
            self.enqueued = true;
            true
        } else {
            false
        }
    }

    /// Records that the cell completed; returns whether a wakeup is to be enqueued now.
    pub fn complete(&mut self) -> (should_enqueue: bool)
        ensures
            (*final(self), should_enqueue) == completed_registration(*old(self)),
            should_enqueue <==> (old(self).armed && !old(self).enqueued && !old(self).observed),
            final(self).completed,
            final(self).enqueued == (old(self).enqueued || should_enqueue),
            final(self).id == old(self).id && final(self).armed == old(self).armed
                && final(self).observed == old(self).observed
                && final(self).delivery_pending == old(self).delivery_pending,
    {
        self.completed = true;
        if self.armed && !self.enqueued && !self.observed {
            self.enqueued = true;
            true
        } else {
            false
        }
    }

    /// Records that the cell's result was observed directly.
    pub fn observed(&mut self)
        ensures
            *final(self) == observed_registration(*old(self)),
    {
        self.delivery_pending = false;
        self.observed = true;
    }

    /// Records that the cell's wakeup was delivered.
    pub fn delivered(&mut self)
        ensures
            *final(self) == observed_registration(*old(self)),
    {
        self.delivery_pending = false;
        self.observed = true;
    }
}

/// Work that the broker hands to its caller.
#[derive(Debug)]
pub enum BrokerAction {
    /// Enqueue a completion wakeup for the cell, on behalf of the given registration.
    Enqueue { registration_id: u64, cell_id: String },
    /// Remove any queued completion wakeup of the cell.
    RemoveQueuedWakeup { cell_id: String },
}

/// A [`BrokerAction`] with the cell id taken by its characters.
pub enum BrokerActionView {
    Enqueue { registration_id: u64, cell_id: Seq<char> },
    RemoveQueuedWakeup { cell_id: Seq<char> },
}

impl View for BrokerAction {
    type V = BrokerActionView;

    open spec fn view(&self) -> BrokerActionView {
        match self {
            BrokerAction::Enqueue { registration_id, cell_id } => BrokerActionView::Enqueue {
                registration_id: *registration_id,
                cell_id: cell_id@,
            },
            BrokerAction::RemoveQueuedWakeup { cell_id } => BrokerActionView::RemoveQueuedWakeup {
                cell_id: cell_id@,
            },
        }
    }
}

/// An optional action, viewed.
pub open spec fn action_view(a: Option<BrokerAction>) -> Option<BrokerActionView> {
    match a {
        Some(x) => Some(x@),
        None => None,
    }
}

/// The abstract state of a [`CodeCellCompletionBroker`].
pub struct BrokerView {
    /// The current registration of each registered cell.
    pub registrations: Map<Seq<char>, CodeCellCompletionRegistration>,
    /// Cells that completed while no registration existed for them.
    pub completed_before_registration: Set<Seq<char>>,
    /// Retired registrations that were observed after their wakeup was enqueued.
    pub observed_awaiting_enqueue: Set<u64>,
    /// The identity the next registration receives.
    pub next_registration_id: u64,
}

/// What holds of every reachable broker state.
pub open spec fn broker_invariant(v: BrokerView) -> bool {
    &&& forall|k: Seq<char>| #[trigger]
        v.registrations.contains_key(k) ==> {
            let r = v.registrations[k];
            &&& !r.observed
            &&& r.delivery_pending == r.armed
            &&& r.enqueued == (r.armed && r.completed)
            &&& r.id < v.next_registration_id
        }
    &&& forall|k1: Seq<char>, k2: Seq<char>|
        #![trigger v.registrations[k1], v.registrations[k2]]
        v.registrations.contains_key(k1) && v.registrations.contains_key(k2) && k1 != k2
            ==> v.registrations[k1].id != v.registrations[k2].id
    &&& forall|id: u64| #[trigger]
        v.observed_awaiting_enqueue.contains(id) ==> id < v.next_registration_id
    &&& forall|id: u64, k: Seq<char>|
        #![trigger v.observed_awaiting_enqueue.contains(id), v.registrations[k]]
        v.observed_awaiting_enqueue.contains(id) && v.registrations.contains_key(k)
            ==> v.registrations[k].id != id
    &&& forall|k: Seq<char>| #[trigger]
        v.completed_before_registration.contains(k) ==> !v.registrations.contains_key(k)
}

/// The broker state after registering `k`: a fresh registration replaces any earlier one,
/// and a completion that arrived before it is carried over.
pub open spec fn register_step(v: BrokerView, k: Seq<char>) -> BrokerView {
    let fresh = fresh_registration(v.next_registration_id);
    let r = if v.completed_before_registration.contains(k) {
        completed_registration(fresh).0
    } else {
        fresh
    };
    BrokerView {
        registrations: v.registrations.insert(k, r),
        completed_before_registration: v.completed_before_registration.remove(k),
        observed_awaiting_enqueue: v.observed_awaiting_enqueue,
        next_registration_id: (v.next_registration_id + 1) as u64,
    }
}

/// The broker state after arming `k`, and the action it calls for.
pub open spec fn arm_step(v: BrokerView, k: Seq<char>) -> (BrokerView, Option<BrokerActionView>) {
    if v.registrations.contains_key(k) {
        let (r, fire) = armed_registration(v.registrations[k]);
        (
            BrokerView { registrations: v.registrations.insert(k, r), ..v },
            if fire {
                Some(BrokerActionView::Enqueue { registration_id: r.id, cell_id: k })
            } else {
                None
            },
        )
    } else {
        (v, None)
    }
}

/// The broker state after `k` completes, and the action it calls for. A completion of an
/// unregistered cell is remembered for its registration.
pub open spec fn completed_step(v: BrokerView, k: Seq<char>) -> (BrokerView, Option<BrokerActionView>) {
    if v.registrations.contains_key(k) {
        let (r, fire) = completed_registration(v.registrations[k]);
        (
            BrokerView { registrations: v.registrations.insert(k, r), ..v },
            if fire {
                Some(BrokerActionView::Enqueue { registration_id: r.id, cell_id: k })
            } else {
                None
            },
        )
    } else {
        (
            BrokerView {
                completed_before_registration: v.completed_before_registration.insert(k),
                ..v
            },
            None,
        )
    }
}

/// The broker state after the registration of `k` is retired as observed; when
/// `retract` holds, any queued wakeup of `k` is to be removed.
pub open spec fn retire_step(v: BrokerView, k: Seq<char>, retract: bool) -> (
    BrokerView,
    Option<BrokerActionView>,
) {
    if v.registrations.contains_key(k) {
        let r = v.registrations[k];
        (
            BrokerView {
                registrations: v.registrations.remove(k),
                observed_awaiting_enqueue: if r.enqueued {
                    v.observed_awaiting_enqueue.insert(r.id)
                } else {
                    v.observed_awaiting_enqueue
                },
                ..v
            },
            if retract {
                Some(BrokerActionView::RemoveQueuedWakeup { cell_id: k })
            } else {
                None
            },
        )
    } else {
        (v, None)
    }
}

/// The broker state after `k` finishes: its early completion is forgotten and its
/// registration is retired with its queued wakeup removed.
pub open spec fn finish_step(v: BrokerView, k: Seq<char>) -> (BrokerView, Option<BrokerActionView>) {
    retire_step(
        BrokerView {
            completed_before_registration: v.completed_before_registration.remove(k),
            ..v
        },
        k,
        true,
    )
}

/// Whether some current registration still owes a wakeup.
pub open spec fn has_pending_delivery_view(v: BrokerView) -> bool {
    exists|k: Seq<char>| #[trigger]
        v.registrations.contains_key(k) && v.registrations[k].delivery_pending
}

/// The broker state after the enqueue for registration `id` was carried out, and whether
/// that registration had been observed meanwhile.
pub open spec fn settle_enqueue_step(v: BrokerView, id: u64) -> (BrokerView, bool) {
    (
        BrokerView {
            observed_awaiting_enqueue: v.observed_awaiting_enqueue.remove(id),
            ..v
        },
        v.observed_awaiting_enqueue.contains(id),
    )
}

/// The characters of each string of a sequence.
pub open spec fn string_views(s: Seq<String>) -> Seq<Seq<char>> {
    s.map_values(|x: String| x@)
}

/// The map that pairs each key with the value at its position.
pub open spec fn keyed_map(
    keys: Seq<Seq<char>>,
    vals: Seq<CodeCellCompletionRegistration>,
) -> Map<Seq<char>, CodeCellCompletionRegistration> {
    Map::new(|k: Seq<char>| keys.contains(k), |k: Seq<char>| vals[keys.index_of(k)])
}

proof fn lemma_index_of_unique(keys: Seq<Seq<char>>, i: int)
    requires
        keys.no_duplicates(),
        0 <= i < keys.len(),
    ensures
        keys.contains(keys[i]),
        keys.index_of(keys[i]) == i,
{
    assert(keys[i] == keys[i]);
    let j = keys.index_of(keys[i]);
    assert(0 <= j < keys.len() && keys[j] == keys[i]);
}

proof fn lemma_keyed_lookup(keys: Seq<Seq<char>>, vals: Seq<CodeCellCompletionRegistration>, i: int)
    requires
        keys.no_duplicates(),
        0 <= i < keys.len(),
    ensures
        keyed_map(keys, vals).contains_key(keys[i]),
        keyed_map(keys, vals)[keys[i]] == vals[i],
{
    lemma_index_of_unique(keys, i);
}

proof fn lemma_keyed_update(
    keys: Seq<Seq<char>>,
    vals: Seq<CodeCellCompletionRegistration>,
    i: int,
    r: CodeCellCompletionRegistration,
)
    requires
        keys.no_duplicates(),
        keys.len() == vals.len(),
        0 <= i < keys.len(),
    ensures
        keyed_map(keys, vals.update(i, r)) == keyed_map(keys, vals).insert(keys[i], r),
{
    let m1 = keyed_map(keys, vals.update(i, r));
    let m2 = keyed_map(keys, vals).insert(keys[i], r);
    lemma_index_of_unique(keys, i);
    assert forall|k: Seq<char>| m1.contains_key(k) implies m1[k] == m2[k] by {
        let j = keys.index_of(k);
        assert(0 <= j < keys.len() && keys[j] == k);
        if j != i {
            assert(k != keys[i]);
        }
    }
    assert(m1 =~= m2);
}

proof fn lemma_seq_remove<A>(s: Seq<A>, i: int)
    requires
        s.no_duplicates(),
        0 <= i < s.len(),
    ensures
        s.remove(i).no_duplicates(),
        forall|x: A| #[trigger] s.remove(i).contains(x) <==> (s.contains(x) && x != s[i]),
        forall|a: int| 0 <= a < s.remove(i).len() ==> #[trigger] s.remove(i)[a] == s[if a < i { a } else { a + 1 }],
{
    let r = s.remove(i);
    assert forall|a: int| 0 <= a < r.len() implies #[trigger] r[a] == s[if a < i { a } else { a + 1 }] by {}
    assert forall|a: int, b: int| 0 <= a < r.len() && 0 <= b < r.len() && a != b implies r[a] != r[b] by {
        let a2 = if a < i { a } else { a + 1 };
        let b2 = if b < i { b } else { b + 1 };
        assert(r[a] == s[a2]);
        assert(r[b] == s[b2]);
    }
    assert forall|x: A| #[trigger] r.contains(x) <==> (s.contains(x) && x != s[i]) by {
        if r.contains(x) {
            let a = choose|a: int| 0 <= a < r.len() && r[a] == x;
            let a2 = if a < i { a } else { a + 1 };
            assert(s[a2] == x);
        }
        if s.contains(x) && x != s[i] {
            let a = choose|a: int| 0 <= a < s.len() && s[a] == x;
            let a1 = if a < i { a } else { a - 1 };
            assert(r[a1] == x);
        }
    }
}

proof fn lemma_seq_push<A>(s: Seq<A>, x: A)
    requires
        s.no_duplicates(),
        !s.contains(x),
    ensures
        s.push(x).no_duplicates(),
        forall|y: A| #[trigger] s.push(x).contains(y) <==> (s.contains(y) || y == x),
{
    let r = s.push(x);
    assert forall|a: int, b: int| 0 <= a < r.len() && 0 <= b < r.len() && a != b implies r[a] != r[b] by {
        if a == s.len() {
            assert(s[b] == r[b]);
        } else if b == s.len() {
            assert(s[a] == r[a]);
        } else {
            assert(s[a] == r[a] && s[b] == r[b]);
        }
    }
    assert forall|y: A| #[trigger] r.contains(y) <==> (s.contains(y) || y == x) by {
        if r.contains(y) && y != x {
            let a = choose|a: int| 0 <= a < r.len() && r[a] == y;
            assert(s[a] == y);
        }
        if s.contains(y) {
            let a = choose|a: int| 0 <= a < s.len() && s[a] == y;
            assert(r[a] == y);
        }
        if y == x {
            assert(r[s.len() as int] == x);
        }
    }
}

proof fn lemma_keyed_remove(keys: Seq<Seq<char>>, vals: Seq<CodeCellCompletionRegistration>, i: int)
    requires
        keys.no_duplicates(),
        keys.len() == vals.len(),
        0 <= i < keys.len(),
    ensures
        keys.remove(i).no_duplicates(),
        keyed_map(keys.remove(i), vals.remove(i)) == keyed_map(keys, vals).remove(keys[i]),
{
    let ks = keys.remove(i);
    let vs = vals.remove(i);
    lemma_seq_remove(keys, i);
    let m1 = keyed_map(ks, vs);
    let m2 = keyed_map(keys, vals).remove(keys[i]);
    assert forall|k: Seq<char>| m1.contains_key(k) implies m1[k] == m2[k] by {
        let a = ks.index_of(k);
        assert(0 <= a < ks.len() && ks[a] == k);
        let a2 = if a < i { a } else { a + 1 };
        assert(keys[a2] == k);
        lemma_index_of_unique(keys, a2);
        assert(vs[a] == vals[a2]);
    }
    assert(m1 =~= m2);
}

proof fn lemma_keyed_push(
    keys: Seq<Seq<char>>,
    vals: Seq<CodeCellCompletionRegistration>,
    k: Seq<char>,
    r: CodeCellCompletionRegistration,
)
    requires
        keys.no_duplicates(),
        keys.len() == vals.len(),
        !keys.contains(k),
    ensures
        keys.push(k).no_duplicates(),
        keyed_map(keys.push(k), vals.push(r)) == keyed_map(keys, vals).insert(k, r),
{
    let ks = keys.push(k);
    let vs = vals.push(r);
    lemma_seq_push(keys, k);
    let m1 = keyed_map(ks, vs);
    let m2 = keyed_map(keys, vals).insert(k, r);
    assert forall|x: Seq<char>| m1.contains_key(x) implies m1[x] == m2[x] by {
        let a = ks.index_of(x);
        assert(0 <= a < ks.len() && ks[a] == x);
        lemma_index_of_unique(ks, a);
        if a < keys.len() {
            assert(keys[a] == x);
            lemma_index_of_unique(keys, a);
        }
    }
    assert(m1 =~= m2);
}

proof fn lemma_update_keeps_invariant(
    v: BrokerView,
    k: Seq<char>,
    r: CodeCellCompletionRegistration,
)
    requires
        broker_invariant(v),
        v.registrations.contains_key(k),
        r.id == v.registrations[k].id,
        !r.observed,
        r.delivery_pending == r.armed,
        r.enqueued == (r.armed && r.completed),
    ensures
        broker_invariant(BrokerView { registrations: v.registrations.insert(k, r), ..v }),
{
    let w = BrokerView { registrations: v.registrations.insert(k, r), ..v };
    assert forall|k1: Seq<char>, k2: Seq<char>|
        w.registrations.contains_key(k1) && w.registrations.contains_key(k2) && k1 != k2
        implies w.registrations[k1].id != w.registrations[k2].id by {
        assert(v.registrations[k1].id == w.registrations[k1].id);
        assert(v.registrations[k2].id == w.registrations[k2].id);
    }
    assert forall|i: u64, k2: Seq<char>|
        w.observed_awaiting_enqueue.contains(i) && w.registrations.contains_key(k2)
        implies w.registrations[k2].id != i by {
        assert(v.registrations[k2].id == w.registrations[k2].id);
    }
    assert forall|k2: Seq<char>| #[trigger] w.registrations.contains_key(k2) implies {
        let x = w.registrations[k2];
        &&& !x.observed
        &&& x.delivery_pending == x.armed
        &&& x.enqueued == (x.armed && x.completed)
        &&& x.id < w.next_registration_id
    } by {
        if k2 != k {
            assert(v.registrations[k2] == w.registrations[k2]);
        } else {
            assert(v.registrations.contains_key(k));
        }
    }
}

/// Arming and completing a registered cell commute: in either order the broker ends in the
/// same state, the first of the two asks for nothing and the second asks for exactly one
/// enqueue on behalf of the cell's registration; after that, neither asks for anything more.
pub proof fn lemma_arm_and_complete_enqueue_once(v: BrokerView, k: Seq<char>)
    requires
        broker_invariant(v),
        v.registrations.contains_key(k),
        !v.registrations[k].armed,
        !v.registrations[k].completed,
    ensures
        ({
            let (a1, x1) = arm_step(v, k);
            let (a2, x2) = completed_step(a1, k);
            let (c1, y1) = completed_step(v, k);
            let (c2, y2) = arm_step(c1, k);
            let enqueue = Some(
                BrokerActionView::Enqueue { registration_id: v.registrations[k].id, cell_id: k },
            );
            &&& a2 == c2
            &&& x1 is None && y1 is None
            &&& x2 == enqueue && y2 == enqueue
            &&& arm_step(a2, k).1 is None
            &&& completed_step(a2, k).1 is None
        }),
{
    let (a1, x1) = arm_step(v, k);
    let (a2, x2) = completed_step(a1, k);
    let (c1, y1) = completed_step(v, k);
    let (c2, y2) = arm_step(c1, k);
    assert(a2.registrations =~= c2.registrations);
}

/// A cell that completes before it is registered gets its wakeup enqueued as soon as its
/// registration is armed.
pub proof fn lemma_early_completion_carried_over(v: BrokerView, k: Seq<char>)
    requires
        broker_invariant(v),
        !v.registrations.contains_key(k),
        v.next_registration_id < u64::MAX,
    ensures
        ({
            let (v1, x1) = completed_step(v, k);
            let v2 = register_step(v1, k);
            let (v3, x3) = arm_step(v2, k);
            &&& x1 is None
            &&& !v2.completed_before_registration.contains(k)
            &&& x3 == Some(
                BrokerActionView::Enqueue { registration_id: v.next_registration_id, cell_id: k },
            )
        }),
{
}

/// Some registration owes a wakeup exactly when some current registration is armed.
pub proof fn lemma_pending_delivery_iff_armed(v: BrokerView)
    requires
        broker_invariant(v),
    ensures
        has_pending_delivery_view(v) <==> exists|k: Seq<char>| #[trigger]
            v.registrations.contains_key(k) && v.registrations[k].armed,
{
    if has_pending_delivery_view(v) {
        let k = choose|k: Seq<char>| #[trigger]
            v.registrations.contains_key(k) && v.registrations[k].delivery_pending;
        assert(v.registrations.contains_key(k) && v.registrations[k].armed);
    }
    if exists|k: Seq<char>| #[trigger] v.registrations.contains_key(k) && v.registrations[k].armed {
        let k = choose|k: Seq<char>| #[trigger]
            v.registrations.contains_key(k) && v.registrations[k].armed;
        assert(v.registrations.contains_key(k) && v.registrations[k].delivery_pending);
    }
}

/// A wakeup enqueued for a registration is retracted exactly when the registration was
/// retired as observed (directly, by finishing or by delivery) before the enqueue was
/// carried out; a registration that is still current does not retract it.
pub proof fn lemma_enqueued_wakeup_retracted_iff_observed(v: BrokerView, k: Seq<char>, retract: bool)
    requires
        broker_invariant(v),
        v.registrations.contains_key(k),
        v.registrations[k].enqueued,
    ensures
        !settle_enqueue_step(v, v.registrations[k].id).1,
        settle_enqueue_step(retire_step(v, k, retract).0, v.registrations[k].id).1,
        settle_enqueue_step(finish_step(v, k).0, v.registrations[k].id).1,
{
    let id = v.registrations[k].id;
    assert(!v.observed_awaiting_enqueue.contains(id));
}

/// A retired cell owes no wakeup and a second retirement changes nothing.
pub proof fn lemma_retire_idempotent(v: BrokerView, k: Seq<char>, retract: bool)
    requires
        broker_invariant(v),
    ensures
        !retire_step(v, k, retract).0.registrations.contains_key(k),
        retire_step(retire_step(v, k, retract).0, k, retract) == (
            retire_step(v, k, retract).0,
            None::<BrokerActionView>,
        ),
{
}

/// Arming asks for an enqueue only for a registered cell that has completed and whose wakeup
/// was not enqueued yet; a completed, not yet armed cell always gets its wakeup enqueued on
/// behalf of its registration; a second arm never asks for anything.
pub proof fn lemma_arm_enqueues_only_completed_cells_once(v: BrokerView, k: Seq<char>)
    requires
        broker_invariant(v),
    ensures
        arm_step(v, k).1 is Some ==> v.registrations.contains_key(k) && v.registrations[k].completed
            && !v.registrations[k].enqueued,
        v.registrations.contains_key(k) && !v.registrations[k].completed ==> arm_step(v, k).1 is None,
        v.registrations.contains_key(k) && v.registrations[k].completed && !v.registrations[k].armed
            ==> arm_step(v, k).1 == Some(
            BrokerActionView::Enqueue { registration_id: v.registrations[k].id, cell_id: k },
        ),
        v.registrations.contains_key(k) ==> {
            let w = arm_step(v, k).0;
            &&& w.registrations.contains_key(k)
            &&& w.registrations[k].armed
            &&& w.registrations[k].delivery_pending
            &&& w.registrations[k].enqueued == w.registrations[k].completed
            &&& w.registrations[k].id == v.registrations[k].id
            &&& w.registrations[k].completed == v.registrations[k].completed
        },
        arm_step(arm_step(v, k).0, k).1 is None,
        !v.registrations.contains_key(k) ==> arm_step(v, k) == (v, None::<BrokerActionView>),
{
}

/// Finishing a registered cell always asks for its queued wakeup to be removed, whether or
/// not one was enqueued, and leaves neither a registration nor an early completion of the
/// cell behind; finishing an unregistered cell asks for nothing. Observing a cell directly
/// asks for the same removal.
pub proof fn lemma_finish_always_retracts(v: BrokerView, k: Seq<char>)
    requires
        broker_invariant(v),
    ensures
        v.registrations.contains_key(k) ==> finish_step(v, k).1 == Some(
            BrokerActionView::RemoveQueuedWakeup { cell_id: k },
        ),
        v.registrations.contains_key(k) ==> retire_step(v, k, true).1 == Some(
            BrokerActionView::RemoveQueuedWakeup { cell_id: k },
        ),
        !v.registrations.contains_key(k) ==> finish_step(v, k).1 is None,
        !finish_step(v, k).0.registrations.contains_key(k),
        !finish_step(v, k).0.completed_before_registration.contains(k),
        forall|k2: Seq<char>| k2 != k && #[trigger] v.registrations.contains_key(k2) ==> finish_step(
            v,
            k,
        ).0.registrations.contains_key(k2) && finish_step(v, k).0.registrations[k2]
            == v.registrations[k2],
{
}

/// A new registration starts unarmed, unenqueued and unobserved with the next identity, and
/// is completed exactly when the cell completed while it had no registration; whatever an
/// earlier registration of the cell went through is not carried over. So registering and
/// then arming, with no completion in between, asks for an enqueue exactly when such an
/// early completion was recorded.
pub proof fn lemma_register_starts_fresh(v: BrokerView, k: Seq<char>)
    requires
        broker_invariant(v),
        v.next_registration_id < u64::MAX,
    ensures
        ({
            let w = register_step(v, k);
            let r = w.registrations[k];
            &&& w.registrations.contains_key(k)
            &&& r.id == v.next_registration_id
            &&& r.completed == v.completed_before_registration.contains(k)
            &&& !r.armed && !r.enqueued && !r.observed && !r.delivery_pending
            &&& !w.completed_before_registration.contains(k)
            &&& w.next_registration_id == v.next_registration_id + 1
            &&& (arm_step(w, k).1 is Some <==> v.completed_before_registration.contains(k))
        }),
{
}

/// Tracks the registrations of background code cells and decides when their
/// completion wakeups are enqueued and retracted.
pub struct CodeCellCompletionBroker {
    cell_ids: Vec<String>,
    registrations: Vec<CodeCellCompletionRegistration>,
    completed_before_registration: Vec<String>,
    observed_awaiting_enqueue: Vec<u64>,
    next_registration_id: u64,
}

impl View for CodeCellCompletionBroker {
    type V = BrokerView;

    closed spec fn view(&self) -> BrokerView {
        BrokerView {
            registrations: keyed_map(string_views(self.cell_ids@), self.registrations@),
            completed_before_registration: Set::new(
                |k: Seq<char>| string_views(self.completed_before_registration@).contains(k),
            ),
            observed_awaiting_enqueue: Set::new(
                |id: u64| self.observed_awaiting_enqueue@.contains(id),
            ),
            next_registration_id: self.next_registration_id,
        }
    }
}

impl Default for CodeCellCompletionBroker {
    /// An empty broker.
    fn default() -> (broker: Self)
        ensures
            broker.wf(),
            broker@.registrations == Map::<Seq<char>, CodeCellCompletionRegistration>::empty(),
            broker@.completed_before_registration == Set::<Seq<char>>::empty(),
            broker@.observed_awaiting_enqueue == Set::<u64>::empty(),
            broker@.next_registration_id == 0,
    {
        CodeCellCompletionBroker::new()
    }
}

impl CodeCellCompletionBroker {
    closed spec fn storage_wf(&self) -> bool {
        &&& self.cell_ids@.len() == self.registrations@.len()
        &&& string_views(self.cell_ids@).no_duplicates()
        &&& string_views(self.completed_before_registration@).no_duplicates()
        &&& self.observed_awaiting_enqueue@.no_duplicates()
    }

    /// The broker's representation is consistent and its state is reachable.
    pub closed spec fn wf(&self) -> bool {
        &&& self.storage_wf()
        &&& broker_invariant(self@)
    }

    /// A well-formed broker satisfies the broker invariant.
    pub proof fn lemma_wf_invariant(&self)
        requires
            self.wf(),
        ensures
            broker_invariant(self@),
    {
    }

    /// An empty broker.
    pub fn new() -> (broker: Self)
        ensures
            broker.wf(),
            broker@.registrations == Map::<Seq<char>, CodeCellCompletionRegistration>::empty(),
            broker@.completed_before_registration == Set::<Seq<char>>::empty(),
            broker@.observed_awaiting_enqueue == Set::<u64>::empty(),
            broker@.next_registration_id == 0,
    {
        let broker = CodeCellCompletionBroker {
            cell_ids: Vec::new(),
            registrations: Vec::new(),
            completed_before_registration: Vec::new(),
            observed_awaiting_enqueue: Vec::new(),
            next_registration_id: 0,
        };
        assert(string_views(broker.cell_ids@) =~= Seq::<Seq<char>>::empty());
        assert(string_views(broker.completed_before_registration@) =~= Seq::<Seq<char>>::empty());
        assert(broker@.registrations =~= Map::<Seq<char>, CodeCellCompletionRegistration>::empty());
        assert(broker@.completed_before_registration =~= Set::<Seq<char>>::empty());
        assert(broker@.observed_awaiting_enqueue =~= Set::<u64>::empty());
        broker
    }

    /// Whether another registration can still be given an identity of its own.
    pub fn can_register(&self) -> (ok: bool)
        ensures
            ok == (self@.next_registration_id < u64::MAX),
    {
        self.next_registration_id < u64::MAX
    }

    /// The position of `cell_id` in `ids`, if it occurs there.
    fn position_of(ids: &Vec<String>, cell_id: &String) -> (r: Option<usize>)
        ensures
            r matches Some(i) ==> i < ids@.len() && string_views(ids@)[i as int] == cell_id@,
            r is None ==> !string_views(ids@).contains(cell_id@),
    {
        let mut i: usize = 0;
        while i < ids.len()
            invariant
                i <= ids@.len(),
                forall|j: int| 0 <= j < i ==> string_views(ids@)[j] != cell_id@,
            decreases ids@.len() - i,
        {
            if ids[i] == *cell_id {
                return Some(i);
            }
            i += 1;
        }
        None
    }

    /// The position of the current registration of `cell_id`.
    fn registration(&self, cell_id: &String) -> (r: Option<usize>)
        requires
            self.storage_wf(),
        ensures
            r is None ==> !self@.registrations.contains_key(cell_id@),
            r matches Some(i) ==> {
                &&& i < self.registrations@.len()
                &&& self@.registrations.contains_key(cell_id@)
                &&& self@.registrations[cell_id@] == self.registrations@[i as int]
                &&& string_views(self.cell_ids@)[i as int] == cell_id@
            },
    {
        let r = Self::position_of(&self.cell_ids, cell_id);
        proof {
            if let Some(i) = r {
                lemma_keyed_lookup(string_views(self.cell_ids@), self.registrations@, i as int);
            }
        }
        r
    }

    /// Forgets an early completion of `cell_id`; returns whether there was one.
    fn take_completed_before_registration(&mut self, cell_id: &String) -> (was_completed: bool)
        requires
            old(self).storage_wf(),
        ensures
            final(self).storage_wf(),
            was_completed == old(self)@.completed_before_registration.contains(cell_id@),
            final(self)@ == (BrokerView {
                completed_before_registration: old(self)@.completed_before_registration.remove(
                    cell_id@,
                ),
                ..old(self)@
            }),
    {
        match Self::position_of(&self.completed_before_registration, cell_id) {
            Some(i) => {
                let ghost before = self.completed_before_registration@;
                self.completed_before_registration.remove(i);
                proof {
                    let ks = string_views(before);
                    assert(string_views(self.completed_before_registration@) =~= ks.remove(i as int));
                    lemma_seq_remove(ks, i as int);
                    assert(self@.completed_before_registration =~= old(self)@.completed_before_registration.remove(cell_id@));
                    assert(self@.registrations =~= old(self)@.registrations);
                    assert(self@.observed_awaiting_enqueue =~= old(self)@.observed_awaiting_enqueue);
                }
                true
            },
            None => {
                proof {
                    assert(self@.completed_before_registration =~= old(self)@.completed_before_registration.remove(cell_id@));
                }
                false
            },
        }
    }

    /// Registers `cell_id` with a fresh registration, replacing any earlier one; an earlier
    /// completion of the cell is carried over to it.
    pub fn register(&mut self, cell_id: String)
        requires
            old(self).wf(),
            old(self)@.next_registration_id < u64::MAX,
        ensures
            final(self).wf(),
            final(self)@ == register_step(old(self)@, cell_id@),
            final(self)@.registrations.contains_key(cell_id@),
            final(self)@.registrations[cell_id@] == (CodeCellCompletionRegistration {
                id: old(self)@.next_registration_id,
                armed: false,
                completed: old(self)@.completed_before_registration.contains(cell_id@),
                enqueued: false,
                observed: false,
                delivery_pending: false,
            }),
            !final(self)@.completed_before_registration.contains(cell_id@),
    {
        let id = self.next_registration_id;
        let mut registration = CodeCellCompletionRegistration::new(id);
        let completed = self.take_completed_before_registration(&cell_id);
        if completed {
            let _ = registration.complete();
        }
        let ghost mid = self@;
        self.next_registration_id = id + 1;
        match Self::position_of(&self.cell_ids, &cell_id) {
            Some(i) => {
                proof {
                    lemma_keyed_update(string_views(self.cell_ids@), self.registrations@, i as int, registration);
                }
                self.registrations.set(i, registration);
            },
            None => {
                let ghost keys = string_views(self.cell_ids@);
                let ghost vals = self.registrations@;
                let ghost k = cell_id@;
                self.cell_ids.push(cell_id);
                self.registrations.push(registration);
                proof {
                    assert(string_views(self.cell_ids@) =~= keys.push(k));
                    lemma_keyed_push(keys, vals, k, registration);
                }
            },
        }
        proof {
            let v = self@;
            let o = old(self)@;
            assert(v.registrations =~= register_step(o, cell_id@).registrations);
            assert(v.completed_before_registration =~= register_step(o, cell_id@).completed_before_registration);
            assert(v.observed_awaiting_enqueue =~= register_step(o, cell_id@).observed_awaiting_enqueue);
            assert(broker_invariant(v)) by {
                assert forall|k1: Seq<char>, k2: Seq<char>|
                    v.registrations.contains_key(k1) && v.registrations.contains_key(k2) && k1 != k2
                    implies v.registrations[k1].id != v.registrations[k2].id by {
                    if k1 != cell_id@ && k2 != cell_id@ {
                        assert(o.registrations[k1] == v.registrations[k1]);
                        assert(o.registrations[k2] == v.registrations[k2]);
                    } else if k1 == cell_id@ {
                        assert(o.registrations[k2] == v.registrations[k2]);
                    } else {
                        assert(o.registrations[k1] == v.registrations[k1]);
                    }
                }
                assert forall|i2: u64, k: Seq<char>|
                    v.observed_awaiting_enqueue.contains(i2) && v.registrations.contains_key(k)
                    implies v.registrations[k].id != i2 by {
                    if k != cell_id@ {
                        assert(o.registrations[k] == v.registrations[k]);
                    }
                }
                assert forall|k: Seq<char>| #[trigger] v.registrations.contains_key(k) implies {
                    let r = v.registrations[k];
                    &&& !r.observed
                    &&& r.delivery_pending == r.armed
                    &&& r.enqueued == (r.armed && r.completed)
                    &&& r.id < v.next_registration_id
                } by {
                    if k != cell_id@ {
                        assert(o.registrations[k] == v.registrations[k]);
                    }
                }
            }
        }
    }

    /// Arms the current registration of `cell_id`, if there is one. When its cell has
    /// already completed, this asks for its wakeup to be enqueued.
    pub fn arm(&mut self, cell_id: &String) -> (action: Option<BrokerAction>)
        requires
            old(self).wf(),
        ensures
            final(self).wf(),
            (final(self)@, action_view(action)) == arm_step(old(self)@, cell_id@),
            action is Some ==> {
                let r = old(self)@.registrations[cell_id@];
                &&& old(self)@.registrations.contains_key(cell_id@)
                &&& r.completed && !r.enqueued
                &&& action_view(action) == Some(
                    BrokerActionView::Enqueue { registration_id: r.id, cell_id: cell_id@ },
                )
            },
    {
        match self.registration(cell_id) {
            Some(i) => {
                let mut registration = self.registrations[i];
                let should_enqueue = registration.arm();
                proof {
                    lemma_keyed_update(string_views(self.cell_ids@), self.registrations@, i as int, registration);
                    lemma_update_keeps_invariant(old(self)@, cell_id@, registration);
                }
                self.registrations.set(i, registration);
                proof {
                    assert(self@.registrations =~= old(self)@.registrations.insert(cell_id@, registration));
                }
                if should_enqueue {
                    Some(BrokerAction::Enqueue { registration_id: registration.id, cell_id: cell_id.clone() })
                } else {
                    None
                }
            },
            None => None,
        }
    }

    /// Records that `cell_id` completed. Its current registration, if any, asks for its
    /// wakeup to be enqueued when it is armed; otherwise the completion is remembered for
    /// the cell's next registration.
    pub fn completed(&mut self, cell_id: &String) -> (action: Option<BrokerAction>)
        requires
            old(self).wf(),
        ensures
            final(self).wf(),
            (final(self)@, action_view(action)) == completed_step(old(self)@, cell_id@),
    {
        match self.registration(cell_id) {
            Some(i) => {
                let mut registration = self.registrations[i];
                let should_enqueue = registration.complete();
                proof {
                    lemma_keyed_update(string_views(self.cell_ids@), self.registrations@, i as int, registration);
                    lemma_update_keeps_invariant(old(self)@, cell_id@, registration);
                }
                self.registrations.set(i, registration);
                proof {
                    assert(self@.registrations =~= old(self)@.registrations.insert(cell_id@, registration));
                }
                if should_enqueue {
                    Some(BrokerAction::Enqueue { registration_id: registration.id, cell_id: cell_id.clone() })
                } else {
                    None
                }
            },
            None => {
                match Self::position_of(&self.completed_before_registration, cell_id) {
                    Some(j) => {
                        proof {
                            assert(string_views(self.completed_before_registration@).contains(cell_id@)) by {
                                assert(string_views(self.completed_before_registration@)[j as int] == cell_id@);
                            }
                            assert(self@.completed_before_registration =~= old(self)@.completed_before_registration.insert(cell_id@));
                        }
                    },
                    None => {
                        let ghost before = string_views(self.completed_before_registration@);
                        self.completed_before_registration.push(cell_id.clone());
                        proof {
                            assert(string_views(self.completed_before_registration@) =~= before.push(cell_id@));
                            lemma_seq_push(before, cell_id@);
                            assert(self@.completed_before_registration =~= old(self)@.completed_before_registration.insert(cell_id@));
                            assert(self@.registrations =~= old(self)@.registrations);
                            assert(self@.observed_awaiting_enqueue =~= old(self)@.observed_awaiting_enqueue);
                        }
                    },
                }
                None
            },
        }
    }

    /// Takes the current registration of `cell_id` out of the broker.
    fn remove_registration(&mut self, cell_id: &String) -> (removed: Option<CodeCellCompletionRegistration>)
        requires
            old(self).storage_wf(),
        ensures
            final(self).storage_wf(),
            old(self)@.registrations.contains_key(cell_id@) ==> removed == Some(old(self)@.registrations[cell_id@]),
            !old(self)@.registrations.contains_key(cell_id@) ==> removed is None,
            final(self)@ == (BrokerView { registrations: old(self)@.registrations.remove(cell_id@), ..old(self)@ }),
    {
        match self.registration(cell_id) {
            Some(i) => {
                let ghost keys = string_views(self.cell_ids@);
                let ghost vals = self.registrations@;
                proof {
                    lemma_keyed_remove(keys, vals, i as int);
                }
                self.cell_ids.remove(i);
                let registration = self.registrations.remove(i);
                proof {
                    assert(string_views(self.cell_ids@) =~= keys.remove(i as int));
                    assert(self@.registrations =~= old(self)@.registrations.remove(cell_id@));
                }
                Some(registration)
            },
            None => {
                proof {
                    assert(self@.registrations =~= old(self)@.registrations.remove(cell_id@));
                }
                None
            },
        }
    }

    /// Retires the current registration of `cell_id` as observed (or, with `delivered`, as
    /// delivered); returns whether there was one.
    fn retire_registration(&mut self, cell_id: &String, delivered: bool) -> (found: bool)
        requires
            old(self).wf(),
        ensures
            final(self).wf(),
            found == old(self)@.registrations.contains_key(cell_id@),
            final(self)@ == retire_step(old(self)@, cell_id@, false).0,
    {
        match self.remove_registration(cell_id) {
            Some(mut registration) => {
                if delivered {
                    registration.delivered();
                } else {
                    registration.observed();
                }
                let ghost o = old(self)@;
                let ghost k = cell_id@;
                if registration.enqueued {
                    let ghost before = self.observed_awaiting_enqueue@;
                    proof {
                        assert(!before.contains(registration.id)) by {
                            if before.contains(registration.id) {
                                assert(o.observed_awaiting_enqueue.contains(registration.id));
                                assert(o.registrations[k].id == registration.id);
                            }
                        }
                        lemma_seq_push(before, registration.id);
                    }
                    self.observed_awaiting_enqueue.push(registration.id);
                    proof {
                        assert(self@.observed_awaiting_enqueue =~= o.observed_awaiting_enqueue.insert(registration.id));
                    }
                }
                proof {
                    let v = self@;
                    assert(v == retire_step(o, k, false).0);
                    assert forall|k1: Seq<char>, k2: Seq<char>|
                        v.registrations.contains_key(k1) && v.registrations.contains_key(k2) && k1 != k2
                        implies v.registrations[k1].id != v.registrations[k2].id by {
                        assert(o.registrations[k1] == v.registrations[k1]);
                        assert(o.registrations[k2] == v.registrations[k2]);
                    }
                    assert forall|i2: u64, k2: Seq<char>|
                        v.observed_awaiting_enqueue.contains(i2) && v.registrations.contains_key(k2)
                        implies v.registrations[k2].id != i2 by {
                        assert(o.registrations[k2] == v.registrations[k2]);
                        assert(o.registrations.contains_key(k2) && k2 != k);
                    }
                    assert forall|k2: Seq<char>| #[trigger] v.registrations.contains_key(k2) implies {
                        let x = v.registrations[k2];
                        &&& !x.observed
                        &&& x.delivery_pending == x.armed
                        &&& x.enqueued == (x.armed && x.completed)
                        &&& x.id < v.next_registration_id
                    } by {
                        assert(o.registrations[k2] == v.registrations[k2]);
                    }
                }
                true
            },
            None => {
                proof {
                    assert(old(self)@.registrations.remove(cell_id@) =~= old(self)@.registrations);
                }
                false
            },
        }
    }

    /// The cell's result is about to be observed directly: retires its current registration,
    /// if any, and asks for any queued wakeup of the cell to be removed.
    pub fn begin_direct_observation(&mut self, cell_id: &String) -> (action: Option<BrokerAction>)
        requires
            old(self).wf(),
        ensures
            final(self).wf(),
            (final(self)@, action_view(action)) == retire_step(old(self)@, cell_id@, true),
            action_view(action) == (if old(self)@.registrations.contains_key(cell_id@) {
                Some(BrokerActionView::RemoveQueuedWakeup { cell_id: cell_id@ })
            } else {
                None
            }),
            !final(self)@.registrations.contains_key(cell_id@),
    {
        if self.retire_registration(cell_id, false) {
            Some(BrokerAction::RemoveQueuedWakeup { cell_id: cell_id.clone() })
        } else {
            None
        }
    }

    /// The cell finished and its result was taken: forgets an early completion of it, retires
    /// its current registration, if any, and asks for any queued wakeup to be removed.
    pub fn finish(&mut self, cell_id: &String) -> (action: Option<BrokerAction>)
        requires
            old(self).wf(),
        ensures
            final(self).wf(),
            (final(self)@, action_view(action)) == finish_step(old(self)@, cell_id@),
            action_view(action) == (if old(self)@.registrations.contains_key(cell_id@) {
                Some(BrokerActionView::RemoveQueuedWakeup { cell_id: cell_id@ })
            } else {
                None
            }),
            !final(self)@.registrations.contains_key(cell_id@),
            !final(self)@.completed_before_registration.contains(cell_id@),
    {
        let _ = self.take_completed_before_registration(cell_id);
        proof {
            let v = self@;
            assert forall|k: Seq<char>| #[trigger] v.completed_before_registration.contains(k)
                implies !v.registrations.contains_key(k) by {
                assert(old(self)@.completed_before_registration.contains(k));
            }
        }
        if self.retire_registration(cell_id, false) {
            Some(BrokerAction::RemoveQueuedWakeup { cell_id: cell_id.clone() })
        } else {
            None
        }
    }

    /// The cell's wakeup was delivered to the model: retires its current registration, if any.
    pub fn mark_delivered(&mut self, cell_id: &String)
        requires
            old(self).wf(),
        ensures
            final(self).wf(),
            final(self)@ == retire_step(old(self)@, cell_id@, false).0,
    {
        let _ = self.retire_registration(cell_id, true);
    }

    /// Whether some current registration still owes a wakeup.
    pub fn has_pending_delivery(&self) -> (pending: bool)
        requires
            self.wf(),
        ensures
            pending == has_pending_delivery_view(self@),
    {
        let mut i: usize = 0;
        while i < self.registrations.len()
            invariant
                self.wf(),
                i <= self.registrations@.len(),
                forall|j: int| 0 <= j < i ==> !(#[trigger] self.registrations@[j]).delivery_pending,
            decreases self.registrations@.len() - i,
        {
            if self.registrations[i].delivery_pending {
                proof {
                    lemma_keyed_lookup(string_views(self.cell_ids@), self.registrations@, i as int);
                    let k = string_views(self.cell_ids@)[i as int];
                    assert(self@.registrations.contains_key(k));
                }
                return true;
            }
            i += 1;
        }
        proof {
            let keys = string_views(self.cell_ids@);
            assert forall|k: Seq<char>| #[trigger] self@.registrations.contains_key(k)
                implies !self@.registrations[k].delivery_pending by {
                let j = keys.index_of(k);
                assert(0 <= j < keys.len() && keys[j] == k);
                assert(self.registrations@[j] == self@.registrations[k]);
            }
        }
        false
    }

    /// The enqueue for registration `registration_id` has been carried out: returns whether
    /// that registration was observed meanwhile, in which case the caller removes the wakeup
    /// it just queued.
    pub fn enqueued_wakeup_observed(&mut self, registration_id: u64) -> (observed: bool)
        requires
            old(self).wf(),
        ensures
            final(self).wf(),
            (final(self)@, observed) == settle_enqueue_step(old(self)@, registration_id),
    {
        let mut i: usize = 0;
        while i < self.observed_awaiting_enqueue.len()
            invariant
                *self == *old(self),
                old(self).wf(),
                i <= self.observed_awaiting_enqueue@.len(),
                forall|j: int| 0 <= j < i ==> self.observed_awaiting_enqueue@[j] != registration_id,
            decreases self.observed_awaiting_enqueue@.len() - i,
        {
            if self.observed_awaiting_enqueue[i] == registration_id {
                let ghost before = self.observed_awaiting_enqueue@;
                proof {
                    lemma_seq_remove(before, i as int);
                }
                self.observed_awaiting_enqueue.remove(i);
                proof {
                    assert(self@.observed_awaiting_enqueue =~= old(self)@.observed_awaiting_enqueue.remove(registration_id));
                    assert(self@.registrations =~= old(self)@.registrations);
                    assert(self@.completed_before_registration =~= old(self)@.completed_before_registration);
                    assert(before[i as int] == registration_id);
                }
                return true;
            }
            i += 1;
        }
        proof {
            assert(!self.observed_awaiting_enqueue@.contains(registration_id));
            assert(self@.observed_awaiting_enqueue =~= old(self)@.observed_awaiting_enqueue.remove(registration_id));
            assert(self@ == settle_enqueue_step(old(self)@, registration_id).0);
        }
        false
    }
}

} // verus!
