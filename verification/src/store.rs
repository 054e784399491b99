//! The store: a budgeted, multi-policy cache of re-creatable resources.
//!
//! Entries are indexed by a store-local id and, optionally, by a byte key.
//! The store charges each entry's declared byte size against a global budget
//! (and optional per-kind budgets) and evicts entries under a configurable
//! policy when a budget would be exceeded. Pinned entries (`evictable ==
//! false`) and entries with more than one logical reference are never chosen
//! as eviction victims.
//!
//! Timestamps are drawn from a logical clock that the store advances on every
//! insertion and lookup, so `created` and `last_access` are monotonic and
//! policy decisions are deterministic: ties are broken by insertion order,
//! and the "random" policy is a deterministic first-candidate pick.

use vstd::prelude::*;
use crate::Handle;

verus! {

/// Default global budget: 256 MiB.
pub const DEFAULT_MAX_SIZE: usize = 256 * 1024 * 1024;

/// Number of entry kinds, used to size the per-kind limit table.
pub const KIND_COUNT: usize = 10;

/// The kind of resource a cache entry stands for.
#[derive(Debug, Clone, Copy, PartialEq, Eq, Hash, Structural)]
pub enum StoreType {
    /// Generic/unknown resource
    Generic,
    /// Font data
    Font,
    /// Image/pixmap
    Image,
    /// Colorspace
    Colorspace,
    /// Path data
    Path,
    /// Shade/gradient
    Shade,
    /// Glyph cache entry
    Glyph,
    /// Display list
    DisplayList,
    /// Document
    Document,
    /// Page
    Page,
}

/// Position of a kind in the per-kind limit table.
pub open spec fn kind_ordinal(t: StoreType) -> int {
    match t {
        StoreType::Generic => 0,
        StoreType::Font => 1,
        StoreType::Image => 2,
        StoreType::Colorspace => 3,
        StoreType::Path => 4,
        StoreType::Shade => 5,
        StoreType::Glyph => 6,
        StoreType::DisplayList => 7,
        StoreType::Document => 8,
        StoreType::Page => 9,
    }
}

/// Maps a kind to its slot in the per-kind limit table.
pub fn kind_index(t: StoreType) -> (i: usize)
    ensures
        i == kind_ordinal(t),
        i < KIND_COUNT,
{
    match t {
        StoreType::Generic => 0,
        StoreType::Font => 1,
        StoreType::Image => 2,
        StoreType::Colorspace => 3,
        StoreType::Path => 4,
        StoreType::Shade => 5,
        StoreType::Glyph => 6,
        StoreType::DisplayList => 7,
        StoreType::Document => 8,
        StoreType::Page => 9,
    }
}

/// How eviction victims are chosen. Ties are always broken by insertion
/// order (the earliest-inserted candidate loses).
#[derive(Debug, Clone, Copy, PartialEq, Eq, Structural)]
pub enum EvictionPolicy {
    /// Least recently used: minimal `last_access`.
    LRU,
    /// Least frequently used: minimal `access_count`.
    LFU,
    /// First in, first out: minimal `created`.
    FIFO,
    /// Deterministic arbitrary pick: the first candidate in insertion order.
    Random,
}

/// One cache entry's bookkeeping record.
#[derive(Debug, Clone)]
pub struct StoreItem {
    /// Store-local identifier; non-zero, never reused.
    pub id: u64,
    /// Entry kind, for per-kind budgets and statistics.
    pub item_type: StoreType,
    /// Handle of the resource this entry indexes; opaque to the store.
    pub handle: Handle,
    /// Byte cost charged against the budgets.
    pub size: usize,
    /// Logical time of the most recent insertion or successful lookup.
    pub last_access: u64,
    /// Number of successful lookups, saturating.
    pub access_count: u64,
    /// Logical time of insertion.
    pub created: u64,
    /// Content key; an empty key means the entry is reachable by id only.
    pub key: Vec<u8>,
    /// Entries marked non-evictable are never chosen as eviction victims.
    pub evictable: bool,
    /// Logical reference count; starts at 1, entry is released at 0.
    pub refs: u32,
}

/// An entry may be chosen as an eviction victim only if it is marked
/// evictable and at most one logical reference is held.
pub open spec fn victim_ok(it: StoreItem) -> bool {
    it.evictable && it.refs <= 1
}

/// Victim candidacy restricted to an eviction scope: the whole store
/// (`None`) or a single kind.
pub open spec fn candidate(it: StoreItem, scope: Option<StoreType>) -> bool {
    victim_ok(it) && match scope {
        Option::Some(t) => it.item_type == t,
        Option::None => true,
    }
}

/// The quantity a policy minimizes when choosing a victim. The "random"
/// policy ranks all candidates equally, so the tie-break (insertion order)
/// picks the first candidate.
pub open spec fn policy_rank(p: EvictionPolicy, it: StoreItem) -> int {
    match p {
        EvictionPolicy::LRU => it.last_access as int,
        EvictionPolicy::LFU => it.access_count as int,
        EvictionPolicy::FIFO => it.created as int,
        EvictionPolicy::Random => 0,
    }
}

/// A 64-bit counter incremented without wrapping.
pub open spec fn sat_inc64(x: u64) -> u64 {
    if x == u64::MAX {
        x
    } else {
        (x + 1) as u64
    }
}

/// A 32-bit counter incremented without wrapping.
pub open spec fn sat_inc32(x: u32) -> u32 {
    if x == u32::MAX {
        x
    } else {
        (x + 1) as u32
    }
}

/// An entry as a successful lookup leaves it: freshly stamped, with its
/// access count bumped.
pub open spec fn touched(it: StoreItem, clk: u64) -> StoreItem {
    StoreItem { last_access: clk, access_count: sat_inc64(it.access_count), ..it }
}

/// An entry as `keep` leaves it: one more logical reference.
pub open spec fn retained(it: StoreItem) -> StoreItem {
    StoreItem { refs: sat_inc32(it.refs), ..it }
}

/// An entry as a non-final `drop_ref` leaves it: one reference fewer.
pub open spec fn released(it: StoreItem) -> StoreItem {
    StoreItem { refs: (it.refs - 1) as u32, ..it }
}

/// An entry the age-based sweep discards: an unpinned, unreferenced entry
/// whose last access lies further back than `max_age` clock ticks.
pub open spec fn stale(it: StoreItem, clk: int, max_age: u64) -> bool {
    victim_ok(it) && clk - it.last_access > max_age
}

/// What the age-based sweep leaves behind: the entries that are not stale,
/// in their original order.
pub open spec fn fresh_only(s: Seq<StoreItem>, clk: int, max_age: u64) -> Seq<StoreItem>
    decreases s.len(),
{
    if s.len() == 0 {
        s
    } else if stale(s.last(), clk, max_age) {
        fresh_only(s.drop_last(), clk, max_age)
    } else {
        fresh_only(s.drop_last(), clk, max_age).push(s.last())
    }
}

/// Policy-order eviction, stated over the entries before and after: every
/// candidate that was removed ranked no higher than any candidate that
/// survived — strictly lower, or equal but inserted earlier (ids grow in
/// insertion order). Lookups never run during eviction, so ranks are fixed
/// while victims are chosen, and this pins the victims to the policy with
/// its insertion-order tie-break.
pub open spec fn evicted_in_policy_order(
    p: EvictionPolicy,
    scope: Option<StoreType>,
    before: Seq<StoreItem>,
    after: Seq<StoreItem>,
) -> bool {
    forall|i: int, j: int|
        0 <= i < before.len() && 0 <= j < after.len() && candidate(#[trigger] before[i], scope)
            && candidate(#[trigger] after[j], scope) && !after.contains(before[i])
            ==> policy_rank(p, before[i]) < policy_rank(p, after[j]) || (policy_rank(p, before[i])
            == policy_rank(p, after[j]) && before[i].id < after[j].id)
}

/// A whole-store policy-order claim restricts to any one kind.
proof fn lemma_policy_order_restrict(
    p: EvictionPolicy,
    t: StoreType,
    before: Seq<StoreItem>,
    after: Seq<StoreItem>,
)
    requires
        evicted_in_policy_order(p, Option::None, before, after),
    ensures
        evicted_in_policy_order(p, Some(t), before, after),
{
    assert forall|i: int, j: int|
        0 <= i < before.len() && 0 <= j < after.len() && candidate(#[trigger] before[i], Some(t))
            && candidate(#[trigger] after[j], Some(t)) && !after.contains(before[i])
        implies policy_rank(p, before[i]) < policy_rank(p, after[j]) || (policy_rank(
        p,
        before[i],
    ) == policy_rank(p, after[j]) && before[i].id < after[j].id) by {
        assert(candidate(before[i], Option::<StoreType>::None));
        assert(candidate(after[j], Option::<StoreType>::None));
    }
}

/// Policy-order claims compose across two eviction phases.
proof fn lemma_policy_order_trans(
    p: EvictionPolicy,
    scope: Option<StoreType>,
    a: Seq<StoreItem>,
    b: Seq<StoreItem>,
    c: Seq<StoreItem>,
)
    requires
        evicted_in_policy_order(p, scope, a, b),
        evicted_in_policy_order(p, scope, b, c),
        forall|x: StoreItem| c.contains(x) ==> b.contains(x),
    ensures
        evicted_in_policy_order(p, scope, a, c),
{
    assert forall|i: int, j: int|
        0 <= i < a.len() && 0 <= j < c.len() && candidate(#[trigger] a[i], scope) && candidate(
            #[trigger] c[j],
            scope,
        ) && !c.contains(a[i]) implies policy_rank(p, a[i]) < policy_rank(p, c[j]) || (policy_rank(
        p,
        a[i],
    ) == policy_rank(p, c[j]) && a[i].id < c[j].id) by {
        assert(c.contains(c[j]));
        let w = choose|w: int| 0 <= w < b.len() && b[w] == c[j];
        if b.contains(a[i]) {
            let v = choose|v: int| 0 <= v < b.len() && b[v] == a[i];
            assert(candidate(b[v], scope));
            assert(candidate(c[j], scope));
        } else {
            assert(candidate(b[w], scope));
        }
    }
}

/// Removing the policy's victim — the first candidate of minimal rank —
/// keeps the eviction policy-ordered with respect to the entries the
/// eviction started from.
proof fn lemma_policy_order_step(
    p: EvictionPolicy,
    scope: Option<StoreType>,
    orig: Seq<StoreItem>,
    pre: Seq<StoreItem>,
    i: int,
)
    requires
        evicted_in_policy_order(p, scope, orig, pre),
        0 <= i < pre.len(),
        candidate(pre[i], scope),
        forall|q: int|
            0 <= q < pre.len() && candidate(#[trigger] pre[q], scope) ==> policy_rank(p, pre[i])
                <= policy_rank(p, pre[q]),
        forall|q: int|
            0 <= q < i && candidate(#[trigger] pre[q], scope) ==> policy_rank(p, pre[q])
                > policy_rank(p, pre[i]),
        forall|a: int, b: int| 0 <= a < b < pre.len() ==> (#[trigger] pre[a]).id < (#[trigger] pre[b]).id,
    ensures
        evicted_in_policy_order(p, scope, orig, pre.remove(i)),
{
    let after = pre.remove(i);
    assert forall|a: int, j: int|
        0 <= a < orig.len() && 0 <= j < after.len() && candidate(#[trigger] orig[a], scope)
            && candidate(#[trigger] after[j], scope) && !after.contains(orig[a])
        implies policy_rank(p, orig[a]) < policy_rank(p, after[j]) || (policy_rank(p, orig[a])
        == policy_rank(p, after[j]) && orig[a].id < after[j].id) by {
        let w: int = if j < i {
            j
        } else {
            j + 1
        };
        assert(after[j] == pre[w]);
        if pre.contains(orig[a]) {
            let v = choose|v: int| 0 <= v < pre.len() && pre[v] == orig[a];
            if v == i {
                // the entry removed this step: the selection made it the
                // first candidate of minimal rank
                assert(candidate(pre[w], scope));
                assert(policy_rank(p, pre[i]) <= policy_rank(p, pre[w]));
                if policy_rank(p, pre[i]) == policy_rank(p, pre[w]) {
                    assert(w != i);
                    if w < i {
                        assert(policy_rank(p, pre[w]) > policy_rank(p, pre[i]));
                        assert(false);
                    }
                    assert(pre[i].id < pre[w].id);
                }
            } else {
                // still present after the removal, against the premise
                if v < i {
                    assert(pre[v].id < pre[i].id);
                } else {
                    assert(pre[i].id < pre[v].id);
                }
                lemma_remove_keeps_others(pre, i, orig[a]);
                assert(false);
            }
        } else {
            // removed by an earlier step: the claim up to `pre` applies
            assert(candidate(pre[w], scope));
        }
    }
}

/// Sum of the byte sizes of a sequence of entries.
pub open spec fn sum_sizes(s: Seq<StoreItem>) -> int
    decreases s.len(),
{
    if s.len() == 0 {
        0
    } else {
        sum_sizes(s.drop_last()) + s.last().size
    }
}

/// Sum of the byte sizes of the entries of one kind.
pub open spec fn kind_sum(s: Seq<StoreItem>, t: StoreType) -> int
    decreases s.len(),
{
    if s.len() == 0 {
        0
    } else {
        kind_sum(s.drop_last(), t) + if s.last().item_type == t {
            s.last().size as int
        } else {
            0
        }
    }
}

/// Number of entries of one kind.
pub open spec fn kind_count(s: Seq<StoreItem>, t: StoreType) -> int
    decreases s.len(),
{
    if s.len() == 0 {
        0
    } else {
        kind_count(s.drop_last(), t) + if s.last().item_type == t {
            1int
        } else {
            0
        }
    }
}

/// True if some entry in the sequence carries this id.
pub open spec fn has_id(s: Seq<StoreItem>, id: u64) -> bool {
    exists|i: int| 0 <= i < s.len() && s[i].id == id
}

/// True if some entry in the sequence carries this (non-empty) key.
pub open spec fn has_key(s: Seq<StoreItem>, k: Seq<u8>) -> bool {
    exists|i: int| 0 <= i < s.len() && s[i].key@ == k
}

/// Ghost image of a store: every component the contracts speak about.
pub struct StoreView {
    /// Global byte budget.
    pub max_size: int,
    /// Bytes currently charged.
    pub current_size: int,
    /// Live entries, in insertion order.
    pub entries: Seq<StoreItem>,
    /// Victim-selection policy.
    pub policy: EvictionPolicy,
    /// Per-kind byte limits, indexed by `kind_ordinal`; 0 means no limit.
    pub limits: Seq<usize>,
    /// The id the next insertion will take.
    pub next_id: int,
    /// Logical clock; advanced on every insertion and lookup.
    pub clock: int,
    /// Cumulative successful lookups.
    pub hits: int,
    /// Cumulative failed lookups.
    pub misses: int,
    /// Cumulative insertions.
    pub total_stored: int,
    /// Cumulative policy-driven or bulk evictions; explicit removals and
    /// reference-count releases are not counted here.
    pub total_evicted: int,
}

/// The budgeted cache itself. All fields are private; the contracts speak
/// about the ghost view `self@`.
pub struct Store {
    max_size: usize,
    current_size: usize,
    items: Vec<StoreItem>,
    policy: EvictionPolicy,
    type_limits: Vec<usize>,
    next_id: u64,
    clock: u64,
    hits: u64,
    misses: u64,
    total_stored: u64,
    total_evicted: u64,
}

impl View for Store {
    type V = StoreView;

    closed spec fn view(&self) -> StoreView {
        StoreView {
            max_size: self.max_size as int,
            current_size: self.current_size as int,
            entries: self.items@,
            policy: self.policy,
            limits: self.type_limits@,
            next_id: self.next_id as int,
            clock: self.clock as int,
            hits: self.hits as int,
            misses: self.misses as int,
            total_stored: self.total_stored as int,
            total_evicted: self.total_evicted as int,
        }
    }
}

/// Conditions on a single entry relative to the store's counters: ids are
/// non-zero and below the id counter, references are live, and timestamps do
/// not run ahead of the clock.
pub open spec fn item_ok(it: StoreItem, next_id: int, clock: int) -> bool {
    &&& 0 < it.id < next_id
    &&& it.refs >= 1
    &&& it.last_access <= clock
    &&& it.created <= clock
}

/// Conditions on a whole entry sequence: every entry is well-formed, ids
/// grow along the sequence (so an entry's id tells its insertion order, and
/// ids are unique), and non-empty keys are unique.
pub open spec fn items_ok(s: Seq<StoreItem>, next_id: int, clock: int) -> bool {
    &&& forall|i: int| 0 <= i < s.len() ==> item_ok(#[trigger] s[i], next_id, clock)
    &&& forall|i: int, j: int| 0 <= i < s.len() && 0 <= j < s.len() && i != j
        ==> (#[trigger] s[i]).id != (#[trigger] s[j]).id
    &&& forall|i: int, j: int| 0 <= i < j < s.len()
        ==> (#[trigger] s[i]).id < (#[trigger] s[j]).id
    &&& forall|i: int, j: int| 0 <= i < s.len() && 0 <= j < s.len() && i != j
        && (#[trigger] s[i]).key@.len() > 0 ==> s[i].key@ != (#[trigger] s[j]).key@
}

impl Store {
    /// The store's internal invariant: the charged size is exactly the sum
    /// of the live entries' sizes (globally; per-kind sizes are computed
    /// from the entries, so they agree by construction), the per-kind limit
    /// table is fully sized, and the entries are well-formed.
    pub open spec fn wf(&self) -> bool {
        &&& self@.current_size == sum_sizes(self@.entries)
        &&& self@.limits.len() == KIND_COUNT
        &&& 0 < self@.next_id
        &&& items_ok(self@.entries, self@.next_id, self@.clock)
    }

    /// Creates an empty store with the given global byte budget, LRU policy
    /// and no per-kind limits.
    pub fn new(max_size: usize) -> (s: Store)
        ensures
            s.wf(),
            s@.max_size == max_size,
            s@.current_size == 0,
            s@.entries.len() == 0,
            s@.policy == EvictionPolicy::LRU,
            forall|k: int| 0 <= k < KIND_COUNT ==> s@.limits[k] == 0,
            s@.hits == 0,
            s@.misses == 0,
            s@.total_stored == 0,
            s@.total_evicted == 0,
            s@.clock == 0,
            s@.next_id == 1,
    {
        let mut limits: Vec<usize> = Vec::new();
        let mut k: usize = 0;
        while k < KIND_COUNT
            invariant
                k <= KIND_COUNT,
                limits@.len() == k,
                forall|j: int| 0 <= j < k ==> limits@[j] == 0,
            decreases KIND_COUNT - k,
        {
            limits.push(0);
            k = k + 1;
        }
        Store {
            max_size,
            current_size: 0,
            items: Vec::new(),
            policy: EvictionPolicy::LRU,
            type_limits: limits,
            next_id: 1,
            clock: 0,
            hits: 0,
            misses: 0,
            total_stored: 0,
            total_evicted: 0,
        }
    }

    /// Number of live entries.
    pub fn count(&self) -> (n: usize)
        ensures
            n == self@.entries.len(),
    {
        self.items.len()
    }

    /// Bytes currently charged against the global budget.
    pub fn current_size(&self) -> (n: usize)
        ensures
            n == self@.current_size,
    {
        self.current_size
    }

    /// The global byte budget.
    pub fn max_size(&self) -> (n: usize)
        ensures
            n == self@.max_size,
    {
        self.max_size
    }

    /// The active victim-selection policy.
    pub fn policy(&self) -> (p: EvictionPolicy)
        ensures
            p == self@.policy,
    {
        self.policy
    }

    /// Cumulative successful lookups.
    pub fn hits(&self) -> (n: u64)
        ensures
            n == self@.hits,
    {
        self.hits
    }

    /// Cumulative failed lookups.
    pub fn misses(&self) -> (n: u64)
        ensures
            n == self@.misses,
    {
        self.misses
    }

    /// Cumulative insertions.
    pub fn total_stored(&self) -> (n: u64)
        ensures
            n == self@.total_stored,
    {
        self.total_stored
    }

    /// Cumulative evictions (policy-driven and bulk, including `clear`).
    pub fn total_evicted(&self) -> (n: u64)
        ensures
            n == self@.total_evicted,
    {
        self.total_evicted
    }

    /// Replaces the victim-selection policy; entries are untouched.
    pub fn set_policy(&mut self, policy: EvictionPolicy)
        requires
            old(self).wf(),
        ensures
            final(self).wf(),
            final(self)@ == (StoreView { policy, ..old(self)@ }),
    {
        self.policy = policy;
    }

    /// Sets the byte limit for one kind; 0 removes the limit. The limit is
    /// enforced on subsequent insertions of that kind.
    pub fn set_type_limit(&mut self, t: StoreType, limit: usize)
        requires
            old(self).wf(),
        ensures
            final(self).wf(),
            final(self)@ == (StoreView {
                limits: old(self)@.limits.update(kind_ordinal(t), limit),
                ..old(self)@
            }),
    {
        let i = kind_index(t);
        self.type_limits[i] = limit;
    }

    /// Resets the cumulative statistics; entries and budgets are untouched.
    pub fn reset_stats(&mut self)
        requires
            old(self).wf(),
        ensures
            final(self).wf(),
            final(self)@ == (StoreView {
                hits: 0,
                misses: 0,
                total_stored: 0,
                total_evicted: 0,
                ..old(self)@
            }),
    {
        self.hits = 0;
        self.misses = 0;
        self.total_stored = 0;
        self.total_evicted = 0;
    }
}

impl Default for Store {
    /// An empty store with the default budget.
    fn default() -> (s: Store)
        ensures
            s.wf(),
            s@.max_size == DEFAULT_MAX_SIZE,
            s@.entries.len() == 0,
    {
        Store::new(DEFAULT_MAX_SIZE)
    }
}

// ---------------------------------------------------------------------------
// Arithmetic facts about the size sums, used to keep `current_size` and the
// per-kind sums in step with the entry sequence.
// ---------------------------------------------------------------------------

proof fn lemma_sum_nonneg(s: Seq<StoreItem>)
    ensures
        sum_sizes(s) >= 0,
    decreases s.len(),
{
    if s.len() > 0 {
        lemma_sum_nonneg(s.drop_last());
    }
}

proof fn lemma_sum_push(s: Seq<StoreItem>, x: StoreItem)
    ensures
        sum_sizes(s.push(x)) == sum_sizes(s) + x.size,
{
    assert(s.push(x).drop_last() =~= s);
}

proof fn lemma_sum_remove(s: Seq<StoreItem>, i: int)
    requires
        0 <= i < s.len(),
    ensures
        sum_sizes(s.remove(i)) == sum_sizes(s) - s[i].size,
    decreases s.len(),
{
    if i == s.len() - 1 {
        assert(s.remove(i) =~= s.drop_last());
    } else {
        assert(s.remove(i).drop_last() =~= s.drop_last().remove(i));
        lemma_sum_remove(s.drop_last(), i);
        assert(s.remove(i).last() == s.last());
    }
}

proof fn lemma_sum_update(s: Seq<StoreItem>, i: int, x: StoreItem)
    requires
        0 <= i < s.len(),
    ensures
        sum_sizes(s.update(i, x)) == sum_sizes(s) - s[i].size + x.size,
    decreases s.len(),
{
    if i == s.len() - 1 {
        assert(s.update(i, x).drop_last() =~= s.drop_last());
        assert(s.update(i, x).last() == x);
    } else {
        assert(s.update(i, x).drop_last() =~= s.drop_last().update(i, x));
        lemma_sum_update(s.drop_last(), i, x);
        assert(s.update(i, x).last() == s.last());
    }
}

proof fn lemma_kind_sum_push(s: Seq<StoreItem>, t: StoreType, x: StoreItem)
    ensures
        kind_sum(s.push(x), t) == kind_sum(s, t) + if x.item_type == t {
            x.size as int
        } else {
            0
        },
{
    assert(s.push(x).drop_last() =~= s);
}

proof fn lemma_kind_sum_remove(s: Seq<StoreItem>, t: StoreType, i: int)
    requires
        0 <= i < s.len(),
    ensures
        kind_sum(s.remove(i), t) == kind_sum(s, t) - if s[i].item_type == t {
            s[i].size as int
        } else {
            0
        },
    decreases s.len(),
{
    if i == s.len() - 1 {
        assert(s.remove(i) =~= s.drop_last());
    } else {
        assert(s.remove(i).drop_last() =~= s.drop_last().remove(i));
        lemma_kind_sum_remove(s.drop_last(), t, i);
        assert(s.remove(i).last() == s.last());
    }
}

/// The bytes charged to one kind are part of the bytes charged in total.
proof fn lemma_kind_sum_le_sum(s: Seq<StoreItem>, t: StoreType)
    ensures
        0 <= kind_sum(s, t) <= sum_sizes(s),
    decreases s.len(),
{
    if s.len() > 0 {
        lemma_kind_sum_le_sum(s.drop_last(), t);
    }
}

proof fn lemma_sum_prefix_le(s: Seq<StoreItem>, i: int)
    requires
        0 <= i <= s.len(),
    ensures
        sum_sizes(s.subrange(0, i)) <= sum_sizes(s),
    decreases s.len() - i,
{
    if i == s.len() {
        assert(s.subrange(0, i) =~= s);
    } else {
        assert(s.subrange(0, i + 1).drop_last() =~= s.subrange(0, i));
        assert(s.subrange(0, i + 1).last() == s[i]);
        lemma_sum_prefix_le(s, i + 1);
    }
}

// ---------------------------------------------------------------------------
// Facts about membership under removal, used to show that entries the store
// must not discard (pinned or referenced ones) survive eviction.
// ---------------------------------------------------------------------------

proof fn lemma_remove_keeps_others(s: Seq<StoreItem>, i: int, x: StoreItem)
    requires
        0 <= i < s.len(),
        s.contains(x),
        s[i] != x,
    ensures
        s.remove(i).contains(x),
{
    let k = choose|k: int| 0 <= k < s.len() && s[k] == x;
    if k < i {
        assert(s.remove(i)[k] == x);
    } else {
        assert(s.remove(i)[k - 1] == x);
    }
}

proof fn lemma_remove_subset(s: Seq<StoreItem>, i: int)
    requires
        0 <= i < s.len(),
    ensures
        forall|x: StoreItem| s.remove(i).contains(x) ==> s.contains(x),
{
    assert forall|x: StoreItem| s.remove(i).contains(x) implies s.contains(x) by {
        let k = choose|k: int| 0 <= k < s.remove(i).len() && s.remove(i)[k] == x;
        if k < i {
            assert(s[k] == x);
        } else {
            assert(s[k + 1] == x);
        }
    }
}

/// A property of entry values carries over to any sequence whose entries all
/// occur in the first: here, that no entry carries a given key.
proof fn lemma_keyless_through_subset(a: Seq<StoreItem>, b: Seq<StoreItem>, k: Seq<u8>)
    requires
        forall|x: StoreItem| b.contains(x) ==> a.contains(x),
        forall|q: int| 0 <= q < a.len() ==> (#[trigger] a[q]).key@ != k,
    ensures
        forall|q: int| 0 <= q < b.len() ==> (#[trigger] b[q]).key@ != k,
{
    assert forall|q: int| 0 <= q < b.len() implies (#[trigger] b[q]).key@ != k by {
        assert(b.contains(b[q]));
        let w = choose|w: int| 0 <= w < a.len() && a[w] == b[q];
        assert(a[w].key@ != k);
    }
}

/// Likewise for pinnedness: if every entry of the first sequence is pinned,
/// so is every entry of a sequence drawn from it.
proof fn lemma_all_pinned_through_subset(a: Seq<StoreItem>, b: Seq<StoreItem>)
    requires
        forall|x: StoreItem| b.contains(x) ==> a.contains(x),
        forall|q: int| 0 <= q < a.len() ==> !victim_ok(#[trigger] a[q]),
    ensures
        forall|q: int| 0 <= q < b.len() ==> !victim_ok(#[trigger] b[q]),
{
    assert forall|q: int| 0 <= q < b.len() implies !victim_ok(#[trigger] b[q]) by {
        assert(b.contains(b[q]));
        let w = choose|w: int| 0 <= w < a.len() && a[w] == b[q];
        assert(!victim_ok(a[w]));
    }
}

/// Replacing an entry with one that keeps its id and key (as the access and
/// reference bookkeeping does) keeps the entry sequence well-formed.
proof fn lemma_items_ok_update(s: Seq<StoreItem>, next_id: int, clock: int, i: int, x: StoreItem)
    requires
        items_ok(s, next_id, clock),
        0 <= i < s.len(),
        item_ok(x, next_id, clock),
        x.id == s[i].id,
        x.key@ == s[i].key@,
    ensures
        items_ok(s.update(i, x), next_id, clock),
{
    let u = s.update(i, x);
    assert forall|a: int| 0 <= a < u.len() implies item_ok(#[trigger] u[a], next_id, clock) by {
        if a != i {
            assert(u[a] == s[a]);
        }
    }
    assert forall|a: int, b: int|
        0 <= a < u.len() && 0 <= b < u.len() && a != b implies (#[trigger] u[a]).id
        != (#[trigger] u[b]).id by {
        assert(u[a] == if a == i { x } else { s[a] });
        assert(u[b] == if b == i { x } else { s[b] });
    }
    assert forall|a: int, b: int|
        0 <= a < b < u.len() implies (#[trigger] u[a]).id < (#[trigger] u[b]).id by {
        assert(u[a] == if a == i { x } else { s[a] });
        assert(u[b] == if b == i { x } else { s[b] });
    }
    assert forall|a: int, b: int|
        0 <= a < u.len() && 0 <= b < u.len() && a != b && (#[trigger] u[a]).key@.len()
        > 0 implies u[a].key@ != (#[trigger] u[b]).key@ by {
        assert(u[a] == if a == i { x } else { s[a] });
        assert(u[b] == if b == i { x } else { s[b] });
    }
}

/// Removing an entry keeps the entry sequence well-formed.
proof fn lemma_items_ok_remove(s: Seq<StoreItem>, next_id: int, clock: int, i: int)
    requires
        items_ok(s, next_id, clock),
        0 <= i < s.len(),
    ensures
        items_ok(s.remove(i), next_id, clock),
{
    let r = s.remove(i);
    assert forall|a: int| 0 <= a < r.len() implies item_ok(#[trigger] r[a], next_id, clock) by {
        if a < i {
            assert(r[a] == s[a]);
        } else {
            assert(r[a] == s[a + 1]);
        }
    }
    assert forall|a: int, b: int|
        0 <= a < r.len() && 0 <= b < r.len() && a != b implies (#[trigger] r[a]).id
        != (#[trigger] r[b]).id by {
        let sa: int = if a < i { a } else { a + 1 };
        let sb: int = if b < i { b } else { b + 1 };
        assert(r[a] == s[sa]);
        assert(r[b] == s[sb]);
    }
    assert forall|a: int, b: int|
        0 <= a < b < r.len() implies (#[trigger] r[a]).id < (#[trigger] r[b]).id by {
        let sa: int = if a < i { a } else { a + 1 };
        let sb: int = if b < i { b } else { b + 1 };
        assert(r[a] == s[sa]);
        assert(r[b] == s[sb]);
    }
    assert forall|a: int, b: int|
        0 <= a < r.len() && 0 <= b < r.len() && a != b && (#[trigger] r[a]).key@.len()
        > 0 implies r[a].key@ != (#[trigger] r[b]).key@ by {
        let sa: int = if a < i { a } else { a + 1 };
        let sb: int = if b < i { b } else { b + 1 };
        assert(r[a] == s[sa]);
        assert(r[b] == s[sb]);
    }
}

impl Store {
    /// Bytes currently charged to entries of one kind.
    pub fn type_size(&self, t: StoreType) -> (n: usize)
        requires
            self.wf(),
        ensures
            n == kind_sum(self@.entries, t),
    {
        let ghost s = self@.entries;
        let mut acc: usize = 0;
        let mut i: usize = 0;
        let len = self.items.len();
        while i < len
            invariant
                self.wf(),
                s == self@.entries,
                len == s.len(),
                i <= len,
                acc == kind_sum(s.subrange(0, i as int), t),
                acc <= self@.current_size,
            decreases len - i,
        {
            proof {
                assert(s.subrange(0, i + 1).drop_last() =~= s.subrange(0, i as int));
                assert(s.subrange(0, i + 1).last() == s[i as int]);
                lemma_kind_sum_le_sum(s.subrange(0, i + 1), t);
                lemma_sum_prefix_le(s, i + 1);
            }
            if self.items[i].item_type == t {
                acc = acc + self.items[i].size;
            }
            i = i + 1;
        }
        proof {
            assert(s.subrange(0, len as int) =~= s);
        }
        acc
    }

    /// Number of live entries of one kind.
    pub fn type_count(&self, t: StoreType) -> (n: usize)
        requires
            self.wf(),
        ensures
            n == kind_count(self@.entries, t),
    {
        let ghost s = self@.entries;
        let mut acc: usize = 0;
        let mut i: usize = 0;
        let len = self.items.len();
        while i < len
            invariant
                self.wf(),
                s == self@.entries,
                len == s.len(),
                i <= len,
                acc == kind_count(s.subrange(0, i as int), t),
                acc <= i,
            decreases len - i,
        {
            proof {
                assert(s.subrange(0, i + 1).drop_last() =~= s.subrange(0, i as int));
                assert(s.subrange(0, i + 1).last() == s[i as int]);
            }
            if self.items[i].item_type == t {
                acc = acc + 1;
            }
            i = i + 1;
        }
        proof {
            assert(s.subrange(0, len as int) =~= s);
        }
        acc
    }

    /// The quantity the active policy minimizes, for one entry.
    fn rank_of(&self, it: &StoreItem) -> (r: u64)
        ensures
            r == policy_rank(self@.policy, *it),
    {
        match self.policy {
            EvictionPolicy::LRU => it.last_access,
            EvictionPolicy::LFU => it.access_count,
            EvictionPolicy::FIFO => it.created,
            EvictionPolicy::Random => 0,
        }
    }

    /// Scans the entries for the victim the active policy selects within the
    /// given scope: the first candidate, in insertion order, whose rank is
    /// minimal. Returns its index, or `None` when no entry in scope is both
    /// evictable and unreferenced.
    fn select_victim_index(&self, scope: Option<StoreType>) -> (r: Option<usize>)
        ensures
            match r {
                Option::Some(i) => {
                    &&& i < self@.entries.len()
                    &&& candidate(self@.entries[i as int], scope)
                    &&& forall|q: int|
                        0 <= q < self@.entries.len() && candidate(#[trigger] self@.entries[q], scope)
                        ==> policy_rank(self@.policy, self@.entries[i as int])
                            <= policy_rank(self@.policy, self@.entries[q])
                    &&& forall|q: int|
                        0 <= q < i && candidate(#[trigger] self@.entries[q], scope)
                        ==> policy_rank(self@.policy, self@.entries[q])
                            > policy_rank(self@.policy, self@.entries[i as int])
                },
                Option::None => forall|q: int|
                    0 <= q < self@.entries.len() ==> !candidate(#[trigger] self@.entries[q], scope),
            },
    {
        let mut best: Option<usize> = None;
        let mut j: usize = 0;
        let len = self.items.len();
        while j < len
            invariant
                j <= len,
                len == self@.entries.len(),
                match best {
                    Option::Some(b) => {
                        &&& b < j
                        &&& candidate(self@.entries[b as int], scope)
                        &&& forall|q: int|
                            0 <= q < j && candidate(#[trigger] self@.entries[q], scope)
                            ==> policy_rank(self@.policy, self@.entries[b as int])
                                <= policy_rank(self@.policy, self@.entries[q])
                        &&& forall|q: int|
                            0 <= q < b && candidate(#[trigger] self@.entries[q], scope)
                            ==> policy_rank(self@.policy, self@.entries[q])
                                > policy_rank(self@.policy, self@.entries[b as int])
                    },
                    Option::None => forall|q: int|
                        0 <= q < j ==> !candidate(#[trigger] self@.entries[q], scope),
                },
            decreases len - j,
        {
            let it = &self.items[j];
            let in_scope = match scope {
                Option::Some(t) => it.item_type == t,
                Option::None => true,
            };
            if it.evictable && it.refs <= 1 && in_scope {
                match best {
                    Option::None => {
                        best = Some(j);
                    },
                    Option::Some(b) => {
                        let rb = self.rank_of(&self.items[b]);
                        let rj = self.rank_of(&self.items[j]);
                        if rj < rb {
                            best = Some(j);
                        }
                    },
                }
            }
            j = j + 1;
        }
        best
    }

    /// The id of the entry the active policy would evict next from the whole
    /// store, or 0 when no entry is both evictable and unreferenced.
    pub fn select_victim(&self) -> (r: u64)
        requires
            self.wf(),
        ensures
            r == 0 ==> forall|q: int|
                0 <= q < self@.entries.len() ==> !victim_ok(#[trigger] self@.entries[q]),
            r != 0 ==> exists|i: int|
                {
                    &&& 0 <= i < self@.entries.len()
                    &&& (#[trigger] self@.entries[i]).id == r
                    &&& victim_ok(self@.entries[i])
                    &&& forall|q: int|
                        0 <= q < self@.entries.len() && victim_ok(#[trigger] self@.entries[q])
                        ==> policy_rank(self@.policy, self@.entries[i])
                            <= policy_rank(self@.policy, self@.entries[q])
                },
    {
        match self.select_victim_index(None) {
            Option::None => 0,
            Option::Some(i) => {
                assert(candidate(self@.entries[i as int], Option::None));
                self.items[i].id
            },
        }
    }

    /// Evicts victims, in policy order, until at most `target` bytes are
    /// charged or no victim is left; returns how many entries were evicted.
    /// Entries that are pinned or hold more than one reference always
    /// survive, so the target may not be reached.
    pub fn evict_to_size(&mut self, target: usize) -> (n: usize)
        requires
            old(self).wf(),
            old(self)@.total_evicted + old(self)@.entries.len() <= u64::MAX,
        ensures
            final(self).wf(),
            final(self)@.max_size == old(self)@.max_size,
            final(self)@.policy == old(self)@.policy,
            final(self)@.limits == old(self)@.limits,
            final(self)@.next_id == old(self)@.next_id,
            final(self)@.clock == old(self)@.clock,
            final(self)@.hits == old(self)@.hits,
            final(self)@.misses == old(self)@.misses,
            final(self)@.total_stored == old(self)@.total_stored,
            final(self)@.current_size <= old(self)@.current_size,
            forall|x: StoreItem| final(self)@.entries.contains(x) ==> old(self)@.entries.contains(x),
            forall|q: int|
                0 <= q < old(self)@.entries.len() && !victim_ok(#[trigger] old(self)@.entries[q])
                ==> final(self)@.entries.contains(old(self)@.entries[q]),
            final(self)@.current_size <= target || forall|q: int|
                0 <= q < final(self)@.entries.len() ==> !victim_ok(#[trigger] final(self)@.entries[q]),
            n == old(self)@.entries.len() - final(self)@.entries.len(),
            final(self)@.total_evicted == old(self)@.total_evicted + n,
            evicted_in_policy_order(
                old(self)@.policy,
                Option::None,
                old(self)@.entries,
                final(self)@.entries,
            ),
    {
        let ghost orig = old(self)@;
        proof {
            assert(self.items.len() == orig.entries.len());
        }
        let mut n: usize = 0;
        let mut done = false;
        while !done && self.current_size > target
            invariant
                self.wf(),
                self@.max_size == orig.max_size,
                self@.policy == orig.policy,
                self@.limits == orig.limits,
                self@.next_id == orig.next_id,
                self@.clock == orig.clock,
                self@.hits == orig.hits,
                self@.misses == orig.misses,
                self@.total_stored == orig.total_stored,
                self@.current_size <= orig.current_size,
                forall|x: StoreItem| self@.entries.contains(x) ==> orig.entries.contains(x),
                forall|q: int|
                    0 <= q < orig.entries.len() && !victim_ok(#[trigger] orig.entries[q])
                    ==> self@.entries.contains(orig.entries[q]),
                n == orig.entries.len() - self@.entries.len(),
                self@.total_evicted == orig.total_evicted + n,
                orig.total_evicted + orig.entries.len() <= u64::MAX,
                orig.entries.len() <= usize::MAX,
                evicted_in_policy_order(orig.policy, Option::None, orig.entries, self@.entries),
                done ==> forall|q: int|
                    0 <= q < self@.entries.len() ==> !victim_ok(#[trigger] self@.entries[q]),
            decreases self@.entries.len(), (if done { 0int } else { 1int }),
        {
            match self.select_victim_index(None) {
                Option::None => {
                    done = true;
                },
                Option::Some(i) => {
                    let ghost pre = self@.entries;
                    proof {
                        lemma_sum_remove(pre, i as int);
                        lemma_sum_nonneg(pre.remove(i as int));
                        lemma_items_ok_remove(pre, self@.next_id, self@.clock, i as int);
                        lemma_remove_subset(pre, i as int);
                    }
                    let victim = self.items.remove(i);
                    proof {
                        assert forall|q: int|
                            0 <= q < orig.entries.len() && !victim_ok(#[trigger] orig.entries[q])
                            implies self@.entries.contains(orig.entries[q]) by {
                            lemma_remove_keeps_others(pre, i as int, orig.entries[q]);
                        }
                        lemma_policy_order_step(
                            orig.policy,
                            Option::None,
                            orig.entries,
                            pre,
                            i as int,
                        );
                    }
                    self.current_size = self.current_size - victim.size;
                    self.total_evicted = self.total_evicted + 1;
                    n = n + 1;
                },
            }
        }
        n
    }
}

/// Byte-wise slice equality, stated over the slices' views.
fn bytes_equal(a: &[u8], b: &[u8]) -> (r: bool)
    ensures
        r == (a@ == b@),
{
    if a.len() != b.len() {
        return false;
    }
    let mut i: usize = 0;
    while i < a.len()
        invariant
            i <= a@.len(),
            a@.len() == b@.len(),
            forall|k: int| 0 <= k < i ==> a@[k] == b@[k],
        decreases a@.len() - i,
    {
        if a[i] != b[i] {
            return false;
        }
        i = i + 1;
    }
    proof {
        assert(a@ =~= b@);
    }
    true
}

impl Store {
    /// Index of the entry carrying this (non-empty) key, if any.
    fn find_key_index(&self, key: &[u8]) -> (r: Option<usize>)
        ensures
            match r {
                Option::Some(i) => i < self@.entries.len() && self@.entries[i as int].key@ == key@,
                Option::None => forall|q: int|
                    0 <= q < self@.entries.len() ==> (#[trigger] self@.entries[q]).key@ != key@,
            },
    {
        let mut i: usize = 0;
        let len = self.items.len();
        while i < len
            invariant
                i <= len,
                len == self@.entries.len(),
                forall|q: int| 0 <= q < i ==> (#[trigger] self@.entries[q]).key@ != key@,
            decreases len - i,
        {
            if bytes_equal(self.items[i].key.as_slice(), key) {
                return Some(i);
            }
            i = i + 1;
        }
        None
    }

    /// Index of the entry carrying this id, if any.
    fn find_id_index(&self, id: u64) -> (r: Option<usize>)
        ensures
            match r {
                Option::Some(i) => i < self@.entries.len() && self@.entries[i as int].id == id,
                Option::None => forall|q: int|
                    0 <= q < self@.entries.len() ==> (#[trigger] self@.entries[q]).id != id,
            },
    {
        let mut i: usize = 0;
        let len = self.items.len();
        while i < len
            invariant
                i <= len,
                len == self@.entries.len(),
                forall|q: int| 0 <= q < i ==> (#[trigger] self@.entries[q]).id != id,
            decreases len - i,
        {
            if self.items[i].id == id {
                return Some(i);
            }
            i = i + 1;
        }
        None
    }

    /// Detaches the entry at one index and releases its budget charge.
    /// Statistics are untouched: this is bookkeeping shared by explicit
    /// removal and reference-count release, neither of which is an eviction.
    fn remove_entry_at(&mut self, i: usize) -> (it: StoreItem)
        requires
            old(self).wf(),
            i < old(self)@.entries.len(),
        ensures
            final(self).wf(),
            it == old(self)@.entries[i as int],
            final(self)@ == (StoreView {
                entries: old(self)@.entries.remove(i as int),
                current_size: old(self)@.current_size - it.size,
                ..old(self)@
            }),
    {
        proof {
            lemma_sum_remove(self@.entries, i as int);
            lemma_sum_nonneg(self@.entries.remove(i as int));
            lemma_items_ok_remove(self@.entries, self@.next_id, self@.clock, i as int);
        }
        let it = self.items.remove(i);
        self.current_size = self.current_size - it.size;
        it
    }

    /// Evicts victims of one kind, in policy order, until that kind charges
    /// at most `target` bytes or no victim of the kind is left; returns how
    /// many entries were evicted. Entries of other kinds, pinned entries and
    /// referenced entries always survive.
    pub fn evict_kind_to_size(&mut self, t: StoreType, target: usize) -> (n: usize)
        requires
            old(self).wf(),
            old(self)@.total_evicted + old(self)@.entries.len() <= u64::MAX,
        ensures
            final(self).wf(),
            final(self)@.max_size == old(self)@.max_size,
            final(self)@.policy == old(self)@.policy,
            final(self)@.limits == old(self)@.limits,
            final(self)@.next_id == old(self)@.next_id,
            final(self)@.clock == old(self)@.clock,
            final(self)@.hits == old(self)@.hits,
            final(self)@.misses == old(self)@.misses,
            final(self)@.total_stored == old(self)@.total_stored,
            final(self)@.current_size <= old(self)@.current_size,
            forall|x: StoreItem| final(self)@.entries.contains(x) ==> old(self)@.entries.contains(x),
            forall|q: int|
                0 <= q < old(self)@.entries.len()
                && !candidate(#[trigger] old(self)@.entries[q], Some(t))
                ==> final(self)@.entries.contains(old(self)@.entries[q]),
            kind_sum(final(self)@.entries, t) <= target || forall|q: int|
                0 <= q < final(self)@.entries.len()
                ==> !candidate(#[trigger] final(self)@.entries[q], Some(t)),
            n == old(self)@.entries.len() - final(self)@.entries.len(),
            final(self)@.total_evicted == old(self)@.total_evicted + n,
            evicted_in_policy_order(
                old(self)@.policy,
                Some(t),
                old(self)@.entries,
                final(self)@.entries,
            ),
    {
        let ghost orig = old(self)@;
        proof {
            assert(self.items.len() == orig.entries.len());
            lemma_kind_sum_le_sum(orig.entries, t);
        }
        let mut cur = self.type_size(t);
        let mut n: usize = 0;
        let mut done = false;
        while !done && cur > target
            invariant
                self.wf(),
                self@.max_size == orig.max_size,
                self@.policy == orig.policy,
                self@.limits == orig.limits,
                self@.next_id == orig.next_id,
                self@.clock == orig.clock,
                self@.hits == orig.hits,
                self@.misses == orig.misses,
                self@.total_stored == orig.total_stored,
                self@.current_size <= orig.current_size,
                cur == kind_sum(self@.entries, t),
                forall|x: StoreItem| self@.entries.contains(x) ==> orig.entries.contains(x),
                forall|q: int|
                    0 <= q < orig.entries.len() && !candidate(#[trigger] orig.entries[q], Some(t))
                    ==> self@.entries.contains(orig.entries[q]),
                n == orig.entries.len() - self@.entries.len(),
                self@.total_evicted == orig.total_evicted + n,
                orig.total_evicted + orig.entries.len() <= u64::MAX,
                orig.entries.len() <= usize::MAX,
                evicted_in_policy_order(orig.policy, Some(t), orig.entries, self@.entries),
                done ==> forall|q: int|
                    0 <= q < self@.entries.len() ==> !candidate(#[trigger] self@.entries[q], Some(t)),
            decreases self@.entries.len(), (if done { 0int } else { 1int }),
        {
            match self.select_victim_index(Some(t)) {
                Option::None => {
                    done = true;
                },
                Option::Some(i) => {
                    let ghost pre = self@.entries;
                    proof {
                        lemma_sum_remove(pre, i as int);
                        lemma_sum_nonneg(pre.remove(i as int));
                        lemma_kind_sum_remove(pre, t, i as int);
                        lemma_kind_sum_le_sum(pre.remove(i as int), t);
                        lemma_items_ok_remove(pre, self@.next_id, self@.clock, i as int);
                        lemma_remove_subset(pre, i as int);
                    }
                    let victim = self.items.remove(i);
                    proof {
                        assert forall|q: int|
                            0 <= q < orig.entries.len()
                            && !candidate(#[trigger] orig.entries[q], Some(t))
                            implies self@.entries.contains(orig.entries[q]) by {
                            lemma_remove_keeps_others(pre, i as int, orig.entries[q]);
                        }
                        lemma_policy_order_step(orig.policy, Some(t), orig.entries, pre, i as int);
                    }
                    self.current_size = self.current_size - victim.size;
                    cur = cur - victim.size;
                    self.total_evicted = self.total_evicted + 1;
                    n = n + 1;
                },
            }
        }
        n
    }

    /// Appends a fully fresh entry: new id, advanced clock, one
    /// reference, evictable, zero access count. The caller has already made
    /// room and ensured no live entry carries the same non-empty key.
    fn push_new_entry(&mut self, item_type: StoreType, handle: Handle, size: usize, key: Vec<
        u8>) -> (id: u64)
        requires
            old(self).wf(),
            old(self)@.current_size + size <= usize::MAX,
            old(self)@.next_id < u64::MAX,
            old(self)@.clock < u64::MAX,
            old(self)@.total_stored < u64::MAX,
            key@.len() > 0 ==> forall|q: int|
                0 <= q < old(self)@.entries.len()
                ==> (#[trigger] old(self)@.entries[q]).key@ != key@,
        ensures
            final(self).wf(),
            id == old(self)@.next_id,
            id != 0,
            final(self)@ == (StoreView {
                entries: old(self)@.entries.push(StoreItem {
                    id,
                    item_type,
                    handle,
                    size,
                    last_access: (old(self)@.clock + 1) as u64,
                    access_count: 0,
                    created: (old(self)@.clock + 1) as u64,
                    key,
                    evictable: true,
                    refs: 1,
                }),
                current_size: old(self)@.current_size + size,
                next_id: old(self)@.next_id + 1,
                clock: old(self)@.clock + 1,
                total_stored: old(self)@.total_stored + 1,
                ..old(self)@
            }),
    {
        let ghost pre = self@;
        let id = self.next_id;
        self.next_id = self.next_id + 1;
        self.clock = self.clock + 1;
        let clk = self.clock;
        let item = StoreItem {
            id,
            item_type,
            handle,
            size,
            last_access: clk,
            access_count: 0,
            created: clk,
            key,
            evictable: true,
            refs: 1,
        };
        proof {
            lemma_sum_push(pre.entries, item);
        }
        self.items.push(item);
        self.current_size = self.current_size + size;
        self.total_stored = self.total_stored + 1;
        proof {
            let fin = self@.entries;
            assert(fin.drop_last() =~= pre.entries);
            assert forall|q: int|
                0 <= q < fin.len() implies item_ok(#[trigger] fin[q], self@.next_id, self@.clock) by {
                if q < fin.len() - 1 {
                    assert(item_ok(pre.entries[q], pre.next_id, pre.clock));
                }
            }
            assert forall|a: int, b: int|
                0 <= a < fin.len() && 0 <= b < fin.len() && a != b implies (#[trigger] fin[a]).id
                != (#[trigger] fin[b]).id by {
                if a < fin.len() - 1 && b < fin.len() - 1 {
                    assert(fin[a] == pre.entries[a]);
                    assert(fin[b] == pre.entries[b]);
                } else if a == fin.len() - 1 {
                    assert(item_ok(pre.entries[b], pre.next_id, pre.clock));
                } else {
                    assert(item_ok(pre.entries[a], pre.next_id, pre.clock));
                }
            }
            assert forall|a: int, b: int|
                0 <= a < b < fin.len() implies (#[trigger] fin[a]).id < (#[trigger] fin[b]).id by {
                if b < fin.len() - 1 {
                    assert(fin[a] == pre.entries[a]);
                    assert(fin[b] == pre.entries[b]);
                } else {
                    assert(fin[a] == pre.entries[a]);
                    assert(item_ok(pre.entries[a], pre.next_id, pre.clock));
                }
            }
            assert forall|a: int, b: int|
                0 <= a < fin.len() && 0 <= b < fin.len() && a != b && (#[trigger] fin[a]).key@.len()
                > 0 implies fin[a].key@ != (#[trigger] fin[b]).key@ by {
                if a < fin.len() - 1 && b < fin.len() - 1 {
                    assert(fin[a] == pre.entries[a]);
                    assert(fin[b] == pre.entries[b]);
                } else if a == fin.len() - 1 {
                    assert(fin[b] == pre.entries[b]);
                } else {
                    assert(fin[a] == pre.entries[a]);
                }
            }
        }
        id
    }

    /// Makes room for a new entry of `size` bytes and kind `item_type`:
    /// victims are evicted in policy order under the global budget, then
    /// under the kind's budget where one is configured, stopping early only
    /// when no victim is left in the scope at hand.
    #[verifier::rlimit(100)]
    #[verifier::spinoff_prover]
    fn reserve_for(&mut self, item_type: StoreType, size: usize) -> (n: usize)
        requires
            old(self).wf(),
            old(self)@.total_evicted + old(self)@.entries.len() <= u64::MAX,
        ensures
            final(self).wf(),
            final(self)@.max_size == old(self)@.max_size,
            final(self)@.policy == old(self)@.policy,
            final(self)@.limits == old(self)@.limits,
            final(self)@.next_id == old(self)@.next_id,
            final(self)@.clock == old(self)@.clock,
            final(self)@.hits == old(self)@.hits,
            final(self)@.misses == old(self)@.misses,
            final(self)@.total_stored == old(self)@.total_stored,
            final(self)@.current_size <= old(self)@.current_size,
            forall|x: StoreItem| final(self)@.entries.contains(x) ==> old(self)@.entries.contains(x),
            forall|q: int|
                0 <= q < old(self)@.entries.len() && !victim_ok(#[trigger] old(self)@.entries[q])
                ==> final(self)@.entries.contains(old(self)@.entries[q]),
            final(self)@.current_size + size <= final(self)@.max_size || size > final(self)@.max_size || forall|q: int|
                0 <= q < final(self)@.entries.len() ==> !victim_ok(#[trigger] final(self)@.entries[q]),
            old(self)@.limits[kind_ordinal(item_type)] > 0 ==> (kind_sum(
                final(self)@.entries,
                item_type,
            ) + size <= old(self)@.limits[kind_ordinal(item_type)] || size > old(self)@.limits[
                kind_ordinal(item_type)] || forall|q: int|
                0 <= q < final(self)@.entries.len()
                    ==> !candidate(#[trigger] final(self)@.entries[q], Some(item_type))),
            n == old(self)@.entries.len() - final(self)@.entries.len(),
            final(self)@.total_evicted == old(self)@.total_evicted + n,
            old(self)@.limits[kind_ordinal(item_type)] == 0 ==> evicted_in_policy_order(
                old(self)@.policy,
                Option::None,
                old(self)@.entries,
                final(self)@.entries,
            ),
            evicted_in_policy_order(
                old(self)@.policy,
                Some(item_type),
                old(self)@.entries,
                final(self)@.entries,
            ),
            (old(self)@.current_size + size <= old(self)@.max_size && (old(self)@.limits[
                kind_ordinal(item_type)] == 0 || kind_sum(old(self)@.entries, item_type) + size
                <= old(self)@.limits[kind_ordinal(item_type)])) ==> final(self)@ == old(self)@,
    {
        let ghost orig = old(self)@;
        proof {
            assert(self.items.len() == orig.entries.len());
        }
        let mut n: usize = 0;
        // Make room under the global budget.
        let evicting = self.current_size > self.max_size || size > self.max_size
            - self.current_size;
        if evicting {
            let target: usize = if size > self.max_size {
                0
            } else {
                self.max_size - size
            };
            n = self.evict_to_size(target);
        }
        let ghost globally = self@;
        proof {
            if !evicting {
                // Nothing was removed, so the order claim holds vacuously.
                assert forall|i: int, j: int|
                    0 <= i < orig.entries.len() && 0 <= j < globally.entries.len() && candidate(
                        #[trigger] orig.entries[i],
                        Option::<StoreType>::None,
                    ) && candidate(#[trigger] globally.entries[j], Option::<StoreType>::None)
                    && !globally.entries.contains(orig.entries[i]) implies false by {
                    assert(globally.entries.contains(globally.entries[i]));
                }
            }
            lemma_policy_order_restrict(orig.policy, item_type, orig.entries, globally.entries);
        }
        // Make room under the kind's own budget, where one is configured.
        let ki = kind_index(item_type);
        let limit = self.type_limits[ki];
        if limit > 0 {
            let cur = self.type_size(item_type);
            proof {
                lemma_kind_sum_le_sum(self@.entries, item_type);
            }
            if cur > limit || size > limit - cur {
                let ktarget: usize = if size > limit {
                    0
                } else {
                    limit - size
                };
                let m = self.evict_kind_to_size(item_type, ktarget);
                proof {
                    assert(n + m <= orig.entries.len());
                }
                n = n + m;
            }
        }
        proof {
            let fin = self@.entries;
            // Membership and pinnedness chain through the two phases.
            assert forall|x: StoreItem| fin.contains(x) implies orig.entries.contains(x) by {
                assert(globally.entries.contains(x));
            }
            assert forall|q: int|
                0 <= q < orig.entries.len() && !victim_ok(#[trigger] orig.entries[q])
                implies fin.contains(orig.entries[q]) by {
                assert(globally.entries.contains(orig.entries[q]));
                let w = choose|w: int|
                    0 <= w < globally.entries.len() && globally.entries[w] == orig.entries[q];
                assert(!candidate(globally.entries[w], Some(item_type)));
            }
            // If the global budget still cannot absorb the entry, the global
            // eviction exhausted its candidates, and the kind phase removed
            // no survivor's pinnedness.
            if self@.current_size + size > self@.max_size && size <= self@.max_size {
                assert(globally.current_size > self@.max_size - size);
                assert(forall|q: int|
                    0 <= q < globally.entries.len() ==> !victim_ok(
                        #[trigger] globally.entries[q],
                    ));
                lemma_all_pinned_through_subset(globally.entries, fin);
            }
            // The kind-budget claim.
            if orig.limits[kind_ordinal(item_type)] > 0 && size <= orig.limits[kind_ordinal(
                item_type,
            )] && kind_sum(fin, item_type) + size > orig.limits[kind_ordinal(item_type)] {
                assert(forall|q: int|
                    0 <= q < fin.len() ==> !candidate(#[trigger] fin[q], Some(item_type)));
            }
            // Policy order, chained across the phases.
            lemma_policy_order_trans(
                orig.policy,
                Some(item_type),
                orig.entries,
                globally.entries,
                self@.entries,
            );
        }
        n
    }

    /// Inserts a new entry charged `size` bytes, first making room: an entry
    /// already stored under the same non-empty key is removed (its budget
    /// charge is reclaimed), then victims are evicted in policy order until
    /// the global budget, and the entry's kind budget if one is configured,
    /// can absorb the new entry — stopping early only if no victim is left,
    /// in which case the budget is deliberately exceeded rather than the
    /// entry rejected. Returns the fresh id of the new entry; the entry
    /// starts evictable, with one reference and a zero access count.
    #[verifier::rlimit(100)]
    #[verifier::spinoff_prover]
    pub fn put(&mut self, item_type: StoreType, handle: Handle, size: usize, key: Vec<u8>) -> (id:
        u64)
        requires
            old(self).wf(),
            old(self)@.current_size + size <= usize::MAX,
            old(self)@.next_id < u64::MAX,
            old(self)@.clock < u64::MAX,
            old(self)@.total_stored < u64::MAX,
            old(self)@.total_evicted + old(self)@.entries.len() <= u64::MAX,
        ensures
            final(self).wf(),
            final(self)@.max_size == old(self)@.max_size,
            final(self)@.policy == old(self)@.policy,
            final(self)@.limits == old(self)@.limits,
            final(self)@.hits == old(self)@.hits,
            final(self)@.misses == old(self)@.misses,
            final(self)@.total_stored == old(self)@.total_stored + 1,
            final(self)@.next_id == old(self)@.next_id + 1,
            final(self)@.clock == old(self)@.clock + 1,
            id == old(self)@.next_id,
            id != 0,
            !has_id(old(self)@.entries, id),
            final(self)@.entries.len() >= 1,
            final(self)@.entries.last() == (StoreItem {
                id,
                item_type,
                handle,
                size,
                last_access: (old(self)@.clock + 1) as u64,
                access_count: 0,
                created: (old(self)@.clock + 1) as u64,
                key,
                evictable: true,
                refs: 1,
            }),
            forall|x: StoreItem|
                final(self)@.entries.drop_last().contains(x) ==> old(self)@.entries.contains(x),
            forall|q: int|
                0 <= q < old(self)@.entries.len() && !victim_ok(#[trigger] old(self)@.entries[q])
                && (key@.len() == 0 || old(self)@.entries[q].key@ != key@)
                ==> final(self)@.entries.drop_last().contains(old(self)@.entries[q]),
            // The budget holds afterwards, unless the one new entry is
            // itself oversized, or every older survivor is pinned or
            // referenced — that is, eviction ran out of victims.
            final(self)@.current_size <= final(self)@.max_size || size > final(self)@.max_size
                || forall|q: int|
                0 <= q < final(self)@.entries.len() - 1
                    ==> !victim_ok(#[trigger] final(self)@.entries[q]),
            // The kind budget was enforced the same way, where configured.
            old(self)@.limits[kind_ordinal(item_type)] > 0 ==> (kind_sum(
                final(self)@.entries,
                item_type,
            ) <= old(self)@.limits[kind_ordinal(item_type)] || size > old(self)@.limits[
                kind_ordinal(item_type)] || forall|q: int|
                0 <= q < final(self)@.entries.len() - 1
                    ==> !candidate(#[trigger] final(self)@.entries[q], Some(item_type))),
            // Exactly the entries that left — beyond the one a duplicate key
            // displaced — count as evicted.
            final(self)@.total_evicted == old(self)@.total_evicted + (old(self)@.entries.len() + (
            if key@.len() > 0 && has_key(old(self)@.entries, key@) {
                0int
            } else {
                1int
            }) - final(self)@.entries.len()),
            // With room already there and no key displaced, the store only
            // gains the new entry.
            (old(self)@.current_size + size <= old(self)@.max_size && (key@.len() == 0
                || !has_key(old(self)@.entries, key@)) && (old(self)@.limits[kind_ordinal(
                item_type,
            )] == 0 || kind_sum(old(self)@.entries, item_type) + size <= old(self)@.limits[
                kind_ordinal(item_type)])) ==> final(self)@ == (StoreView {
                entries: old(self)@.entries.push(StoreItem {
                    id,
                    item_type,
                    handle,
                    size,
                    last_access: (old(self)@.clock + 1) as u64,
                    access_count: 0,
                    created: (old(self)@.clock + 1) as u64,
                    key,
                    evictable: true,
                    refs: 1,
                }),
                current_size: old(self)@.current_size + size,
                next_id: old(self)@.next_id + 1,
                clock: old(self)@.clock + 1,
                total_stored: old(self)@.total_stored + 1,
                ..old(self)@
            }),
            // Victims fell in policy order: globally when no kind budget is
            // configured for this kind, and always among this kind's own
            // entries — never touching the entry a duplicate key displaced.
            old(self)@.limits[kind_ordinal(item_type)] == 0 ==> (forall|i: int, j: int|
                0 <= i < old(self)@.entries.len() && 0 <= j < final(self)@.entries.len() - 1
                    && victim_ok(#[trigger] old(self)@.entries[i]) && victim_ok(
                    #[trigger] final(self)@.entries[j],
                ) && (key@.len() == 0 || old(self)@.entries[i].key@ != key@) && !final(self)@.entries.drop_last().contains(old(self)@.entries[i]) ==> (policy_rank(
                    old(self)@.policy,
                    old(self)@.entries[i],
                ) < policy_rank(old(self)@.policy, final(self)@.entries[j]) || (policy_rank(
                    old(self)@.policy,
                    old(self)@.entries[i],
                ) == policy_rank(old(self)@.policy, final(self)@.entries[j]) && old(self)@.entries[i].id < final(self)@.entries[j].id))),
    {
        let ghost orig = old(self)@;
        // An entry already stored under this key is removed first, so keys
        // stay one-to-one and the old entry's budget is reclaimed.
        if key.len() > 0 {
            match self.find_key_index(key.as_slice()) {
                Option::Some(i) => {
                    let ghost pre = self@.entries;
                    let _ = self.remove_entry_at(i);
                    proof {
                        assert(has_key(orig.entries, key@)) by {
                            assert(orig.entries[i as int].key@ == key@);
                        }
                        lemma_remove_subset(pre, i as int);
                        assert forall|q: int|
                            0 <= q < self@.entries.len()
                            implies (#[trigger] self@.entries[q]).key@ != key@ by {
                            if q < i {
                                assert(self@.entries[q] == pre[q]);
                            } else {
                                assert(self@.entries[q] == pre[q + 1]);
                            }
                        }
                        assert forall|q: int|
                            0 <= q < orig.entries.len() && orig.entries[q].key@ != key@
                            implies self@.entries.contains(#[trigger] orig.entries[q]) by {
                            assert(pre[q] == orig.entries[q]);
                            lemma_remove_keeps_others(pre, i as int, orig.entries[q]);
                        }
                    }
                },
                Option::None => {},
            }
        }
        let ghost deduped = self@;
        proof {
            assert(key@.len() > 0 ==> forall|q: int|
                0 <= q < deduped.entries.len() ==> (#[trigger] deduped.entries[q]).key@ != key@);
            assert(deduped.entries.len() == orig.entries.len() - (if key@.len() > 0 && has_key(
                orig.entries,
                key@,
            ) {
                1int
            } else {
                0
            }));
        }
        let _ = self.reserve_for(item_type, size);
        let ghost roomy = self@;
        proof {
            if key@.len() > 0 {
                lemma_keyless_through_subset(deduped.entries, roomy.entries, key@);
            }
        }
        let id = self.push_new_entry(item_type, handle, size, key);
        proof {
            let fin = self@.entries;
            let newbie = fin.last();
            assert(fin.drop_last() =~= roomy.entries);
            lemma_kind_sum_push(roomy.entries, item_type, newbie);
            // Survivors of every phase came from the store as it was.
            assert forall|x: StoreItem| fin.drop_last().contains(x)
                implies orig.entries.contains(x) by {
                assert(deduped.entries.contains(x));
            }
            // Pinned entries survive, unless overwritten by key.
            assert forall|q: int|
                0 <= q < orig.entries.len() && !victim_ok(#[trigger] orig.entries[q]) && (
                newbie.key@.len() == 0 || orig.entries[q].key@ != newbie.key@)
                implies fin.drop_last().contains(orig.entries[q]) by {
                assert(deduped.entries.contains(orig.entries[q]));
                let a = choose|a: int| 0 <= a < deduped.entries.len() && deduped.entries[a]
                    == orig.entries[q];
                assert(!victim_ok(deduped.entries[a]));
            }
            // Policy order: lift the reservation's claims over the one hop
            // from the store as it was (minus the displaced key) to the
            // survivors.
            if orig.limits[kind_ordinal(item_type)] == 0 {
                assert forall|i: int, j: int|
                    0 <= i < orig.entries.len() && 0 <= j < fin.len() - 1 && victim_ok(
                        #[trigger] orig.entries[i],
                    ) && victim_ok(#[trigger] fin[j]) && (newbie.key@.len() == 0
                    || orig.entries[i].key@ != newbie.key@) && !fin.drop_last().contains(
                    orig.entries[i]) implies (policy_rank(orig.policy, orig.entries[i])
                    < policy_rank(orig.policy, fin[j]) || (policy_rank(
                    orig.policy,
                    orig.entries[i],
                ) == policy_rank(orig.policy, fin[j]) && orig.entries[i].id < fin[j].id)) by {
                    assert(deduped.entries.contains(orig.entries[i]));
                    let a = choose|a: int| 0 <= a < deduped.entries.len() && deduped.entries[a]
                        == orig.entries[i];
                    assert(fin[j] == roomy.entries[j]);
                    assert(candidate(deduped.entries[a], Option::<StoreType>::None));
                    assert(candidate(roomy.entries[j], Option::<StoreType>::None));
                }
            }
        }
        id
    }
}

impl Store {
    /// Looks an entry up by its content key. On a hit the entry is
    /// re-stamped with the advanced clock and its access count grows, and
    /// the hit counter steps; on a miss the miss counter steps. Exactly one
    /// of the two counters grows on every lookup with a non-empty key; an
    /// empty key is not a lookup and leaves the store untouched.
    pub fn find_by_key(&mut self, key: &[u8]) -> (r: Option<Handle>)
        requires
            old(self).wf(),
            old(self)@.clock < u64::MAX,
            old(self)@.hits < u64::MAX,
            old(self)@.misses < u64::MAX,
        ensures
            final(self).wf(),
            key@.len() == 0 ==> (r is None) && final(self)@ == old(self)@,
            key@.len() > 0 ==> ((r is Some) == has_key(old(self)@.entries, key@)),
            key@.len() > 0 && !has_key(old(self)@.entries, key@) ==> (r is None)
                && final(self)@ == (StoreView { misses: old(self)@.misses + 1, ..old(self)@ }),
            key@.len() > 0 && has_key(old(self)@.entries, key@) ==> {
                &&& final(self)@.hits == old(self)@.hits + 1
                &&& final(self)@.misses == old(self)@.misses
                &&& final(self)@.clock == old(self)@.clock + 1
                &&& final(self)@.entries.len() == old(self)@.entries.len()
                &&& (forall|q: int|
                    0 <= q < old(self)@.entries.len() ==> final(self)@.entries[q] == (
                    if (#[trigger] old(self)@.entries[q]).key@ == key@ {
                        touched(old(self)@.entries[q], (old(self)@.clock + 1) as u64)
                    } else {
                        old(self)@.entries[q]
                    }))
                &&& (exists|i: int|
                    0 <= i < old(self)@.entries.len()
                        && (#[trigger] old(self)@.entries[i]).key@ == key@
                        && r == Some(old(self)@.entries[i].handle))
                &&& final(self)@.current_size == old(self)@.current_size
                &&& final(self)@.max_size == old(self)@.max_size
                &&& final(self)@.policy == old(self)@.policy
                &&& final(self)@.limits == old(self)@.limits
                &&& final(self)@.next_id == old(self)@.next_id
                &&& final(self)@.total_stored == old(self)@.total_stored
                &&& final(self)@.total_evicted == old(self)@.total_evicted
            },
    {
        if key.len() == 0 {
            return None;
        }
        match self.find_key_index(key) {
            Option::None => {
                self.misses = self.misses + 1;
                None
            },
            Option::Some(i) => {
                let ghost s = old(self)@.entries;
                self.clock = self.clock + 1;
                let clk = self.clock;
                let cnt = self.items[i].access_count;
                let newcnt: u64 = if cnt == u64::MAX {
                    cnt
                } else {
                    cnt + 1
                };
                self.items[i].last_access = clk;
                self.items[i].access_count = newcnt;
                self.hits = self.hits + 1;
                let h = self.items[i].handle;
                proof {
                    let x = touched(s[i as int], clk);
                    assert(self@.entries =~= s.update(i as int, x));
                    lemma_sum_update(s, i as int, x);
                    assert forall|a: int|
                        0 <= a < s.len()
                        implies item_ok(#[trigger] s[a], self@.next_id, self@.clock) by {
                        assert(item_ok(s[a], old(self)@.next_id, old(self)@.clock));
                    }
                    lemma_items_ok_update(s, self@.next_id, self@.clock, i as int, x);
                    assert forall|q: int|
                        0 <= q < s.len() implies self@.entries[q] == (
                        if (#[trigger] s[q]).key@ == key@ {
                            touched(s[q], clk)
                        } else {
                            s[q]
                        }) by {
                        if q != i && s[q].key@ == key@ {
                            assert(s[i as int].key@ == s[q].key@);
                            assert(false);
                        }
                    }
                    assert(s[i as int].key@ == key@);
                }
                Some(h)
            },
        }
    }

    /// Looks an entry up by its id, with the same access bookkeeping and
    /// hit/miss accounting as a lookup by key.
    pub fn find_by_id(&mut self, id: u64) -> (r: Option<Handle>)
        requires
            old(self).wf(),
            old(self)@.clock < u64::MAX,
            old(self)@.hits < u64::MAX,
            old(self)@.misses < u64::MAX,
        ensures
            final(self).wf(),
            (r is Some) == has_id(old(self)@.entries, id),
            !has_id(old(self)@.entries, id) ==> (r is None)
                && final(self)@ == (StoreView { misses: old(self)@.misses + 1, ..old(self)@ }),
            has_id(old(self)@.entries, id) ==> {
                &&& final(self)@.hits == old(self)@.hits + 1
                &&& final(self)@.misses == old(self)@.misses
                &&& final(self)@.clock == old(self)@.clock + 1
                &&& final(self)@.entries.len() == old(self)@.entries.len()
                &&& (forall|q: int|
                    0 <= q < old(self)@.entries.len() ==> final(self)@.entries[q] == (
                    if (#[trigger] old(self)@.entries[q]).id == id {
                        touched(old(self)@.entries[q], (old(self)@.clock + 1) as u64)
                    } else {
                        old(self)@.entries[q]
                    }))
                &&& (exists|i: int|
                    0 <= i < old(self)@.entries.len()
                        && (#[trigger] old(self)@.entries[i]).id == id
                        && r == Some(old(self)@.entries[i].handle))
                &&& final(self)@.current_size == old(self)@.current_size
                &&& final(self)@.max_size == old(self)@.max_size
                &&& final(self)@.policy == old(self)@.policy
                &&& final(self)@.limits == old(self)@.limits
                &&& final(self)@.next_id == old(self)@.next_id
                &&& final(self)@.total_stored == old(self)@.total_stored
                &&& final(self)@.total_evicted == old(self)@.total_evicted
            },
    {
        match self.find_id_index(id) {
            Option::None => {
                self.misses = self.misses + 1;
                None
            },
            Option::Some(i) => {
                let ghost s = old(self)@.entries;
                self.clock = self.clock + 1;
                let clk = self.clock;
                let cnt = self.items[i].access_count;
                let newcnt: u64 = if cnt == u64::MAX {
                    cnt
                } else {
                    cnt + 1
                };
                self.items[i].last_access = clk;
                self.items[i].access_count = newcnt;
                self.hits = self.hits + 1;
                let h = self.items[i].handle;
                proof {
                    let x = touched(s[i as int], clk);
                    assert(self@.entries =~= s.update(i as int, x));
                    lemma_sum_update(s, i as int, x);
                    assert forall|a: int|
                        0 <= a < s.len()
                        implies item_ok(#[trigger] s[a], self@.next_id, self@.clock) by {
                        assert(item_ok(s[a], old(self)@.next_id, old(self)@.clock));
                    }
                    lemma_items_ok_update(s, self@.next_id, self@.clock, i as int, x);
                    assert forall|q: int|
                        0 <= q < s.len() implies self@.entries[q] == (
                        if (#[trigger] s[q]).id == id {
                            touched(s[q], clk)
                        } else {
                            s[q]
                        }) by {
                        if q != i && s[q].id == id {
                            assert(s[i as int].id == s[q].id);
                            assert(false);
                        }
                    }
                    assert(s[i as int].id == id);
                }
                Some(h)
            },
        }
    }

    /// Removes an entry unconditionally, whatever its reference count, and
    /// releases its budget charge; for callers that know the resource is
    /// being destroyed out of band. Not an eviction: `total_evicted` does
    /// not move. Removing an unknown id yields `None`, not an error.
    pub fn remove(&mut self, id: u64) -> (r: Option<Handle>)
        requires
            old(self).wf(),
        ensures
            final(self).wf(),
            !has_id(old(self)@.entries, id) ==> (r is None) && final(self)@ == old(self)@,
            has_id(old(self)@.entries, id) ==> (exists|i: int|
                0 <= i < old(self)@.entries.len() && (#[trigger] old(self)@.entries[i]).id == id
                    && r == Some(old(self)@.entries[i].handle)
                    && final(self)@ == (StoreView {
                    entries: old(self)@.entries.remove(i),
                    current_size: old(self)@.current_size - old(self)@.entries[i].size,
                    ..old(self)@
                })),
    {
        match self.find_id_index(id) {
            Option::None => None,
            Option::Some(i) => {
                let it = self.remove_entry_at(i);
                Some(it.handle)
            },
        }
    }

    /// Removes the entry stored under a non-empty key, like `remove`.
    pub fn remove_by_key(&mut self, key: &[u8]) -> (r: Option<Handle>)
        requires
            old(self).wf(),
        ensures
            final(self).wf(),
            key@.len() == 0 ==> (r is None) && final(self)@ == old(self)@,
            key@.len() > 0 && !has_key(old(self)@.entries, key@) ==> (r is None) && final(self)@
                == old(self)@,
            key@.len() > 0 && has_key(old(self)@.entries, key@) ==> (exists|i: int|
                0 <= i < old(self)@.entries.len() && (#[trigger] old(self)@.entries[i]).key@
                    == key@ && r == Some(old(self)@.entries[i].handle)
                    && final(self)@ == (StoreView {
                    entries: old(self)@.entries.remove(i),
                    current_size: old(self)@.current_size - old(self)@.entries[i].size,
                    ..old(self)@
                })),
    {
        if key.len() == 0 {
            return None;
        }
        match self.find_key_index(key) {
            Option::None => None,
            Option::Some(i) => {
                let it = self.remove_entry_at(i);
                Some(it.handle)
            },
        }
    }

    /// Takes one more logical reference on an entry; the saturating count
    /// keeps the entry from ever being evicted once two holders exist.
    /// Returns the id back, or 0 for an unknown id.
    pub fn keep(&mut self, id: u64) -> (r: u64)
        requires
            old(self).wf(),
        ensures
            final(self).wf(),
            !has_id(old(self)@.entries, id) ==> r == 0 && final(self)@ == old(self)@,
            has_id(old(self)@.entries, id) ==> r == id && (exists|i: int|
                0 <= i < old(self)@.entries.len() && (#[trigger] old(self)@.entries[i]).id == id
                    && final(self)@ == (StoreView {
                    entries: old(self)@.entries.update(i, retained(old(self)@.entries[i])),
                    ..old(self)@
                })),
    {
        match self.find_id_index(id) {
            Option::None => 0,
            Option::Some(i) => {
                let ghost s = old(self)@.entries;
                let refs = self.items[i].refs;
                let newrefs: u32 = if refs == u32::MAX {
                    refs
                } else {
                    refs + 1
                };
                self.items[i].refs = newrefs;
                proof {
                    let x = retained(s[i as int]);
                    assert(self@.entries =~= s.update(i as int, x));
                    lemma_sum_update(s, i as int, x);
                    assert(item_ok(s[i as int], self@.next_id, self@.clock));
                    lemma_items_ok_update(s, self@.next_id, self@.clock, i as int, x);
                }
                self.items[i].id
            },
        }
    }

    /// Releases one logical reference. When the last reference goes, the
    /// entry is removed and its budget charge released, with the same
    /// cleanup as `remove` — and like `remove` this is not an eviction.
    pub fn drop_ref(&mut self, id: u64)
        requires
            old(self).wf(),
        ensures
            final(self).wf(),
            !has_id(old(self)@.entries, id) ==> final(self)@ == old(self)@,
            has_id(old(self)@.entries, id) ==> (exists|i: int|
                0 <= i < old(self)@.entries.len() && (#[trigger] old(self)@.entries[i]).id == id
                    && final(self)@ == (if old(self)@.entries[i].refs > 1 {
                    StoreView {
                        entries: old(self)@.entries.update(i, released(old(self)@.entries[i])),
                        ..old(self)@
                    }
                } else {
                    StoreView {
                        entries: old(self)@.entries.remove(i),
                        current_size: old(self)@.current_size - old(self)@.entries[i].size,
                        ..old(self)@
                    }
                })),
    {
        match self.find_id_index(id) {
            Option::None => {},
            Option::Some(i) => {
                let refs = self.items[i].refs;
                if refs > 1 {
                    let ghost s = old(self)@.entries;
                    self.items[i].refs = refs - 1;
                    proof {
                        let x = released(s[i as int]);
                        assert(self@.entries =~= s.update(i as int, x));
                        lemma_sum_update(s, i as int, x);
                        assert(item_ok(s[i as int], self@.next_id, self@.clock));
                        lemma_items_ok_update(s, self@.next_id, self@.clock, i as int, x);
                    }
                } else {
                    let _ = self.remove_entry_at(i);
                }
            },
        }
    }

    /// Pins (`false`) or unpins (`true`) an entry. A pinned entry survives
    /// budget pressure indefinitely until explicitly removed.
    pub fn set_evictable(&mut self, id: u64, evictable: bool)
        requires
            old(self).wf(),
        ensures
            final(self).wf(),
            !has_id(old(self)@.entries, id) ==> final(self)@ == old(self)@,
            has_id(old(self)@.entries, id) ==> (exists|i: int|
                0 <= i < old(self)@.entries.len() && (#[trigger] old(self)@.entries[i]).id == id
                    && final(self)@ == (StoreView {
                    entries: old(self)@.entries.update(i, StoreItem {
                        evictable,
                        ..old(self)@.entries[i]
                    }),
                    ..old(self)@
                })),
    {
        match self.find_id_index(id) {
            Option::None => {},
            Option::Some(i) => {
                let ghost s = old(self)@.entries;
                self.items[i].evictable = evictable;
                proof {
                    let x = StoreItem { evictable, ..s[i as int] };
                    assert(self@.entries =~= s.update(i as int, x));
                    lemma_sum_update(s, i as int, x);
                    assert(item_ok(s[i as int], self@.next_id, self@.clock));
                    lemma_items_ok_update(s, self@.next_id, self@.clock, i as int, x);
                }
            },
        }
    }

    /// Byte size charged for an entry, or 0 for an unknown id.
    pub fn item_size(&self, id: u64) -> (r: usize)
        requires
            self.wf(),
        ensures
            !has_id(self@.entries, id) ==> r == 0,
            has_id(self@.entries, id) ==> (exists|i: int|
                0 <= i < self@.entries.len() && (#[trigger] self@.entries[i]).id == id && r
                    == self@.entries[i].size),
    {
        match self.find_id_index(id) {
            Option::None => 0,
            Option::Some(i) => self.items[i].size,
        }
    }

    /// Kind of an entry, or `None` for an unknown id.
    pub fn item_type(&self, id: u64) -> (r: Option<StoreType>)
        requires
            self.wf(),
        ensures
            !has_id(self@.entries, id) ==> (r is None),
            has_id(self@.entries, id) ==> (exists|i: int|
                0 <= i < self@.entries.len() && (#[trigger] self@.entries[i]).id == id && r
                    == Some(self@.entries[i].item_type)),
    {
        match self.find_id_index(id) {
            Option::None => None,
            Option::Some(i) => Some(self.items[i].item_type),
        }
    }

    /// Number of successful lookups of an entry, or 0 for an unknown id.
    pub fn item_access_count(&self, id: u64) -> (r: u64)
        requires
            self.wf(),
        ensures
            !has_id(self@.entries, id) ==> r == 0,
            has_id(self@.entries, id) ==> (exists|i: int|
                0 <= i < self@.entries.len() && (#[trigger] self@.entries[i]).id == id && r
                    == self@.entries[i].access_count),
    {
        match self.find_id_index(id) {
            Option::None => 0,
            Option::Some(i) => self.items[i].access_count,
        }
    }

    /// Clock ticks since an entry was created, or 0 for an unknown id.
    pub fn item_age(&self, id: u64) -> (r: u64)
        requires
            self.wf(),
        ensures
            !has_id(self@.entries, id) ==> r == 0,
            has_id(self@.entries, id) ==> (exists|i: int|
                0 <= i < self@.entries.len() && (#[trigger] self@.entries[i]).id == id && r
                    == self@.clock - self@.entries[i].created),
    {
        match self.find_id_index(id) {
            Option::None => 0,
            Option::Some(i) => {
                proof {
                    assert(item_ok(self@.entries[i as int], self@.next_id, self@.clock));
                }
                self.clock - self.items[i].created
            },
        }
    }

    /// Replaces the global budget; shrinking it evicts victims immediately,
    /// within this call, until the new budget holds or only pinned or
    /// referenced entries remain.
    pub fn set_max_size(&mut self, max_size: usize)
        requires
            old(self).wf(),
            old(self)@.total_evicted + old(self)@.entries.len() <= u64::MAX,
        ensures
            final(self).wf(),
            final(self)@.max_size == max_size,
            final(self)@.policy == old(self)@.policy,
            final(self)@.limits == old(self)@.limits,
            final(self)@.next_id == old(self)@.next_id,
            final(self)@.clock == old(self)@.clock,
            final(self)@.hits == old(self)@.hits,
            final(self)@.misses == old(self)@.misses,
            final(self)@.total_stored == old(self)@.total_stored,
            final(self)@.current_size <= old(self)@.current_size,
            forall|x: StoreItem| final(self)@.entries.contains(x) ==> old(self)@.entries.contains(x),
            forall|q: int|
                0 <= q < old(self)@.entries.len() && !victim_ok(#[trigger] old(self)@.entries[q])
                ==> final(self)@.entries.contains(old(self)@.entries[q]),
            final(self)@.current_size <= max_size || forall|q: int|
                0 <= q < final(self)@.entries.len() ==> !victim_ok(#[trigger] final(self)@.entries[q]),
            final(self)@.total_evicted == old(self)@.total_evicted + (old(self)@.entries.len()
                - final(self)@.entries.len()),
            evicted_in_policy_order(
                old(self)@.policy,
                Option::None,
                old(self)@.entries,
                final(self)@.entries,
            ),
    {
        self.max_size = max_size;
        let _ = self.evict_to_size(max_size);
    }

    /// Discards every entry, pinned or not, and resets the charged size.
    /// Every discarded entry counts as evicted, so wholesale clearing shows
    /// up in the eviction statistics.
    pub fn clear(&mut self)
        requires
            old(self).wf(),
            old(self)@.total_evicted + old(self)@.entries.len() <= u64::MAX,
        ensures
            final(self).wf(),
            final(self)@ == (StoreView {
                entries: Seq::<StoreItem>::empty(),
                current_size: 0,
                total_evicted: old(self)@.total_evicted + old(self)@.entries.len(),
                ..old(self)@
            }),
    {
        let n = self.items.len();
        self.items.clear();
        self.current_size = 0;
        self.total_evicted = self.total_evicted + (n as u64);
        proof {
            assert(self@.entries =~= Seq::<StoreItem>::empty());
        }
    }
}

proof fn lemma_items_ok_drop_last(s: Seq<StoreItem>, next_id: int, clock: int)
    requires
        items_ok(s, next_id, clock),
        s.len() > 0,
    ensures
        items_ok(s.drop_last(), next_id, clock),
{
    let d = s.drop_last();
    assert forall|a: int| 0 <= a < d.len() implies item_ok(#[trigger] d[a], next_id, clock) by {
        assert(d[a] == s[a]);
    }
    assert forall|a: int, b: int|
        0 <= a < d.len() && 0 <= b < d.len() && a != b implies (#[trigger] d[a]).id
        != (#[trigger] d[b]).id by {
        assert(d[a] == s[a]);
        assert(d[b] == s[b]);
    }
    assert forall|a: int, b: int|
        0 <= a < b < d.len() implies (#[trigger] d[a]).id < (#[trigger] d[b]).id by {
        assert(d[a] == s[a]);
        assert(d[b] == s[b]);
    }
    assert forall|a: int, b: int|
        0 <= a < d.len() && 0 <= b < d.len() && a != b && (#[trigger] d[a]).key@.len()
        > 0 implies d[a].key@ != (#[trigger] d[b]).key@ by {
        assert(d[a] == s[a]);
        assert(d[b] == s[b]);
    }
}

/// What the age-based sweep keeps is well-formed, drawn from the original
/// entries, and no longer than them.
proof fn lemma_fresh_only_ok(s: Seq<StoreItem>, clk: int, age: u64, next_id: int, clock: int)
    requires
        items_ok(s, next_id, clock),
    ensures
        items_ok(fresh_only(s, clk, age), next_id, clock),
        forall|x: StoreItem| #[trigger] fresh_only(s, clk, age).contains(x) ==> s.contains(x),
        fresh_only(s, clk, age).len() <= s.len(),
    decreases s.len(),
{
    if s.len() > 0 {
        lemma_items_ok_drop_last(s, next_id, clock);
        lemma_fresh_only_ok(s.drop_last(), clk, age, next_id, clock);
        let f0 = fresh_only(s.drop_last(), clk, age);
        assert forall|x: StoreItem| s.drop_last().contains(x) implies s.contains(x) by {
            let w = choose|w: int| 0 <= w < s.len() - 1 && s.drop_last()[w] == x;
            assert(s[w] == x);
        }
        if stale(s.last(), clk, age) {
            assert(fresh_only(s, clk, age) == f0);
        } else {
            let f = f0.push(s.last());
            assert(fresh_only(s, clk, age) == f);
            assert forall|x: StoreItem| #[trigger] f.contains(x) implies s.contains(x) by {
                let w = choose|w: int| 0 <= w < f.len() && f[w] == x;
                if w == f.len() - 1 {
                    assert(s[s.len() - 1] == x);
                } else {
                    assert(f0[w] == x);
                    assert(f0.contains(x));
                }
            }
            assert forall|a: int|
                0 <= a < f.len() implies item_ok(#[trigger] f[a], next_id, clock) by {
                if a < f.len() - 1 {
                    assert(f[a] == f0[a]);
                } else {
                    assert(f[a] == s[s.len() - 1]);
                }
            }
            assert forall|a: int, b: int|
                0 <= a < f.len() && 0 <= b < f.len() && a != b implies (#[trigger] f[a]).id
                != (#[trigger] f[b]).id by {
                if a < f.len() - 1 && b < f.len() - 1 {
                    assert(f[a] == f0[a]);
                    assert(f[b] == f0[b]);
                } else if b == f.len() - 1 {
                    assert(f0.contains(f[a]));
                    assert(s.drop_last().contains(f[a]));
                    let w = choose|w: int| 0 <= w < s.len() - 1 && s.drop_last()[w] == f[a];
                    assert(s[w] == f[a]);
                    assert(f[b] == s[s.len() - 1]);
                } else {
                    assert(f0.contains(f[b]));
                    assert(s.drop_last().contains(f[b]));
                    let w = choose|w: int| 0 <= w < s.len() - 1 && s.drop_last()[w] == f[b];
                    assert(s[w] == f[b]);
                    assert(f[a] == s[s.len() - 1]);
                }
            }
            assert forall|a: int, b: int|
                0 <= a < b < f.len() implies (#[trigger] f[a]).id < (#[trigger] f[b]).id by {
                if b < f.len() - 1 {
                    assert(f[a] == f0[a]);
                    assert(f[b] == f0[b]);
                } else {
                    assert(f[a] == f0[a]);
                    assert(f0.contains(f[a]));
                    assert(s.drop_last().contains(f[a]));
                    let w = choose|w: int| 0 <= w < s.len() - 1 && s.drop_last()[w] == f[a];
                    assert(s[w] == f[a]);
                    assert(f[b] == s[s.len() - 1]);
                }
            }
            assert forall|a: int, b: int|
                0 <= a < f.len() && 0 <= b < f.len() && a != b && (#[trigger] f[a]).key@.len()
                > 0 implies f[a].key@ != (#[trigger] f[b]).key@ by {
                if a < f.len() - 1 && b < f.len() - 1 {
                    assert(f[a] == f0[a]);
                    assert(f[b] == f0[b]);
                } else if b == f.len() - 1 {
                    assert(f0.contains(f[a]));
                    assert(s.drop_last().contains(f[a]));
                    let w = choose|w: int| 0 <= w < s.len() - 1 && s.drop_last()[w] == f[a];
                    assert(s[w] == f[a]);
                    assert(f[b] == s[s.len() - 1]);
                } else {
                    assert(f0.contains(f[b]));
                    assert(s.drop_last().contains(f[b]));
                    let w = choose|w: int| 0 <= w < s.len() - 1 && s.drop_last()[w] == f[b];
                    assert(s[w] == f[b]);
                    assert(f[a] == s[s.len() - 1]);
                }
            }
        }
    }
}

impl Store {
    /// The budget invariant, as a law of every well-formed store: the bytes
    /// charged are exactly the sum of the live entries' sizes, and the
    /// per-kind charge is a part of that total, never more.
    pub proof fn lemma_budget_invariant(&self, t: StoreType)
        requires
            self.wf(),
        ensures
            self@.current_size == sum_sizes(self@.entries),
            0 <= kind_sum(self@.entries, t) <= self@.current_size,
    {
        lemma_kind_sum_le_sum(self@.entries, t);
    }

    /// Evicts unpinned, unreferenced entries of one kind, in policy order,
    /// until none of that kind's bytes remain charged; returns how many
    /// entries were evicted. Zero-size candidates of the kind may stay, as
    /// may anything pinned, referenced or of another kind.
    pub fn evict_kind(&mut self, t: StoreType) -> (n: usize)
        requires
            old(self).wf(),
            old(self)@.total_evicted + old(self)@.entries.len() <= u64::MAX,
        ensures
            final(self).wf(),
            final(self)@.max_size == old(self)@.max_size,
            final(self)@.clock == old(self)@.clock,
            final(self)@.current_size <= old(self)@.current_size,
            forall|x: StoreItem| final(self)@.entries.contains(x) ==> old(self)@.entries.contains(x),
            forall|q: int|
                0 <= q < old(self)@.entries.len()
                && !candidate(#[trigger] old(self)@.entries[q], Some(t))
                ==> final(self)@.entries.contains(old(self)@.entries[q]),
            kind_sum(final(self)@.entries, t) <= 0 || forall|q: int|
                0 <= q < final(self)@.entries.len()
                ==> !candidate(#[trigger] final(self)@.entries[q], Some(t)),
            n == old(self)@.entries.len() - final(self)@.entries.len(),
            final(self)@.total_evicted == old(self)@.total_evicted + n,
            evicted_in_policy_order(
                old(self)@.policy,
                Some(t),
                old(self)@.entries,
                final(self)@.entries,
            ),
    {
        self.evict_kind_to_size(t, 0)
    }

    /// Sweeps out every unpinned, unreferenced entry whose last access lies
    /// more than `max_age` clock ticks back; returns how many entries were
    /// evicted. Pinned and referenced entries survive whatever their age,
    /// and the surviving entries keep their order.
    pub fn evict_older_than(&mut self, max_age: u64) -> (n: usize)
        requires
            old(self).wf(),
            old(self)@.total_evicted + old(self)@.entries.len() <= u64::MAX,
        ensures
            final(self).wf(),
            final(self)@.entries == fresh_only(
                old(self)@.entries,
                old(self)@.clock,
                max_age,
            ),
            final(self)@.max_size == old(self)@.max_size,
            final(self)@.policy == old(self)@.policy,
            final(self)@.limits == old(self)@.limits,
            final(self)@.next_id == old(self)@.next_id,
            final(self)@.clock == old(self)@.clock,
            final(self)@.hits == old(self)@.hits,
            final(self)@.misses == old(self)@.misses,
            final(self)@.total_stored == old(self)@.total_stored,
            final(self)@.current_size <= old(self)@.current_size,
            n == old(self)@.entries.len() - final(self)@.entries.len(),
            final(self)@.total_evicted == old(self)@.total_evicted + n,
    {
        let ghost s0 = self@.entries;
        let ghost clk = self@.clock as int;
        proof {
            assert(self.items.len() == s0.len());
            assert(s0.subrange(0, 0) =~= Seq::<StoreItem>::empty());
        }
        let mut kept: Vec<StoreItem> = Vec::new();
        let mut freed: usize = 0;
        let mut removed: usize = 0;
        let ghost mut k: int = 0;
        while self.items.len() > 0
            invariant
                0 <= k <= s0.len(),
                s0.len() <= usize::MAX,
                self@.entries == s0.subrange(k, s0.len() as int),
                kept@ == fresh_only(s0.subrange(0, k), clk, max_age),
                removed == k - kept@.len(),
                freed == sum_sizes(s0.subrange(0, k)) - sum_sizes(kept@),
                0 <= sum_sizes(kept@),
                sum_sizes(s0.subrange(0, k)) <= sum_sizes(s0),
                items_ok(s0, self@.next_id, self@.clock),
                self@.current_size == sum_sizes(s0),
                self@.clock == clk,
                self@.max_size == old(self)@.max_size,
                self@.policy == old(self)@.policy,
                self@.limits == old(self)@.limits,
                self@.next_id == old(self)@.next_id,
                self@.hits == old(self)@.hits,
                self@.misses == old(self)@.misses,
                self@.total_stored == old(self)@.total_stored,
                self@.total_evicted == old(self)@.total_evicted,
                s0 == old(self)@.entries,
            decreases self@.entries.len(),
        {
            proof {
                assert(s0.subrange(k, s0.len() as int).len() > 0);
                assert(s0.subrange(k, s0.len() as int)[0] == s0[k]);
                assert(item_ok(s0[k], self@.next_id, self@.clock));
            }
            let it = self.items.remove(0);
            proof {
                assert(it == s0[k]);
                assert(s0.subrange(k, s0.len() as int).remove(0) =~= s0.subrange(
                    k + 1,
                    s0.len() as int,
                ));
                assert(s0.subrange(0, k + 1).drop_last() =~= s0.subrange(0, k));
                assert(s0.subrange(0, k + 1).last() == s0[k]);
                lemma_sum_prefix_le(s0, k + 1);
            }
            let is_stale = it.evictable && it.refs <= 1 && self.clock - it.last_access > max_age;
            if is_stale {
                proof {
                    lemma_sum_nonneg(kept@);
                }
                freed = freed + it.size;
                removed = removed + 1;
            } else {
                proof {
                    lemma_sum_push(kept@, it);
                }
                kept.push(it);
            }
            proof {
                k = k + 1;
            }
        }
        proof {
            assert(s0.subrange(k, s0.len() as int).len() == 0);
            assert(k == s0.len());
            assert(s0.subrange(0, k) =~= s0);
            lemma_sum_nonneg(kept@);
            lemma_fresh_only_ok(s0, clk, max_age, self@.next_id, self@.clock);
        }
        self.items = kept;
        self.current_size = self.current_size - freed;
        self.total_evicted = self.total_evicted + (removed as u64);
        removed
    }
}

} // verus!
