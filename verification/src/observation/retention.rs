//! Bounded retention of observation evidence: per resource, the evidence
//! records accepted for it in retention order, at most a fixed number of
//! them, never dropping the resource's current evidence; across resources,
//! at most a fixed number of resources, evicting the least recently seen.
//! Retention order is a process-local counter that only grows, even when
//! the realtime clock moves backwards. The graph nodes of what is evicted
//! are removed by the caller.
use vstd::prelude::*;
use crate::text::{chars_eq, chars_of, string_of};

verus! {

/// Evidence records retained per resource unless configured otherwise.
pub const DEFAULT_OBSERVATION_HISTORY_PER_RESOURCE: usize = 64;

/// Resources retained unless configured otherwise.
pub const DEFAULT_OBSERVED_RESOURCE_LIMIT: usize = 4096;

/// Why a retention configuration or order allocation was refused.
#[derive(Clone, Copy, Debug, PartialEq, Eq, Structural)]
pub enum RetentionError {
    InvalidHistoryLimit { max_evidence_per_resource: usize },
    InvalidResourceLimit { max_resources: usize },
    RetentionOrderExhausted,
}

/// A retained history: `(retention order, evidence id)` in retention order.
/// Orders strictly increase, ids are distinct, and no order exceeds `top`.
pub open spec fn history_ok(h: Seq<(u64, Seq<char>)>, top: u64) -> bool {
    &&& forall|a: int, b: int| 0 <= a < b < h.len() ==> #[trigger] h[a].0 < #[trigger] h[b].0
    &&& forall|a: int, b: int| 0 <= a < b < h.len() ==> #[trigger] h[a].1 != #[trigger] h[b].1
    &&& forall|a: int| 0 <= a < h.len() ==> #[trigger] h[a].0 <= top
}

/// The number of entries of `h` that are not the current evidence.
pub open spec fn non_current(h: Seq<(u64, Seq<char>)>, current: Option<Seq<char>>) -> nat
    decreases h.len(),
{
    if h.len() == 0 {
        0
    } else {
        non_current(h.skip(1), current) + if current == Some(h[0].1) { 0nat } else { 1nat }
    }
}

/// `h` without its `k` oldest entries other than the current evidence.
pub open spec fn drop_oldest(h: Seq<(u64, Seq<char>)>, current: Option<Seq<char>>, k: nat) -> Seq<(u64, Seq<char>)>
    decreases h.len(),
{
    if h.len() == 0 || k == 0 {
        h
    } else if current == Some(h[0].1) {
        seq![h[0]] + drop_oldest(h.skip(1), current, k)
    } else {
        drop_oldest(h.skip(1), current, (k - 1) as nat)
    }
}

/// The entries that [`drop_oldest`] drops, oldest first.
pub open spec fn dropped(h: Seq<(u64, Seq<char>)>, current: Option<Seq<char>>, k: nat) -> Seq<(u64, Seq<char>)>
    decreases h.len(),
{
    if h.len() == 0 || k == 0 {
        seq![]
    } else if current == Some(h[0].1) {
        dropped(h.skip(1), current, k)
    } else {
        seq![h[0]] + dropped(h.skip(1), current, (k - 1) as nat)
    }
}

/// `h` holds evidence `id`.
pub open spec fn has_evidence(h: Seq<(u64, Seq<char>)>, id: Seq<char>) -> bool {
    exists|a: int| 0 <= a < h.len() && (#[trigger] h[a]).1 == id
}

/// `h` with evidence `id` appended at `order`, unless it is retained already.
pub open spec fn admitted(h: Seq<(u64, Seq<char>)>, order: u64, id: Seq<char>) -> Seq<(u64, Seq<char>)> {
    if has_evidence(h, id) {
        h
    } else {
        h.push((order, id))
    }
}

/// How many entries `h` holds beyond `max`.
pub open spec fn excess(h: Seq<(u64, Seq<char>)>, max: nat) -> nat {
    if h.len() > max {
        (h.len() - max) as nat
    } else {
        0
    }
}

/// The history of a resource after evidence `id` is retained at `order`:
/// it is admitted, then the oldest entries other than the current evidence
/// are dropped until at most `max` remain.
pub open spec fn retained_history(h: Seq<(u64, Seq<char>)>, order: u64, id: Seq<char>, current: Option<Seq<char>>, max: nat) -> Seq<(u64, Seq<char>)> {
    drop_oldest(admitted(h, order, id), current, excess(admitted(h, order, id), max))
}

/// The entries evicted from that history.
pub open spec fn evicted_history(h: Seq<(u64, Seq<char>)>, order: u64, id: Seq<char>, current: Option<Seq<char>>, max: nat) -> Seq<(u64, Seq<char>)> {
    dropped(admitted(h, order, id), current, excess(admitted(h, order, id), max))
}

pub proof fn lemma_drop_lengths(h: Seq<(u64, Seq<char>)>, current: Option<Seq<char>>, k: nat)
    ensures
        drop_oldest(h, current, k).len() + dropped(h, current, k).len() == h.len(),
        dropped(h, current, k).len() == if k <= non_current(h, current) { k } else { non_current(h, current) },
    decreases h.len(),
{
    if h.len() == 0 || k == 0 {
    } else if current == Some(h[0].1) {
        lemma_drop_lengths(h.skip(1), current, k);
    } else {
        lemma_drop_lengths(h.skip(1), current, (k - 1) as nat);
    }
}

/// Without the current evidence in `h`, every entry counts.
proof fn lemma_non_current_all(h: Seq<(u64, Seq<char>)>, current: Option<Seq<char>>)
    requires
        forall|a: int| 0 <= a < h.len() ==> current != Some(#[trigger] h[a].1),
    ensures
        non_current(h, current) == h.len(),
    decreases h.len(),
{
    if h.len() > 0 {
        assert forall|a: int| 0 <= a < h.skip(1).len() implies current != Some(#[trigger] h.skip(1)[a].1) by {
            assert(h.skip(1)[a] == h[a + 1]);
        }
        lemma_non_current_all(h.skip(1), current);
    }
}

/// With distinct ids, at most one entry is the current evidence.
pub proof fn lemma_non_current_bound(h: Seq<(u64, Seq<char>)>, current: Option<Seq<char>>)
    requires
        forall|a: int, b: int| 0 <= a < b < h.len() ==> #[trigger] h[a].1 != #[trigger] h[b].1,
    ensures
        non_current(h, current) + 1 >= h.len(),
        non_current(h, current) <= h.len(),
    decreases h.len(),
{
    if h.len() > 0 {
        let t = h.skip(1);
        assert forall|a: int, b: int| 0 <= a < b < t.len() implies #[trigger] t[a].1 != #[trigger] t[b].1 by {
            assert(t[a] == h[a + 1]);
            assert(t[b] == h[b + 1]);
        }
        lemma_non_current_bound(t, current);
        if current == Some(h[0].1) {
            assert forall|a: int| 0 <= a < t.len() implies current != Some(#[trigger] t[a].1) by {
                assert(t[a] == h[a + 1]);
            }
            lemma_non_current_all(t, current);
        }
    }
}

/// Every kept or dropped entry is an entry of `h`.
pub proof fn lemma_drop_entries(h: Seq<(u64, Seq<char>)>, current: Option<Seq<char>>, k: nat)
    ensures
        forall|x: (u64, Seq<char>)| drop_oldest(h, current, k).contains(x) ==> h.contains(x),
        forall|x: (u64, Seq<char>)| dropped(h, current, k).contains(x) ==> h.contains(x),
    decreases h.len(),
{
    if h.len() == 0 || k == 0 {
    } else {
        let t = h.skip(1);
        let k2: nat = if current == Some(h[0].1) { k } else { (k - 1) as nat };
        lemma_drop_entries(t, current, k2);
        assert forall|x: (u64, Seq<char>)| t.contains(x) implies h.contains(x) by {
            let a = choose|a: int| 0 <= a < t.len() && t[a] == x;
            assert(h[a + 1] == x);
        }
        assert(h.contains(h[0]));
        if current == Some(h[0].1) {
            assert forall|x: (u64, Seq<char>)| drop_oldest(h, current, k).contains(x) implies h.contains(x) by {
                let r = drop_oldest(t, current, k);
                let a = choose|a: int| 0 <= a < (seq![h[0]] + r).len() && (seq![h[0]] + r)[a] == x;
                if a > 0 {
                    assert(r[a - 1] == x);
                    assert(r.contains(x));
                }
            }
        } else {
            assert forall|x: (u64, Seq<char>)| dropped(h, current, k).contains(x) implies h.contains(x) by {
                let r = dropped(t, current, k2);
                let a = choose|a: int| 0 <= a < (seq![h[0]] + r).len() && (seq![h[0]] + r)[a] == x;
                if a > 0 {
                    assert(r[a - 1] == x);
                    assert(r.contains(x));
                }
            }
        }
    }
}

/// Dropping entries keeps a history well formed.
pub proof fn lemma_drop_ok(h: Seq<(u64, Seq<char>)>, current: Option<Seq<char>>, k: nat, top: u64)
    requires
        history_ok(h, top),
    ensures
        history_ok(drop_oldest(h, current, k), top),
    decreases h.len(),
{
    if h.len() == 0 || k == 0 {
    } else {
        let t = h.skip(1);
        assert(history_ok(t, top)) by {
            assert forall|a: int, b: int| 0 <= a < b < t.len() implies #[trigger] t[a].0 < #[trigger] t[b].0 by {
                assert(t[a] == h[a + 1] && t[b] == h[b + 1]);
            }
            assert forall|a: int, b: int| 0 <= a < b < t.len() implies #[trigger] t[a].1 != #[trigger] t[b].1 by {
                assert(t[a] == h[a + 1] && t[b] == h[b + 1]);
            }
            assert forall|a: int| 0 <= a < t.len() implies #[trigger] t[a].0 <= top by {
                assert(t[a] == h[a + 1]);
            }
        }
        if current == Some(h[0].1) {
            let r = drop_oldest(t, current, k);
            lemma_drop_ok(t, current, k, top);
            lemma_drop_entries(t, current, k);
            let s = seq![h[0]] + r;
            assert forall|b: int| 0 <= b < r.len() implies h[0].0 < (#[trigger] r[b]).0 && h[0].1 != r[b].1 by {
                assert(r.contains(r[b]));
                assert(t.contains(r[b]));
                let a = choose|a: int| 0 <= a < t.len() && t[a] == r[b];
                assert(t[a] == h[a + 1]);
            }
            assert forall|a: int, b: int| 0 <= a < b < s.len() implies #[trigger] s[a].0 < #[trigger] s[b].0 by {
                assert(s[b] == r[b - 1]);
                if a > 0 {
                    assert(s[a] == r[a - 1]);
                }
            }
            assert forall|a: int, b: int| 0 <= a < b < s.len() implies #[trigger] s[a].1 != #[trigger] s[b].1 by {
                assert(s[b] == r[b - 1]);
                if a > 0 {
                    assert(s[a] == r[a - 1]);
                }
            }
            assert forall|a: int| 0 <= a < s.len() implies #[trigger] s[a].0 <= top by {
                if a > 0 {
                    assert(s[a] == r[a - 1]);
                }
            }
        } else {
            lemma_drop_ok(t, current, (k - 1) as nat, top);
        }
    }
}

/// The current evidence is never dropped.
pub proof fn law_current_evidence_kept(h: Seq<(u64, Seq<char>)>, current: Seq<char>, k: nat)
    requires
        has_evidence(h, current),
    ensures
        has_evidence(drop_oldest(h, Some(current), k), current),
    decreases h.len(),
{
    if h.len() == 0 || k == 0 {
    } else {
        let t = h.skip(1);
        let r = if Some(current) == Some(h[0].1) { drop_oldest(t, Some(current), k) } else { drop_oldest(t, Some(current), (k - 1) as nat) };
        if h[0].1 == current {
            assert((seq![h[0]] + r)[0] == h[0]);
        } else {
            let a = choose|a: int| 0 <= a < h.len() && (#[trigger] h[a]).1 == current;
            assert(a > 0);
            assert(t[a - 1] == h[a]);
            law_current_evidence_kept(t, current, (k - 1) as nat);
        }
    }
}

/// Eviction is oldest first: every dropped entry is older than every kept
/// entry other than the current evidence.
pub proof fn law_oldest_evicted_first(h: Seq<(u64, Seq<char>)>, current: Option<Seq<char>>, k: nat, top: u64)
    requires
        history_ok(h, top),
    ensures
        forall|d: int, x: int|
            0 <= d < dropped(h, current, k).len() && 0 <= x < drop_oldest(h, current, k).len()
                && current != Some(drop_oldest(h, current, k)[x].1) ==> #[trigger] dropped(h, current, k)[d].0
                < #[trigger] drop_oldest(h, current, k)[x].0,
    decreases h.len(),
{
    if h.len() == 0 || k == 0 {
    } else {
        let t = h.skip(1);
        assert(history_ok(t, top)) by {
            assert forall|a: int, b: int| 0 <= a < b < t.len() implies #[trigger] t[a].0 < #[trigger] t[b].0 by {
                assert(t[a] == h[a + 1] && t[b] == h[b + 1]);
            }
            assert forall|a: int, b: int| 0 <= a < b < t.len() implies #[trigger] t[a].1 != #[trigger] t[b].1 by {
                assert(t[a] == h[a + 1] && t[b] == h[b + 1]);
            }
            assert forall|a: int| 0 <= a < t.len() implies #[trigger] t[a].0 <= top by {
                assert(t[a] == h[a + 1]);
            }
        }
        if current == Some(h[0].1) {
            law_oldest_evicted_first(t, current, k, top);
            let r = drop_oldest(t, current, k);
            let dd = dropped(t, current, k);
            assert forall|d: int, x: int|
                0 <= d < dd.len() && 0 <= x < (seq![h[0]] + r).len() && current != Some((seq![h[0]] + r)[x].1)
                implies #[trigger] dd[d].0 < #[trigger] (seq![h[0]] + r)[x].0 by {
                assert(x > 0);
                assert((seq![h[0]] + r)[x] == r[x - 1]);
            }
        } else {
            let k2 = (k - 1) as nat;
            law_oldest_evicted_first(t, current, k2, top);
            lemma_drop_entries(t, current, k2);
            let r = drop_oldest(t, current, k2);
            let dd = seq![h[0]] + dropped(t, current, k2);
            assert forall|d: int, x: int|
                0 <= d < dd.len() && 0 <= x < r.len() && current != Some(r[x].1)
                implies #[trigger] dd[d].0 < #[trigger] r[x].0 by {
                if d == 0 {
                    assert(r.contains(r[x]));
                    assert(t.contains(r[x]));
                    let a = choose|a: int| 0 <= a < t.len() && t[a] == r[x];
                    assert(t[a] == h[a + 1]);
                } else {
                    assert(dd[d] == dropped(t, current, k2)[d - 1]);
                }
            }
        }
    }
}


/// The ids of a history's entries, in order.
pub open spec fn ids_of(h: Seq<(u64, Seq<char>)>) -> Seq<Seq<char>> {
    h.map_values(|e: (u64, Seq<char>)| e.1)
}

pub open spec fn string_views(v: Seq<String>) -> Seq<Seq<char>> {
    v.map_values(|s: String| s@)
}

/// One retained evidence record: its retention order and its evidence id.
#[derive(Debug)]
pub struct RetainedEvidence {
    pub order: u64,
    pub evidence_id: String,
}

pub open spec fn evidence_views(v: Seq<RetainedEvidence>) -> Seq<(u64, Seq<char>)> {
    v.map_values(|e: RetainedEvidence| (e.order, e.evidence_id@))
}

/// The retained evidence of one resource, and the retention order at which
/// it was last observed.
#[derive(Debug)]
struct RetainedResource {
    resource: String,
    last_seen: u64,
    history: Vec<RetainedEvidence>,
}

/// What is retained for one resource.
pub struct ResourceView {
    pub resource: Seq<char>,
    pub last_seen: u64,
    pub history: Seq<(u64, Seq<char>)>,
}

spec fn resource_view(r: RetainedResource) -> ResourceView {
    ResourceView { resource: r.resource@, last_seen: r.last_seen, history: evidence_views(r.history@) }
}

spec fn resource_views(v: Seq<RetainedResource>) -> Seq<ResourceView> {
    v.map_values(|r: RetainedResource| resource_view(r))
}

/// Retained resources: at most `max_resources`, with distinct names and
/// distinct last-seen orders, each with a well-formed history of at most
/// `max_evidence` entries; no order exceeds `top`.
pub open spec fn retention_ok(rs: Seq<ResourceView>, top: u64, max_resources: nat, max_evidence: nat) -> bool {
    &&& rs.len() <= max_resources
    &&& forall|i: int, j: int| #![trigger rs[i], rs[j]] 0 <= i < j < rs.len() ==> rs[i].resource != rs[j].resource
    &&& forall|i: int, j: int| #![trigger rs[i], rs[j]] 0 <= i < j < rs.len() ==> rs[i].last_seen != rs[j].last_seen
    &&& forall|i: int| #![trigger rs[i]] 0 <= i < rs.len() ==> rs[i].last_seen <= top && history_ok(rs[i].history, top)
        && rs[i].history.len() <= max_evidence
}

/// The limits hold: at most `max_resources` resources, and at most
/// `max_evidence` evidence records for each.
pub open spec fn within_limits(rs: Seq<ResourceView>, max_resources: nat, max_evidence: nat) -> bool {
    rs.len() <= max_resources && forall|i: int| 0 <= i < rs.len() ==> (#[trigger] rs[i]).history.len() <= max_evidence
}

pub open spec fn opt_view(o: Option<&str>) -> Option<Seq<char>> {
    match o {
        Some(s) => Some(s@),
        None => None,
    }
}

/// The position of the resource named `name`.
pub open spec fn find_resource(rs: Seq<ResourceView>, name: Seq<char>) -> Option<int> {
    if exists|i: int| 0 <= i < rs.len() && (#[trigger] rs[i]).resource == name {
        Some(choose|i: int| 0 <= i < rs.len() && (#[trigger] rs[i]).resource == name)
    } else {
        None
    }
}

/// The history retained for `name` so far.
pub open spec fn prior_history(rs: Seq<ResourceView>, name: Seq<char>) -> Seq<(u64, Seq<char>)> {
    match find_resource(rs, name) {
        Some(i) => rs[i].history,
        None => seq![],
    }
}

/// The resources after evidence `id` of `name` is retained at `order`: the
/// resource is last seen at `order` and its history is bounded; a new
/// resource is appended.
pub open spec fn touched(rs: Seq<ResourceView>, name: Seq<char>, order: u64, id: Seq<char>, current: Option<Seq<char>>, max_evidence: nat) -> Seq<ResourceView> {
    let v = ResourceView { resource: name, last_seen: order, history: retained_history(prior_history(rs, name), order, id, current, max_evidence) };
    match find_resource(rs, name) {
        Some(i) => rs.update(i, v),
        None => rs.push(v),
    }
}

/// Resource `j` is the least recently seen.
pub open spec fn least_recent(rs: Seq<ResourceView>, j: int) -> bool {
    0 <= j < rs.len() && forall|i: int| 0 <= i < rs.len() && i != j ==> rs[j].last_seen < (#[trigger] rs[i]).last_seen
}

/// What one retention evicted: evidence dropped from the observed
/// resource's history, and the least recently seen resource with all its
/// evidence when there were too many resources.
#[derive(Debug)]
pub struct RetentionOutcome {
    pub evicted_evidence: Vec<String>,
    pub evicted_resource: Option<(String, Vec<String>)>,
}

/// Bounded evidence retention for observed resources.
#[derive(Debug)]
pub struct ObservationRetention {
    resources: Vec<RetainedResource>,
    max_evidence_per_resource: usize,
    max_resources: usize,
    retention_order: u64,
}

impl View for ObservationRetention {
    type V = Seq<ResourceView>;

    closed spec fn view(&self) -> Seq<ResourceView> {
        resource_views(self.resources@)
    }
}

proof fn lemma_find_resource(rs: Seq<ResourceView>, name: Seq<char>, i: int)
    requires
        forall|a: int, b: int| #![trigger rs[a], rs[b]] 0 <= a < b < rs.len() ==> rs[a].resource != rs[b].resource,
        0 <= i < rs.len(),
        rs[i].resource == name,
    ensures
        find_resource(rs, name) == Some(i),
{
    assert(rs[i].resource == name);
    let c = choose|c: int| 0 <= c < rs.len() && (#[trigger] rs[c]).resource == name;
    if c < i {
        assert(rs[c].resource != rs[i].resource);
    } else if c > i {
        assert(rs[i].resource != rs[c].resource);
    }
}

impl ObservationRetention {
    pub closed spec fn spec_max_evidence(&self) -> nat {
        self.max_evidence_per_resource as nat
    }

    pub closed spec fn spec_max_resources(&self) -> nat {
        self.max_resources as nat
    }

    /// The last retention order handed out.
    pub closed spec fn spec_order(&self) -> u64 {
        self.retention_order
    }

    #[verifier::type_invariant]
    spec fn inv(&self) -> bool {
        &&& 1 <= self.max_resources
        &&& 1 <= self.max_evidence_per_resource
        &&& retention_ok(self@, self.retention_order, self.max_resources as nat, self.max_evidence_per_resource as nat)
    }

    /// The last order handed out is not yet used by any retained record.
    pub open spec fn spec_fresh(&self) -> bool {
        forall|i: int| #![trigger self@[i]] 0 <= i < self@.len() ==> self@[i].last_seen < self.spec_order()
            && forall|a: int| 0 <= a < self@[i].history.len() ==> (#[trigger] self@[i].history[a]).0 < self.spec_order()
    }

    /// Retention with the given limits; both must be positive.
    pub fn with_limits(max_resources: usize, max_evidence_per_resource: usize) -> (r: Result<Self, RetentionError>)
        ensures
            max_resources == 0 ==> r == Err::<Self, RetentionError>(RetentionError::InvalidResourceLimit { max_resources }),
            max_resources != 0 && max_evidence_per_resource == 0 ==> r == Err::<Self, RetentionError>(
                RetentionError::InvalidHistoryLimit { max_evidence_per_resource },
            ),
            max_resources != 0 && max_evidence_per_resource != 0 ==> (r matches Ok(s) && s@ == Seq::<ResourceView>::empty()
                && s.spec_max_resources() == max_resources && s.spec_max_evidence() == max_evidence_per_resource
                && s.spec_order() == 0),
    {
        if max_resources == 0 {
            return Err(RetentionError::InvalidResourceLimit { max_resources });
        }
        if max_evidence_per_resource == 0 {
            return Err(RetentionError::InvalidHistoryLimit { max_evidence_per_resource });
        }
        let r = ObservationRetention { resources: Vec::new(), max_evidence_per_resource, max_resources, retention_order: 0 };
        assert(r@ =~= Seq::<ResourceView>::empty());
        Ok(r)
    }

    /// Retention with the default limits.
    pub fn new() -> (r: Self)
        ensures
            r@ == Seq::<ResourceView>::empty(),
            r.spec_max_resources() == DEFAULT_OBSERVED_RESOURCE_LIMIT,
            r.spec_max_evidence() == DEFAULT_OBSERVATION_HISTORY_PER_RESOURCE,
            r.spec_order() == 0,
    {
        let r = ObservationRetention {
            resources: Vec::new(),
            max_evidence_per_resource: DEFAULT_OBSERVATION_HISTORY_PER_RESOURCE,
            max_resources: DEFAULT_OBSERVED_RESOURCE_LIMIT,
            retention_order: 0,
        };
        assert(r@ =~= Seq::<ResourceView>::empty());
        r
    }

    /// Retention with the default resource limit and the given history limit.
    pub fn with_history_limit(max_evidence_per_resource: usize) -> (r: Result<Self, RetentionError>)
        ensures
            max_evidence_per_resource == 0 ==> r == Err::<Self, RetentionError>(
                RetentionError::InvalidHistoryLimit { max_evidence_per_resource },
            ),
            max_evidence_per_resource != 0 ==> (r matches Ok(s) && s@ == Seq::<ResourceView>::empty()
                && s.spec_max_resources() == DEFAULT_OBSERVED_RESOURCE_LIMIT
                && s.spec_max_evidence() == max_evidence_per_resource && s.spec_order() == 0),
    {
        Self::with_limits(DEFAULT_OBSERVED_RESOURCE_LIMIT, max_evidence_per_resource)
    }

    /// Hands out the next retention order. It fails, changing nothing, only
    /// when the counter is exhausted.
    pub fn next_order(&mut self) -> (r: Result<u64, RetentionError>)
        ensures
            final(self)@ == old(self)@,
            final(self).spec_max_resources() == old(self).spec_max_resources(),
            final(self).spec_max_evidence() == old(self).spec_max_evidence(),
            old(self).spec_order() == u64::MAX ==> r == Err::<u64, RetentionError>(RetentionError::RetentionOrderExhausted)
                && final(self).spec_order() == old(self).spec_order(),
            old(self).spec_order() < u64::MAX ==> r == Ok::<u64, RetentionError>((old(self).spec_order() + 1) as u64)
                && final(self).spec_order() == old(self).spec_order() + 1 && final(self).spec_fresh(),
    {
        proof {
            use_type_invariant(&*self);
        }
        if self.retention_order == u64::MAX {
            return Err(RetentionError::RetentionOrderExhausted);
        }
        self.retention_order = self.retention_order + 1;
        Ok(self.retention_order)
    }

    /// The number of retained resources.
    pub fn resource_count(&self) -> (r: usize)
        ensures
            r == self@.len(),
    {
        self.resources.len()
    }

    /// Whether evidence `evidence_id` of `resource` is retained.
    pub fn contains_evidence(&self, resource: &str, evidence_id: &str) -> (r: bool)
        ensures
            r == exists|i: int| 0 <= i < self@.len() && (#[trigger] self@[i]).resource == resource@
                && has_evidence(self@[i].history, evidence_id@),
    {
        let name = chars_of(resource);
        let key = chars_of(evidence_id);
        let mut i: usize = 0;
        while i < self.resources.len()
            invariant
                i <= self.resources@.len(),
                name@ == resource@,
                key@ == evidence_id@,
                forall|p: int| 0 <= p < i ==> !((#[trigger] self@[p]).resource == resource@ && has_evidence(self@[p].history, evidence_id@)),
            decreases self.resources@.len() - i,
        {
            let r = &self.resources[i];
            assert(self@[i as int] == resource_view(*r));
            if chars_eq(&chars_of(r.resource.as_str()), &name) {
                let mut a: usize = 0;
                while a < r.history.len()
                    invariant
                        a <= r.history@.len(),
                        key@ == evidence_id@,
                        i < self@.len(),
                        self@[i as int] == resource_view(*r),
                        self@[i as int].resource == resource@,
                        forall|q: int| 0 <= q < a ==> (#[trigger] evidence_views(r.history@)[q]).1 != evidence_id@,
                    decreases r.history@.len() - a,
                {
                    if chars_eq(&chars_of(r.history[a].evidence_id.as_str()), &key) {
                        assert(evidence_views(r.history@)[a as int].1 == evidence_id@);
                        return true;
                    }
                    a = a + 1;
                }
            }
            i = i + 1;
        }
        false
    }
}


fn copy_evidence(e: &RetainedEvidence) -> (r: RetainedEvidence)
    ensures
        r.order == e.order,
        r.evidence_id@ == e.evidence_id@,
{
    RetainedEvidence { order: e.order, evidence_id: string_of(&chars_of(e.evidence_id.as_str())) }
}

proof fn lemma_drop_step(a: Seq<(u64, Seq<char>)>, j: int, current: Option<Seq<char>>, k: nat)
    requires
        0 <= j < a.len(),
    ensures
        a.skip(j).skip(1) == a.skip(j + 1),
        k == 0 ==> drop_oldest(a.skip(j), current, k) == seq![a[j]] + drop_oldest(a.skip(j + 1), current, k),
        k == 0 ==> dropped(a.skip(j), current, k) == dropped(a.skip(j + 1), current, k),
        k > 0 && current == Some(a[j].1) ==> drop_oldest(a.skip(j), current, k) == seq![a[j]] + drop_oldest(a.skip(j + 1), current, k),
        k > 0 && current == Some(a[j].1) ==> dropped(a.skip(j), current, k) == dropped(a.skip(j + 1), current, k),
        k > 0 && current != Some(a[j].1) ==> drop_oldest(a.skip(j), current, k) == drop_oldest(a.skip(j + 1), current, (k - 1) as nat),
        k > 0 && current != Some(a[j].1) ==> dropped(a.skip(j), current, k) == seq![a[j]] + dropped(a.skip(j + 1), current, (k - 1) as nat),
{
    assert(a.skip(j).skip(1) =~= a.skip(j + 1));
    assert(a.skip(j)[0] == a[j]);
    if k == 0 {
        assert(a.skip(j) =~= seq![a[j]] + a.skip(j + 1));
        assert(drop_oldest(a.skip(j + 1), current, k) == a.skip(j + 1));
    }
}

/// Admits evidence `evidence_id` at `order` into `history` and drops the
/// oldest entries other than the current evidence beyond `max`.
fn bound_history(history: Vec<RetainedEvidence>, order: u64, evidence_id: &str, current: Option<&str>, max: usize)
    -> (r: (Vec<RetainedEvidence>, Vec<String>))
    requires
        history_ok(evidence_views(history@), order),
        forall|a: int| 0 <= a < history@.len() ==> (#[trigger] history@[a]).order < order,
        1 <= max,
        history@.len() <= max,
    ensures
        evidence_views(r.0@) == retained_history(evidence_views(history@), order, evidence_id@, opt_view(current), max as nat),
        string_views(r.1@) == ids_of(evicted_history(evidence_views(history@), order, evidence_id@, opt_view(current), max as nat)),
        history_ok(evidence_views(r.0@), order),
        r.0@.len() <= max,
{
    let ghost h0 = evidence_views(history@);
    let mut h = history;
    let key = chars_of(evidence_id);
    let mut present = false;
    let mut i: usize = 0;
    while i < h.len()
        invariant
            i <= h@.len(),
            key@ == evidence_id@,
            h0 == evidence_views(h@),
            !present ==> forall|a: int| 0 <= a < i ==> (#[trigger] h0[a]).1 != evidence_id@,
            present ==> has_evidence(h0, evidence_id@),
        decreases h@.len() - i,
    {
        if chars_eq(&chars_of(h[i].evidence_id.as_str()), &key) {
            assert(h0[i as int].1 == evidence_id@);
            present = true;
        }
        i = i + 1;
    }
    if !present {
        h.push(RetainedEvidence { order, evidence_id: string_of(&key) });
        assert(evidence_views(h@) =~= h0.push((order, evidence_id@)));
    }
    let ghost a = evidence_views(h@);
    let ghost c = opt_view(current);
    assert(a == admitted(h0, order, evidence_id@));
    assert(history_ok(a, order)) by {
        if !present {
            assert forall|x: int, y: int| 0 <= x < y < a.len() implies #[trigger] a[x].0 < #[trigger] a[y].0 by {
                if y == a.len() - 1 {
                    assert(h@[x].order < order);
                }
            }
            assert forall|x: int, y: int| 0 <= x < y < a.len() implies #[trigger] a[x].1 != #[trigger] a[y].1 by {
                if y == a.len() - 1 {
                    assert(h0[x].1 != evidence_id@);
                }
            }
        }
    }
    let n = h.len();
    let k: usize = if n > max { n - max } else { 0 };
    assert(k as nat == excess(a, max as nat));
    let cur: Option<Vec<char>> = match current {
        Some(x) => Some(chars_of(x)),
        None => None,
    };
    let mut kept: Vec<RetainedEvidence> = Vec::new();
    let mut evicted: Vec<String> = Vec::new();
    let mut removed: usize = 0;
    let mut j: usize = 0;
    assert(a.skip(0) =~= a);
    while j < n
        invariant
            n == h@.len(),
            a == evidence_views(h@),
            j <= n,
            removed <= k,
            c == opt_view(current),
            match cur {
                Some(v) => c == Some(v@),
                None => c is None,
            },
            drop_oldest(a, c, k as nat) == evidence_views(kept@) + drop_oldest(a.skip(j as int), c, (k - removed) as nat),
            ids_of(dropped(a, c, k as nat)) == string_views(evicted@) + ids_of(dropped(a.skip(j as int), c, (k - removed) as nat)),
        decreases n - j,
    {
        let e = copy_evidence(&h[j]);
        assert(a[j as int] == (e.order, e.evidence_id@));
        let is_current = match &cur {
            Some(v) => chars_eq(&chars_of(e.evidence_id.as_str()), v),
            None => false,
        };
        assert(is_current == (c == Some(a[j as int].1)));
        proof {
            lemma_drop_step(a, j as int, c, (k - removed) as nat);
        }
        if removed < k && !is_current {
            let ghost before = evicted@;
            let id = e.evidence_id;
            evicted.push(id);
            assert(string_views(evicted@) =~= string_views(before).push(a[j as int].1));
            assert(ids_of(seq![a[j as int]] + dropped(a.skip(j as int + 1), c, (k - removed - 1) as nat)) =~= seq![a[j as int].1]
                + ids_of(dropped(a.skip(j as int + 1), c, (k - removed - 1) as nat)));
            removed = removed + 1;
        } else {
            let ghost before = kept@;
            kept.push(e);
            assert(evidence_views(kept@) =~= evidence_views(before).push(a[j as int]));
        }
        j = j + 1;
    }
    proof {
        assert(a.skip(n as int) =~= Seq::<(u64, Seq<char>)>::empty());
        assert(evidence_views(kept@) =~= drop_oldest(a, c, k as nat));
        assert(string_views(evicted@) =~= ids_of(dropped(a, c, k as nat)));
        lemma_drop_ok(a, c, k as nat, order);
        lemma_drop_lengths(a, c, k as nat);
        lemma_non_current_bound(a, c);
    }
    (kept, evicted)
}


fn find_index(rs: &Vec<RetainedResource>, name: &str) -> (r: Option<usize>)
    ensures
        match r {
            Some(i) => i < rs@.len() && resource_views(rs@)[i as int].resource == name@,
            None => forall|i: int| 0 <= i < rs@.len() ==> (#[trigger] resource_views(rs@)[i]).resource != name@,
        },
{
    let key = chars_of(name);
    let mut i: usize = 0;
    while i < rs.len()
        invariant
            i <= rs@.len(),
            key@ == name@,
            forall|p: int| 0 <= p < i ==> (#[trigger] resource_views(rs@)[p]).resource != name@,
        decreases rs@.len() - i,
    {
        if chars_eq(&chars_of(rs[i].resource.as_str()), &key) {
            return Some(i);
        }
        i = i + 1;
    }
    None
}

fn least_recent_index(rs: &Vec<RetainedResource>) -> (j: usize)
    requires
        rs@.len() > 0,
        forall|a: int, b: int| #![trigger resource_views(rs@)[a], resource_views(rs@)[b]]
            0 <= a < b < rs@.len() ==> resource_views(rs@)[a].last_seen != resource_views(rs@)[b].last_seen,
    ensures
        least_recent(resource_views(rs@), j as int),
{
    let ghost v = resource_views(rs@);
    let mut best: usize = 0;
    let mut i: usize = 1;
    while i < rs.len()
        invariant
            1 <= i <= rs@.len(),
            best < i,
            v == resource_views(rs@),
            forall|p: int| 0 <= p < i && p != best ==> v[best as int].last_seen < (#[trigger] v[p]).last_seen,
            forall|a: int, b: int| #![trigger v[a], v[b]] 0 <= a < b < v.len() ==> v[a].last_seen != v[b].last_seen,
        decreases rs@.len() - i,
    {
        if rs[i].last_seen < rs[best].last_seen {
            assert forall|p: int| 0 <= p < i + 1 && p != i implies v[i as int].last_seen < (#[trigger] v[p]).last_seen by {
                if p != best {
                    assert(v[best as int].last_seen < v[p].last_seen);
                }
            }
            best = i;
        } else {
            assert(v[best as int].last_seen != v[i as int].last_seen);
        }
        i = i + 1;
    }
    best
}

fn evidence_ids(history: &Vec<RetainedEvidence>) -> (r: Vec<String>)
    ensures
        string_views(r@) == ids_of(evidence_views(history@)),
{
    let mut out: Vec<String> = Vec::new();
    let mut i: usize = 0;
    while i < history.len()
        invariant
            i <= history@.len(),
            string_views(out@) == ids_of(evidence_views(history@)).take(i as int),
        decreases history@.len() - i,
    {
        let ghost before = out@;
        out.push(string_of(&chars_of(history[i].evidence_id.as_str())));
        assert(string_views(out@) =~= string_views(before).push(history@[i as int].evidence_id@));
        assert(ids_of(evidence_views(history@)).take(i as int + 1) =~= ids_of(evidence_views(history@)).take(i as int).push(
            history@[i as int].evidence_id@,
        ));
        i = i + 1;
    }
    assert(ids_of(evidence_views(history@)).take(history@.len() as int) =~= ids_of(evidence_views(history@)));
    out
}


impl ObservationRetention {
    /// Retains evidence `evidence_id` of `resource`, observed at the order
    /// handed out last. `current_evidence_id` is the resource's current
    /// evidence, which its history never evicts. Reports what was evicted.
    pub fn retain(&mut self, resource: &str, evidence_id: &str, current_evidence_id: Option<&str>) -> (r: RetentionOutcome)
        requires
            old(self).spec_fresh(),
        ensures
            final(self).spec_order() == old(self).spec_order(),
            final(self).spec_max_resources() == old(self).spec_max_resources(),
            final(self).spec_max_evidence() == old(self).spec_max_evidence(),
            string_views(r.evicted_evidence@) == ids_of(evicted_history(prior_history(old(self)@, resource@),
                old(self).spec_order(), evidence_id@, opt_view(current_evidence_id), old(self).spec_max_evidence())),
            ({
                let t = touched(old(self)@, resource@, old(self).spec_order(), evidence_id@, opt_view(current_evidence_id),
                    old(self).spec_max_evidence());
                if t.len() > old(self).spec_max_resources() {
                    exists|j: int| least_recent(t, j) && final(self)@ == t.remove(j)
                        && (r.evicted_resource matches Some((n, ev)) && n@ == t[j].resource && string_views(ev@) == ids_of(t[j].history))
                } else {
                    final(self)@ == t && r.evicted_resource is None
                }
            }),
            within_limits(final(self)@, final(self).spec_max_resources(), final(self).spec_max_evidence()),
            exists|i: int| 0 <= i < final(self)@.len() && (#[trigger] final(self)@[i]).resource == resource@
                && final(self)@[i].last_seen == old(self).spec_order()
                && final(self)@[i].history == retained_history(prior_history(old(self)@, resource@), old(self).spec_order(),
                    evidence_id@, opt_view(current_evidence_id), old(self).spec_max_evidence()),
    {
        proof {
            use_type_invariant(&*self);
        }
        let order = self.retention_order;
        let max_evidence = self.max_evidence_per_resource;
        let max_resources = self.max_resources;
        let ghost old_view = self@;
        let ghost c = opt_view(current_evidence_id);
        let ghost prior = prior_history(old_view, resource@);
        let mut resources: Vec<RetainedResource> = Vec::new();
        std::mem::swap(&mut resources, &mut self.resources);
        assert(resource_views(resources@) == old_view);
        let idx = find_index(&resources, resource);
        let (name, history) = match idx {
            Some(i) => {
                proof {
                    lemma_find_resource(old_view, resource@, i as int);
                }
                let taken = resources.remove(i);
                assert(resource_views(resources@) =~= old_view.remove(i as int));
                (taken.resource, taken.history)
            },
            None => {
                assert(!(exists|p: int| 0 <= p < old_view.len() && (#[trigger] old_view[p]).resource == resource@));
                (string_of(&chars_of(resource)), Vec::new())
            },
        };
        assert(evidence_views(history@) =~= prior);
        assert(name@ == resource@);
        proof {
            if let Some(i) = idx {
                assert(old_view[i as int].last_seen < order);
                assert forall|a: int| 0 <= a < history@.len() implies (#[trigger] history@[a]).order < order by {
                    assert(evidence_views(history@)[a] == old_view[i as int].history[a]);
                    assert(old_view[i as int].history[a].0 < order);
                }
            }
        }
        let (kept, evicted) = bound_history(history, order, evidence_id, current_evidence_id, max_evidence);
        let ghost v = ResourceView { resource: resource@, last_seen: order, history: evidence_views(kept@) };
        let entry = RetainedResource { resource: name, last_seen: order, history: kept };
        assert(resource_view(entry) == v);
        let ghost t = touched(old_view, resource@, order, evidence_id@, c, max_evidence as nat);
        match idx {
            Some(i) => {
                let ghost before = resources@;
                resources.insert(i, entry);
                assert(resource_views(resources@) =~= old_view.update(i as int, v));
            },
            None => {
                let ghost before = resources@;
                resources.push(entry);
                assert(resource_views(resources@) =~= old_view.push(v));
            },
        }
        assert(resource_views(resources@) == t);
        let ghost pos: int = match idx {
            Some(i) => i as int,
            None => old_view.len() as int,
        };
        assert(t[pos] == v);
        assert(retention_ok(t, order, (max_resources + 1) as nat, max_evidence as nat)) by {
            assert forall|i: int, j: int| #![trigger t[i], t[j]] 0 <= i < j < t.len() implies t[i].resource != t[j].resource
                && t[i].last_seen != t[j].last_seen by {
                if i != pos && j != pos {
                    assert(t[i] == old_view[i] && t[j] == old_view[j]);
                } else if i == pos {
                    assert(t[j] == old_view[j]);
                    assert(old_view[j].last_seen < order);
                } else {
                    assert(t[i] == old_view[i]);
                    assert(old_view[i].last_seen < order);
                }
            }
            assert forall|i: int| #![trigger t[i]] 0 <= i < t.len() implies t[i].last_seen <= order && history_ok(t[i].history, order)
                && t[i].history.len() <= max_evidence by {
                if i != pos {
                    assert(t[i] == old_view[i]);
                }
            }
        }
        let mut evicted_resource: Option<(String, Vec<String>)> = None;
        if resources.len() > max_resources {
            let j = least_recent_index(&resources);
            proof {
                assert(idx is None);
                assert(pos == t.len() - 1);
                if j as int == pos {
                    assert(t[0].last_seen < order);
                    assert(t[j as int].last_seen < t[0].last_seen);
                }
            }
            let gone = resources.remove(j);
            let ids = evidence_ids(&gone.history);
            evicted_resource = Some((gone.resource, ids));
            assert(resource_views(resources@) =~= t.remove(j as int));
            proof {
                let f = t.remove(j as int);
                assert(f[pos - 1] == t[pos]);
                assert forall|i: int, k: int| #![trigger f[i], f[k]] 0 <= i < k < f.len() implies f[i].resource != f[k].resource
                    && f[i].last_seen != f[k].last_seen by {
                    let ii = if i < j { i } else { i + 1 };
                    let kk = if k < j { k } else { k + 1 };
                    assert(f[i] == t[ii] && f[k] == t[kk]);
                }
                assert forall|i: int| #![trigger f[i]] 0 <= i < f.len() implies f[i].last_seen <= order && history_ok(f[i].history, order)
                    && f[i].history.len() <= max_evidence by {
                    let ii = if i < j { i } else { i + 1 };
                    assert(f[i] == t[ii]);
                }
                assert(f[pos - 1].resource == resource@);
            }
        } else {
            assert(t[pos].resource == resource@);
        }
        self.resources = resources;
        RetentionOutcome { evicted_evidence: evicted, evicted_resource }
    }
}

} // verus!
