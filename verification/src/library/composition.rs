//! Composition checks on setup revisions: every referenced intent and setup
//! revision exists, setup inclusion has no cycle, and a bundle holds
//! exactly the revisions reachable from its roots.
use vstd::prelude::*;
use crate::library::error::LibraryError;
use crate::library::portable::{validate_version, PORTABLE_FORMAT_VERSION};

verus! {

/// A setup revision as (identity, revision).
pub type SetupKey = (Seq<char>, u32);

/// An intent revision as (identity, revision).
pub type IntentKey = (Seq<char>, u64);

/// What the composition checks read of a setup revision: its identity and
/// the intent and setup revisions it references.
pub struct SetupComposition {
    pub id: String,
    pub revision: u32,
    pub intent_revisions: Vec<(String, u64)>,
    pub included_revisions: Vec<(String, u32)>,
}

pub struct CompositionView {
    pub key: SetupKey,
    pub intents: Seq<IntentKey>,
    pub includes: Seq<SetupKey>,
}

pub open spec fn setup_keys(v: Seq<(String, u32)>) -> Seq<SetupKey> {
    v.map_values(|e: (String, u32)| (e.0@, e.1))
}

pub open spec fn intent_keys(v: Seq<(String, u64)>) -> Seq<IntentKey> {
    v.map_values(|e: (String, u64)| (e.0@, e.1))
}

impl View for SetupComposition {
    type V = CompositionView;

    open spec fn view(&self) -> CompositionView {
        CompositionView {
            key: (self.id@, self.revision),
            intents: intent_keys(self.intent_revisions@),
            includes: setup_keys(self.included_revisions@),
        }
    }
}

pub open spec fn graph(v: Seq<SetupComposition>) -> Seq<CompositionView> {
    v.map_values(|s: SetupComposition| s@)
}

pub open spec fn node_at(g: Seq<CompositionView>, k: SetupKey, i: int) -> bool {
    0 <= i < g.len() && g[i].key == k
}

/// The bundle holds setup revision `k`.
pub open spec fn present(g: Seq<CompositionView>, k: SetupKey) -> bool {
    exists|i: int| node_at(g, k, i)
}

/// No setup revision occurs twice.
pub open spec fn distinct_keys(g: Seq<CompositionView>) -> bool {
    forall|i: int, j: int| 0 <= i < j < g.len() ==> (#[trigger] g[i]).key != (#[trigger] g[j]).key
}

/// Setup revision `a` includes `b`.
pub open spec fn includes_edge(g: Seq<CompositionView>, a: SetupKey, b: SetupKey) -> bool {
    exists|i: int| node_at(g, a, i) && g[i].includes.contains(b)
}

pub open spec fn step(g: Seq<CompositionView>, p: Seq<SetupKey>, i: int) -> bool {
    includes_edge(g, p[i], p[i + 1])
}

/// Each revision of `p` includes the next.
pub open spec fn is_walk(g: Seq<CompositionView>, p: Seq<SetupKey>) -> bool {
    forall|i: int| 0 <= i < p.len() - 1 ==> #[trigger] step(g, p, i)
}

/// Setup revision `k` includes itself, directly or through others.
pub open spec fn on_cycle(g: Seq<CompositionView>, k: SetupKey) -> bool {
    exists|p: Seq<SetupKey>| p.len() >= 2 && is_walk(g, p) && p[0] == k && p.last() == k
}

/// Some setup revision includes itself, directly or through others.
pub open spec fn has_cycle(g: Seq<CompositionView>) -> bool {
    exists|p: Seq<SetupKey>| p.len() >= 2 && is_walk(g, p) && p[0] == p.last()
}

/// Every included setup revision is held by the bundle.
pub open spec fn includes_present(g: Seq<CompositionView>) -> bool {
    forall|i: int, b: SetupKey| 0 <= i < g.len() && #[trigger] g[i].includes.contains(b) ==> present(g, b)
}

/// `p` holds every included revision of the revisions it holds.
pub open spec fn closed_in(g: Seq<CompositionView>, p: Seq<SetupKey>) -> bool {
    forall|x: SetupKey, b: SetupKey| p.contains(x) && #[trigger] includes_edge(g, x, b) ==> p.contains(b)
}

/// The depth-first search state: `t` is the path of revisions being
/// visited, `p` the revisions finished; no finished revision is on a cycle.
pub open spec fn search_state(g: Seq<CompositionView>, t: Seq<SetupKey>, p: Seq<SetupKey>) -> bool {
    &&& t.no_duplicates()
    &&& forall|i: int| 0 <= i < t.len() ==> present(g, #[trigger] t[i])
    &&& is_walk(g, t)
    &&& forall|x: SetupKey| t.contains(x) ==> !p.contains(x)
    &&& closed_in(g, p)
    &&& forall|x: SetupKey| p.contains(x) ==> !on_cycle(g, x)
}

proof fn lemma_push_contains<A>(s: Seq<A>, e: A, x: A)
    ensures
        s.push(e).contains(x) <==> s.contains(x) || x == e,
{
    if s.contains(x) {
        let j = choose|j: int| 0 <= j < s.len() && s[j] == x;
        assert(s.push(e)[j] == x);
    }
    if x == e {
        assert(s.push(e)[s.len() as int] == x);
    }
    if s.push(e).contains(x) && x != e {
        let j = choose|j: int| 0 <= j < s.len() + 1 && s.push(e)[j] == x;
        assert(j < s.len());
        assert(s[j] == x);
    }
}

proof fn lemma_walk_stays(g: Seq<CompositionView>, s: Seq<SetupKey>, p: Seq<SetupKey>, j: int)
    requires
        closed_in(g, s),
        is_walk(g, p),
        0 <= j < p.len(),
        s.contains(p[j]),
    ensures
        forall|k: int| j <= k < p.len() ==> s.contains(#[trigger] p[k]),
    decreases p.len() - j,
{
    if j + 1 < p.len() {
        assert(step(g, p, j));
        lemma_walk_stays(g, s, p, j + 1);
    }
}

proof fn lemma_stack_bound(g: Seq<CompositionView>, t: Seq<SetupKey>)
    requires
        t.no_duplicates(),
        forall|i: int| 0 <= i < t.len() ==> present(g, #[trigger] t[i]),
    ensures
        t.len() <= g.len(),
{
    let keys = g.map_values(|n: CompositionView| n.key);
    t.unique_seq_to_set();
    keys.lemma_cardinality_of_set();
    assert forall|x: SetupKey| t.to_set().contains(x) implies keys.to_set().contains(x) by {
        let i = choose|i: int| 0 <= i < t.len() && t[i] == x;
        assert(present(g, t[i]));
        let j = choose|j: int| node_at(g, x, j);
        assert(keys[j] == x);
    }
    vstd::set_lib::lemma_len_subset(t.to_set(), keys.to_set());
}

/// Whether `v` holds the key `(id, revision)`.
fn holds_key(v: &Vec<(String, u32)>, id: &String, revision: u32) -> (r: bool)
    ensures
        r == setup_keys(v@).contains((id@, revision)),
{
    let ghost s = setup_keys(v@);
    let mut i: usize = 0;
    while i < v.len()
        invariant
            i <= v@.len(),
            s == setup_keys(v@),
            forall|j: int| 0 <= j < i ==> s[j] != (id@, revision),
        decreases v@.len() - i,
    {
        assert(s[i as int] == (v@[i as int].0@, v@[i as int].1));
        if v[i].0 == *id && v[i].1 == revision {
            return true;
        }
        i = i + 1;
    }
    false
}

/// The index of setup revision `(id, revision)`, if the bundle holds it.
fn find_composition(setups: &Vec<SetupComposition>, id: &String, revision: u32) -> (r: Option<usize>)
    ensures
        match r {
            Some(i) => node_at(graph(setups@), (id@, revision), i as int),
            None => !present(graph(setups@), (id@, revision)),
        },
{
    let ghost g = graph(setups@);
    let mut i: usize = 0;
    while i < setups.len()
        invariant
            i <= setups@.len(),
            g == graph(setups@),
            forall|j: int| 0 <= j < i ==> !node_at(g, (id@, revision), j),
        decreases setups@.len() - i,
    {
        assert(g[i as int] == setups@[i as int]@);
        if setups[i].id == *id && setups[i].revision == revision {
            return Some(i);
        }
        i = i + 1;
    }
    None
}

fn cycle_error() -> (e: LibraryError)
    ensures
        e matches LibraryError::PortableFormat(m) && m@ == "setup composition cycle detected"@,
{
    LibraryError::PortableFormat("setup composition cycle detected".to_string())
}

/// Depth-first visit of setup revision `(id, revision)`: an error when it
/// lies on the path being visited, which closes a cycle; otherwise it and
/// everything it includes end up finished.
fn visit_setup(
    id: &String,
    revision: u32,
    setups: &Vec<SetupComposition>,
    temporary: &mut Vec<(String, u32)>,
    permanent: &mut Vec<(String, u32)>,
) -> (r: Result<(), LibraryError>)
    requires
        distinct_keys(graph(setups@)),
        includes_present(graph(setups@)),
        present(graph(setups@), (id@, revision)),
        search_state(graph(setups@), setup_keys(old(temporary)@), setup_keys(old(permanent)@)),
        setup_keys(old(temporary)@).len() == 0 || includes_edge(graph(setups@), setup_keys(old(temporary)@).last(), (id@, revision)),
    ensures
        r matches Err(e) ==> e is PortableFormat && has_cycle(graph(setups@)),
        r is Ok ==> {
            &&& setup_keys(final(temporary)@) == setup_keys(old(temporary)@)
            &&& search_state(graph(setups@), setup_keys(final(temporary)@), setup_keys(final(permanent)@))
            &&& forall|x: SetupKey| setup_keys(old(permanent)@).contains(x) ==> setup_keys(final(permanent)@).contains(x)
            &&& setup_keys(final(permanent)@).contains((id@, revision))
        },
    decreases setups@.len() - old(temporary)@.len(),
{
    let ghost g = graph(setups@);
    let ghost key = (id@, revision);
    let ghost t0 = setup_keys(temporary@);
    let ghost p0 = setup_keys(permanent@);
    if holds_key(permanent, id, revision) {
        return Ok(());
    }
    if holds_key(temporary, id, revision) {
        proof {
            let i = choose|i: int| 0 <= i < t0.len() && t0[i] == key;
            let c = t0.subrange(i, t0.len() as int).push(key);
            assert forall|j: int| 0 <= j < c.len() - 1 implies #[trigger] step(g, c, j) by {
                if j < t0.len() - i - 1 {
                    assert(step(g, t0, i + j));
                }
            }
            assert(c.len() >= 2 && is_walk(g, c) && c[0] == c.last());
        }
        return Err(cycle_error());
    }
    let i = match find_composition(setups, id, revision) {
        Some(i) => i,
        None => return Err(record_missing()),
    };
    temporary.push((id.clone(), revision));
    let ghost t1 = setup_keys(temporary@);
    assert(t1 =~= t0.push(key));
    proof {
        assert forall|j: int| 0 <= j < t1.len() - 1 implies #[trigger] step(g, t1, j) by {
            if j < t0.len() - 1 {
                assert(step(g, t0, j));
            }
        }
        assert forall|a: int, b: int| 0 <= a < b < t1.len() implies t1[a] != t1[b] by {
            if b == t0.len() {
                assert(t0.contains(t1[a]));
            }
        }
        assert forall|x: SetupKey| t1.contains(x) implies !setup_keys(permanent@).contains(x) by {
            if x != key {
                let j = choose|j: int| 0 <= j < t1.len() && t1[j] == x;
                assert(t0.contains(x));
            }
        }
        lemma_stack_bound(g, t1);
    }
    let ghost node = g[i as int];
    assert(node == setups@[i as int]@);
    let n = setups[i].included_revisions.len();
    let mut c: usize = 0;
    while c < n
        invariant
            g == graph(setups@),
            distinct_keys(g),
            includes_present(g),
            node_at(g, key, i as int),
            node == g[i as int],
            n == node.includes.len(),
            i < setups@.len(),
            c <= n,
            t1 == t0.push(key),
            t1.len() <= g.len(),
            t0.len() == old(temporary)@.len(),
            g.len() == setups@.len(),
            setup_keys(temporary@) == t1,
            search_state(g, t1, setup_keys(permanent@)),
            forall|x: SetupKey| p0.contains(x) ==> setup_keys(permanent@).contains(x),
            forall|d: int| 0 <= d < c ==> setup_keys(permanent@).contains(#[trigger] node.includes[d]),
        decreases n - c,
    {
        let child = &setups[i].included_revisions[c];
        assert(node.includes[c as int] == (child.0@, child.1));
        assert(node.includes.contains((child.0@, child.1)));
        assert(t1.last() == key);
        let ghost pb = setup_keys(permanent@);
        assert(temporary@.len() == t1.len());
        match visit_setup(&child.0, child.1, setups, temporary, permanent) {
            Ok(()) => {},
            Err(e) => return Err(e),
        }
        assert forall|d: int| 0 <= d < c + 1 implies setup_keys(permanent@).contains(#[trigger] node.includes[d]) by {
            if d < c {
                assert(pb.contains(node.includes[d]));
            }
        }
        c = c + 1;
    }
    let ghost p1 = setup_keys(permanent@);
    assert(!p1.contains(key)) by {
        assert(t1[t1.len() - 1] == key);
        assert(t1.contains(key));
    }
    let ghost tv1 = temporary@;
    temporary.pop();
    assert forall|j: int| 0 <= j < t0.len() implies setup_keys(temporary@)[j] == t0[j] by {
        assert(temporary@[j] == tv1[j]);
        assert(t1[j] == (tv1[j].0@, tv1[j].1));
    }
    assert(setup_keys(temporary@) =~= t0);
    permanent.push((id.clone(), revision));
    let ghost p2 = setup_keys(permanent@);
    assert(p2 =~= p1.push(key));
    proof {
        assert forall|b: SetupKey| #[trigger] includes_edge(g, key, b) implies p1.contains(b) by {
            let j = choose|j: int| node_at(g, key, j) && g[j].includes.contains(b);
            if j != i {
                if j < i {
                    assert(g[j].key != g[i as int].key);
                } else {
                    assert(g[i as int].key != g[j].key);
                }
            }
            let d = choose|d: int| 0 <= d < node.includes.len() && node.includes[d] == b;
            assert(p1.contains(node.includes[d]));
        }
        assert forall|x: SetupKey, b: SetupKey| p2.contains(x) && #[trigger] includes_edge(g, x, b) implies p2.contains(b) by {
            lemma_push_contains(p1, key, x);
            lemma_push_contains(p1, key, b);
            if x == key {
                assert(p1.contains(b));
            } else {
                assert(p1.contains(x));
            }
        }
        assert forall|x: SetupKey| p2.contains(x) implies !on_cycle(g, x) by {
            lemma_push_contains(p1, key, x);
            if x == key {
                if on_cycle(g, key) {
                    let w = choose|w: Seq<SetupKey>| w.len() >= 2 && is_walk(g, w) && w[0] == key && w.last() == key;
                    assert(step(g, w, 0));
                    assert(p1.contains(w[1]));
                    lemma_walk_stays(g, p1, w, 1);
                    assert(p1.contains(w[w.len() - 1]));
                }
            } else {
                assert(p1.contains(x));
            }
        }
        assert forall|x: SetupKey| t0.contains(x) implies !p2.contains(x) by {
            lemma_push_contains(p1, key, x);
            let j = choose|j: int| 0 <= j < t0.len() && t0[j] == x;
            assert(t1[j] == x);
            assert(t1.contains(x));
            if x == key {
                assert(t1[j] == t1[t0.len() as int]);
            }
        }
        assert forall|j: int| 0 <= j < t0.len() - 1 implies #[trigger] step(g, t0, j) by {
            assert(step(g, t1, j));
        }
        assert(t0.no_duplicates());
        assert(forall|j: int| 0 <= j < t0.len() ==> present(g, #[trigger] t0[j]));
        assert(is_walk(g, t0));
        assert(closed_in(g, p2));
        assert(search_state(g, t0, p2));
        assert forall|x: SetupKey| p0.contains(x) implies p2.contains(x) by {
            lemma_push_contains(p1, key, x);
        }
        lemma_push_contains(p1, key, key);
    }
    Ok(())
}

fn record_missing() -> (e: LibraryError)
    ensures
        e matches LibraryError::PortableFormat(m) && m@ == "cycle traversal encountered missing setup"@,
{
    LibraryError::PortableFormat("cycle traversal encountered missing setup".to_string())
}

/// Whether setup inclusion has a cycle, for a bundle that holds every
/// revision its setups include: `Ok` exactly when it has none.
fn detect_setup_cycles(setups: &Vec<SetupComposition>) -> (r: Result<(), LibraryError>)
    requires
        distinct_keys(graph(setups@)),
        includes_present(graph(setups@)),
    ensures
        r is Ok <==> !has_cycle(graph(setups@)),
        r matches Err(e) ==> e is PortableFormat,
{
    let ghost g = graph(setups@);
    let mut temporary: Vec<(String, u32)> = Vec::new();
    let mut permanent: Vec<(String, u32)> = Vec::new();
    assert(setup_keys(temporary@) =~= Seq::<SetupKey>::empty());
    assert(setup_keys(permanent@) =~= Seq::<SetupKey>::empty());
    let mut i: usize = 0;
    while i < setups.len()
        invariant
            g == graph(setups@),
            distinct_keys(g),
            includes_present(g),
            i <= setups@.len(),
            setup_keys(temporary@).len() == 0,
            search_state(g, setup_keys(temporary@), setup_keys(permanent@)),
            forall|j: int| 0 <= j < i ==> setup_keys(permanent@).contains(#[trigger] g[j].key),
        decreases setups@.len() - i,
    {
        assert(g[i as int] == setups@[i as int]@);
        assert(node_at(g, g[i as int].key, i as int));
        let ghost pb = setup_keys(permanent@);
        match visit_setup(&setups[i].id, setups[i].revision, setups, &mut temporary, &mut permanent) {
            Ok(()) => {},
            Err(e) => return Err(e),
        }
        assert forall|j: int| 0 <= j < i + 1 implies setup_keys(permanent@).contains(#[trigger] g[j].key) by {
            if j < i {
                assert(pb.contains(g[j].key));
            }
        }
        i = i + 1;
    }
    proof {
        let pf = setup_keys(permanent@);
        if has_cycle(g) {
            let w = choose|w: Seq<SetupKey>| w.len() >= 2 && is_walk(g, w) && w[0] == w.last();
            assert(step(g, w, 0));
            let j = choose|j: int| node_at(g, w[0], j) && g[j].includes.contains(w[1]);
            assert(pf.contains(g[j].key));
            assert(on_cycle(g, w[0]));
        }
    }
    Ok(())
}

/// Every intent revision that a setup references is in `intents`.
pub open spec fn intents_present(g: Seq<CompositionView>, intents: Seq<IntentKey>) -> bool {
    forall|i: int, x: IntentKey| 0 <= i < g.len() && #[trigger] g[i].intents.contains(x) ==> intents.contains(x)
}

fn bundle_error(message: &str) -> (e: LibraryError)
    ensures
        e matches LibraryError::PortableFormat(m) && m@ == message@,
{
    LibraryError::PortableFormat(message.to_string())
}

/// No setup revision occurs twice in a bundle.
fn unique_setup_keys(setups: &Vec<SetupComposition>) -> (r: Result<(), LibraryError>)
    ensures
        r is Ok <==> distinct_keys(graph(setups@)),
        r matches Err(e) ==> e is PortableFormat,
{
    let ghost g = graph(setups@);
    let mut j: usize = 0;
    while j < setups.len()
        invariant
            j <= setups@.len(),
            g == graph(setups@),
            forall|a: int, b: int| 0 <= a < b < j ==> (#[trigger] g[a]).key != (#[trigger] g[b]).key,
        decreases setups@.len() - j,
    {
        let mut a: usize = 0;
        while a < j
            invariant
                a <= j < setups@.len(),
                g == graph(setups@),
                forall|x: int| 0 <= x < a ==> (#[trigger] g[x]).key != g[j as int].key,
            decreases j - a,
        {
            assert(g[a as int] == setups@[a as int]@ && g[j as int] == setups@[j as int]@);
            if setups[a].id == setups[j].id && setups[a].revision == setups[j].revision {
                return Err(bundle_error("duplicate setup revision in bundle"));
            }
            a = a + 1;
        }
        j = j + 1;
    }
    Ok(())
}

/// At most one revision of each intent: no two intent revisions share an
/// identity.
pub open spec fn intent_ids_distinct(intents: Seq<IntentKey>) -> bool {
    forall|a: int, b: int| 0 <= a < b < intents.len() ==> (#[trigger] intents[a]).0 != (#[trigger] intents[b]).0
}

/// The bundle holds at most one revision of each intent.
fn one_revision_per_intent(intents: &Vec<(String, u64)>) -> (r: Result<(), LibraryError>)
    ensures
        r is Ok <==> intent_ids_distinct(intent_keys(intents@)),
        r matches Err(e) ==> e is PortableFormat,
{
    let ghost k = intent_keys(intents@);
    let mut j: usize = 0;
    while j < intents.len()
        invariant
            j <= intents@.len(),
            k == intent_keys(intents@),
            forall|a: int, b: int| 0 <= a < b < j ==> (#[trigger] k[a]).0 != (#[trigger] k[b]).0,
        decreases intents@.len() - j,
    {
        let mut a: usize = 0;
        while a < j
            invariant
                a <= j < intents@.len(),
                k == intent_keys(intents@),
                forall|x: int| 0 <= x < a ==> (#[trigger] k[x]).0 != k[j as int].0,
            decreases j - a,
        {
            assert(k[a as int] == (intents@[a as int].0@, intents@[a as int].1));
            assert(k[j as int] == (intents@[j as int].0@, intents@[j as int].1));
            if intents[a].0 == intents[j].0 {
                return Err(bundle_error("bundle holds two revisions of one intent"));
            }
            a = a + 1;
        }
        j = j + 1;
    }
    Ok(())
}

/// No intent revision occurs twice in a bundle.
fn unique_intent_keys(intents: &Vec<(String, u64)>) -> (r: Result<(), LibraryError>)
    ensures
        r is Ok <==> intent_keys(intents@).no_duplicates(),
        r matches Err(e) ==> e is PortableFormat,
{
    let ghost k = intent_keys(intents@);
    let mut j: usize = 0;
    while j < intents.len()
        invariant
            j <= intents@.len(),
            k == intent_keys(intents@),
            forall|a: int, b: int| 0 <= a < b < j ==> k[a] != k[b],
        decreases intents@.len() - j,
    {
        let mut a: usize = 0;
        while a < j
            invariant
                a <= j < intents@.len(),
                k == intent_keys(intents@),
                forall|x: int| 0 <= x < a ==> k[x] != k[j as int],
            decreases j - a,
        {
            assert(k[a as int] == (intents@[a as int].0@, intents@[a as int].1));
            assert(k[j as int] == (intents@[j as int].0@, intents@[j as int].1));
            if intents[a].0 == intents[j].0 && intents[a].1 == intents[j].1 {
                return Err(bundle_error("duplicate intent revision in bundle"));
            }
            a = a + 1;
        }
        j = j + 1;
    }
    Ok(())
}

fn holds_intent(v: &Vec<(String, u64)>, id: &String, revision: u64) -> (r: bool)
    ensures
        r == intent_keys(v@).contains((id@, revision)),
{
    let ghost s = intent_keys(v@);
    let mut i: usize = 0;
    while i < v.len()
        invariant
            i <= v@.len(),
            s == intent_keys(v@),
            forall|j: int| 0 <= j < i ==> s[j] != (id@, revision),
        decreases v@.len() - i,
    {
        assert(s[i as int] == (v@[i as int].0@, v@[i as int].1));
        if v[i].0 == *id && v[i].1 == revision {
            return true;
        }
        i = i + 1;
    }
    false
}

/// Every setup's referenced intent and setup revisions are in the bundle,
/// and setup inclusion has no cycle.
fn validate_composition(setups: &Vec<SetupComposition>, intents: &Vec<(String, u64)>) -> (r: Result<(), LibraryError>)
    requires
        distinct_keys(graph(setups@)),
    ensures
        r is Ok <==> intents_present(graph(setups@), intent_keys(intents@)) && includes_present(graph(setups@))
            && !has_cycle(graph(setups@)),
        r matches Err(e) ==> e is PortableFormat,
{
    let ghost g = graph(setups@);
    let ghost ik = intent_keys(intents@);
    let mut i: usize = 0;
    while i < setups.len()
        invariant
            i <= setups@.len(),
            g == graph(setups@),
            ik == intent_keys(intents@),
            forall|a: int, x: IntentKey| 0 <= a < i && #[trigger] g[a].intents.contains(x) ==> ik.contains(x),
            forall|a: int, b: SetupKey| 0 <= a < i && #[trigger] g[a].includes.contains(b) ==> present(g, b),
        decreases setups@.len() - i,
    {
        let ghost node = g[i as int];
        assert(node == setups@[i as int]@);
        let mut c: usize = 0;
        while c < setups[i].intent_revisions.len()
            invariant
                i < setups@.len(),
                c <= node.intents.len(),
                g == graph(setups@),
                node == g[i as int],
                ik == intent_keys(intents@),
                forall|d: int| 0 <= d < c ==> ik.contains(#[trigger] node.intents[d]),
            decreases node.intents.len() - c,
        {
            let reference = &setups[i].intent_revisions[c];
            assert(node.intents[c as int] == (reference.0@, reference.1));
            if !holds_intent(intents, &reference.0, reference.1) {
                assert(g[i as int].intents.contains(node.intents[c as int]));
                return Err(bundle_error("setup references missing intent"));
            }
            c = c + 1;
        }
        let mut c: usize = 0;
        while c < setups[i].included_revisions.len()
            invariant
                i < setups@.len(),
                c <= node.includes.len(),
                g == graph(setups@),
                node == g[i as int],
                forall|d: int| 0 <= d < c ==> present(g, #[trigger] node.includes[d]),
            decreases node.includes.len() - c,
        {
            let reference = &setups[i].included_revisions[c];
            assert(node.includes[c as int] == (reference.0@, reference.1));
            if find_composition(setups, &reference.0, reference.1).is_none() {
                assert(g[i as int].includes.contains(node.includes[c as int]));
                return Err(bundle_error("setup references missing setup"));
            }
            c = c + 1;
        }
        proof {
            assert forall|a: int, x: IntentKey| 0 <= a < i + 1 && #[trigger] g[a].intents.contains(x) implies ik.contains(x) by {
                if a == i {
                    let d = choose|d: int| 0 <= d < node.intents.len() && node.intents[d] == x;
                    assert(ik.contains(node.intents[d]));
                }
            }
            assert forall|a: int, b: SetupKey| 0 <= a < i + 1 && #[trigger] g[a].includes.contains(b) implies present(g, b) by {
                if a == i {
                    let d = choose|d: int| 0 <= d < node.includes.len() && node.includes[d] == b;
                    assert(present(g, node.includes[d]));
                }
            }
        }
        i = i + 1;
    }
    detect_setup_cycles(setups)
}

/// Setup revision `k` is reachable from one of `roots` through inclusion.
pub open spec fn reachable(g: Seq<CompositionView>, roots: Seq<SetupKey>, k: SetupKey) -> bool {
    exists|p: Seq<SetupKey>| p.len() >= 1 && is_walk(g, p) && roots.contains(p[0]) && p.last() == k
}

/// Intent revision `x` is referenced by `extra` or by a setup revision of
/// the bundle reachable from `roots`.
pub open spec fn closure_intent(g: Seq<CompositionView>, roots: Seq<SetupKey>, extra: Seq<IntentKey>, x: IntentKey) -> bool {
    extra.contains(x) || exists|i: int| 0 <= i < g.len() && reachable(g, roots, g[i].key) && #[trigger] g[i].intents.contains(x)
}

/// The bundle is exactly what `roots` (and the intent revisions `extra`)
/// reach: every reachable setup revision is held, every held one is
/// reachable, and the intent revisions are exactly those referenced.
pub open spec fn exact_closure(g: Seq<CompositionView>, roots: Seq<SetupKey>, extra: Seq<IntentKey>, intents: Seq<IntentKey>) -> bool {
    &&& forall|k: SetupKey| reachable(g, roots, k) ==> present(g, k)
    &&& forall|i: int| 0 <= i < g.len() ==> reachable(g, roots, #[trigger] g[i].key)
    &&& forall|x: IntentKey| closure_intent(g, roots, extra, x) <==> intents.contains(x)
}

proof fn lemma_same_members<A>(a: Seq<A>, b: Seq<A>)
    requires
        a.no_duplicates(),
        b.no_duplicates(),
        forall|x: A| a.contains(x) ==> b.contains(x),
    ensures
        (a.len() == b.len()) <==> (forall|x: A| b.contains(x) ==> a.contains(x)),
{
    a.unique_seq_to_set();
    b.unique_seq_to_set();
    vstd::seq_lib::seq_to_set_is_finite(a);
    vstd::seq_lib::seq_to_set_is_finite(b);
    assert(a.to_set().subset_of(b.to_set()));
    if a.len() == b.len() {
        vstd::set_lib::lemma_subset_equality(a.to_set(), b.to_set());
        assert forall|x: A| b.contains(x) implies a.contains(x) by {
            assert(b.to_set().contains(x));
        }
    }
    if forall|x: A| b.contains(x) ==> a.contains(x) {
        assert(a.to_set() =~= b.to_set());
    }
}

proof fn lemma_reach_step(g: Seq<CompositionView>, roots: Seq<SetupKey>, v: SetupKey, b: SetupKey)
    requires
        reachable(g, roots, v),
        includes_edge(g, v, b),
    ensures
        reachable(g, roots, b),
{
    let p = choose|p: Seq<SetupKey>| p.len() >= 1 && is_walk(g, p) && roots.contains(p[0]) && p.last() == v;
    let q = p.push(b);
    assert forall|i: int| 0 <= i < q.len() - 1 implies #[trigger] step(g, q, i) by {
        if i < p.len() - 1 {
            assert(step(g, p, i));
        }
    }
    assert(q[0] == p[0]);
    assert(q.len() >= 1 && is_walk(g, q) && roots.contains(q[0]) && q.last() == b);
}

proof fn lemma_root_reachable(g: Seq<CompositionView>, roots: Seq<SetupKey>, r: SetupKey)
    requires
        roots.contains(r),
    ensures
        reachable(g, roots, r),
{
    let p = seq![r];
    assert(is_walk(g, p));
    assert(p.len() >= 1 && is_walk(g, p) && roots.contains(p[0]) && p.last() == r);
}

/// The keys of `g`.
pub open spec fn keys_of(g: Seq<CompositionView>) -> Seq<SetupKey> {
    g.map_values(|n: CompositionView| n.key)
}

/// The worklist state: `v` holds visited revisions of the bundle, `p` the
/// ones still to visit, `r` the intent revisions referenced so far.
pub open spec fn worklist_state(
    g: Seq<CompositionView>,
    roots: Seq<SetupKey>,
    extra: Seq<IntentKey>,
    v: Seq<SetupKey>,
    p: Seq<SetupKey>,
    r: Seq<IntentKey>,
) -> bool {
    &&& v.no_duplicates()
    &&& forall|k: SetupKey| v.contains(k) ==> present(g, k) && reachable(g, roots, k)
    &&& forall|k: SetupKey| p.contains(k) ==> reachable(g, roots, k)
    &&& forall|k: SetupKey, b: SetupKey| v.contains(k) && #[trigger] includes_edge(g, k, b) ==> v.contains(b) || p.contains(b)
    &&& forall|k: SetupKey| roots.contains(k) ==> v.contains(k) || p.contains(k)
    &&& r.no_duplicates()
    &&& forall|x: IntentKey| r.contains(x) <==> (extra.contains(x) || exists|i: int| 0 <= i < g.len() && v.contains(g[i].key) && #[trigger] g[i].intents.contains(x))
}

/// Adds each of the intent revisions `refs` that `out` does not hold yet.
fn add_intent_refs(out: &mut Vec<(String, u64)>, refs: &Vec<(String, u64)>)
    requires
        intent_keys(old(out)@).no_duplicates(),
    ensures
        intent_keys(final(out)@).no_duplicates(),
        forall|x: IntentKey| #![trigger intent_keys(final(out)@).contains(x)] intent_keys(final(out)@).contains(x) <==> (
            intent_keys(old(out)@).contains(x) || intent_keys(refs@).contains(x)),
{
    let ghost o = intent_keys(out@);
    let ghost rk = intent_keys(refs@);
    let mut k: usize = 0;
    while k < refs.len()
        invariant
            k <= refs@.len(),
            rk == intent_keys(refs@),
            intent_keys(out@).no_duplicates(),
            forall|x: IntentKey| intent_keys(out@).contains(x) <==> (o.contains(x) || rk.take(k as int).contains(x)),
        decreases refs@.len() - k,
    {
        let ghost before = intent_keys(out@);
        let ghost x0 = rk[k as int];
        assert(x0 == (refs@[k as int].0@, refs@[k as int].1));
        assert(rk.take(k as int + 1) =~= rk.take(k as int).push(x0));
        if !holds_intent(out, &refs[k].0, refs[k].1) {
            out.push((refs[k].0.clone(), refs[k].1));
            assert(intent_keys(out@) =~= before.push(x0));
            proof {
                assert forall|x: IntentKey| intent_keys(out@).contains(x) <==> (o.contains(x) || rk.take(k as int + 1).contains(x)) by {
                    lemma_push_contains(before, x0, x);
                    lemma_push_contains(rk.take(k as int), x0, x);
                }
                assert forall|a: int, b: int| 0 <= a < b < before.len() + 1 implies intent_keys(out@)[a] != intent_keys(out@)[b] by {
                    if b == before.len() {
                        assert(before.contains(before[a]));
                    }
                }
            }
        } else {
            proof {
                assert(before.contains(x0));
                assert(o.contains(x0) || rk.take(k as int).contains(x0));
                assert forall|x: IntentKey| intent_keys(out@).contains(x) <==> (o.contains(x) || rk.take(k as int + 1).contains(x)) by {
                    lemma_push_contains(rk.take(k as int), x0, x);
                    assert(before.contains(x) <==> (o.contains(x) || rk.take(k as int).contains(x)));
                    if x == x0 {
                        assert(before.contains(x0));
                    }
                }
            }
        }
        let ghost k1 = k as int + 1;
        assert(forall|x: IntentKey| intent_keys(out@).contains(x) <==> (o.contains(x) || rk.take(k1).contains(x)));
        k = k + 1;
        assert(rk.take(k as int) =~= rk.take(k1));
        assert forall|x: IntentKey| intent_keys(out@).contains(x) <==> (o.contains(x) || rk.take(k as int).contains(x)) by {
            assert(intent_keys(out@).contains(x) <==> (o.contains(x) || rk.take(k1).contains(x)));
        }
    }
    assert(rk.take(k as int) =~= rk);
    assert forall|x: IntentKey| intent_keys(out@).contains(x) <==> (o.contains(x) || rk.contains(x)) by {
        assert(intent_keys(out@).contains(x) <==> (o.contains(x) || rk.take(k as int).contains(x)));
    }
}

/// Appends the setup revisions `refs`.
fn append_setup_refs(out: &mut Vec<(String, u32)>, refs: &Vec<(String, u32)>)
    ensures
        setup_keys(final(out)@) == setup_keys(old(out)@) + setup_keys(refs@),
{
    let ghost o = setup_keys(out@);
    let ghost rk = setup_keys(refs@);
    let mut k: usize = 0;
    while k < refs.len()
        invariant
            k <= refs@.len(),
            rk == setup_keys(refs@),
            setup_keys(out@) == o + rk.take(k as int),
        decreases refs@.len() - k,
    {
        let ghost before = setup_keys(out@);
        assert(rk[k as int] == (refs@[k as int].0@, refs@[k as int].1));
        out.push((refs[k].0.clone(), refs[k].1));
        assert(setup_keys(out@) =~= before.push(rk[k as int]));
        assert(o + rk.take(k as int + 1) =~= (o + rk.take(k as int)).push(rk[k as int]));
        k = k + 1;
    }
    assert(rk.take(k as int) =~= rk);
}

proof fn lemma_concat_contains<A>(a: Seq<A>, b: Seq<A>, x: A)
    ensures
        (a + b).contains(x) <==> a.contains(x) || b.contains(x),
{
    let c = a + b;
    if c.contains(x) {
        let j = choose|j: int| 0 <= j < c.len() && c[j] == x;
        if j < a.len() {
            assert(a[j] == x);
        } else {
            assert(b[j - a.len()] == x);
        }
    }
    if a.contains(x) {
        let j = choose|j: int| 0 <= j < a.len() && a[j] == x;
        assert(c[j] == x);
    }
    if b.contains(x) {
        let j = choose|j: int| 0 <= j < b.len() && b[j] == x;
        assert(c[a.len() + j] == x);
    }
}

/// Popping a revision already visited keeps the worklist state.
proof fn lemma_skip_step(
    g: Seq<CompositionView>,
    roots: Seq<SetupKey>,
    extra: Seq<IntentKey>,
    v: Seq<SetupKey>,
    p: Seq<SetupKey>,
    key: SetupKey,
    r: Seq<IntentKey>,
)
    requires
        worklist_state(g, roots, extra, v, p.push(key), r),
        v.contains(key),
    ensures
        worklist_state(g, roots, extra, v, p, r),
{
    assert forall|x: SetupKey| p.contains(x) implies reachable(g, roots, x) by {
        lemma_push_contains(p, key, x);
    }
    assert forall|a: SetupKey, b: SetupKey| v.contains(a) && #[trigger] includes_edge(g, a, b) implies v.contains(b) || p.contains(b) by {
        lemma_push_contains(p, key, b);
    }
    assert forall|a: SetupKey| roots.contains(a) implies v.contains(a) || p.contains(a) by {
        lemma_push_contains(p, key, a);
    }
}

/// Visiting a popped revision `key`, held at index `i`, keeps the worklist
/// state once its intents are referenced and its inclusions queued.
proof fn lemma_visit_step(
    g: Seq<CompositionView>,
    roots: Seq<SetupKey>,
    extra: Seq<IntentKey>,
    v: Seq<SetupKey>,
    p: Seq<SetupKey>,
    key: SetupKey,
    i: int,
    r: Seq<IntentKey>,
    r2: Seq<IntentKey>,
)
    requires
        distinct_keys(g),
        worklist_state(g, roots, extra, v, p.push(key), r),
        !v.contains(key),
        node_at(g, key, i),
        r2.no_duplicates(),
        forall|x: IntentKey| r2.contains(x) <==> (r.contains(x) || g[i].intents.contains(x)),
    ensures
        worklist_state(g, roots, extra, v.push(key), p + g[i].includes, r2),
        v.push(key).len() <= g.len(),
{
    let v1 = v.push(key);
    let p2 = p + g[i].includes;
    lemma_push_contains(p, key, key);
    assert forall|a: int, b: int| 0 <= a < b < v1.len() implies v1[a] != v1[b] by {
        if b == v.len() {
            assert(v.contains(v[a]));
        }
    }
    assert forall|x: SetupKey| v1.contains(x) implies present(g, x) && reachable(g, roots, x) by {
        lemma_push_contains(v, key, x);
    }
    lemma_stack_bound(g, v1);
    assert forall|x: SetupKey| p2.contains(x) implies reachable(g, roots, x) by {
        lemma_concat_contains(p, g[i].includes, x);
        lemma_push_contains(p, key, x);
        if g[i].includes.contains(x) {
            assert(includes_edge(g, key, x));
            lemma_reach_step(g, roots, key, x);
        }
    }
    assert forall|a: SetupKey, b: SetupKey| v1.contains(a) && #[trigger] includes_edge(g, a, b) implies v1.contains(b) || p2.contains(b) by {
        lemma_push_contains(v, key, a);
        lemma_push_contains(v, key, b);
        lemma_push_contains(p, key, b);
        lemma_concat_contains(p, g[i].includes, b);
        if a == key {
            let j = choose|j: int| node_at(g, key, j) && g[j].includes.contains(b);
            if j != i {
                if j < i {
                    assert(g[j].key != g[i].key);
                } else {
                    assert(g[i].key != g[j].key);
                }
            }
        }
    }
    assert forall|a: SetupKey| roots.contains(a) implies v1.contains(a) || p2.contains(a) by {
        lemma_push_contains(v, key, a);
        lemma_push_contains(p, key, a);
        lemma_concat_contains(p, g[i].includes, a);
    }
    assert forall|x: IntentKey| r2.contains(x) <==> (extra.contains(x) || exists|j: int| 0 <= j < g.len() && v1.contains(g[j].key)
        && #[trigger] g[j].intents.contains(x)) by {
        if exists|j: int| 0 <= j < g.len() && v1.contains(g[j].key) && #[trigger] g[j].intents.contains(x) {
            let j = choose|j: int| 0 <= j < g.len() && v1.contains(g[j].key) && #[trigger] g[j].intents.contains(x);
            lemma_push_contains(v, key, g[j].key);
            if !v.contains(g[j].key) && j != i {
                if j < i {
                    assert(g[j].key != g[i].key);
                } else {
                    assert(g[i].key != g[j].key);
                }
            }
        }
        if g[i].intents.contains(x) {
            lemma_push_contains(v, key, key);
            assert(v1.contains(g[i].key) && g[i].intents.contains(x));
        }
        if exists|j: int| 0 <= j < g.len() && v.contains(g[j].key) && #[trigger] g[j].intents.contains(x) {
            let j = choose|j: int| 0 <= j < g.len() && v.contains(g[j].key) && #[trigger] g[j].intents.contains(x);
            lemma_push_contains(v, key, g[j].key);
        }
    }
}

/// Once nothing is pending, the visited revisions are exactly the
/// reachable revisions of the bundle, and the referenced intent revisions
/// exactly those of the closure.
proof fn lemma_closure_done(
    g: Seq<CompositionView>,
    roots: Seq<SetupKey>,
    extra: Seq<IntentKey>,
    v: Seq<SetupKey>,
    r: Seq<IntentKey>,
)
    requires
        distinct_keys(g),
        worklist_state(g, roots, extra, v, Seq::<SetupKey>::empty(), r),
    ensures
        forall|k: SetupKey| reachable(g, roots, k) ==> present(g, k),
        (v.len() == g.len()) <==> (forall|i: int| 0 <= i < g.len() ==> reachable(g, roots, #[trigger] g[i].key)),
        forall|x: IntentKey| r.contains(x) <==> closure_intent(g, roots, extra, x),
{
    let e = Seq::<SetupKey>::empty();
    assert(closed_in(g, v)) by {
        assert forall|x: SetupKey, b: SetupKey| v.contains(x) && #[trigger] includes_edge(g, x, b) implies v.contains(b) by {
            assert(!e.contains(b));
        }
    }
    assert forall|x: SetupKey| reachable(g, roots, x) implies v.contains(x) by {
        let p = choose|p: Seq<SetupKey>| p.len() >= 1 && is_walk(g, p) && roots.contains(p[0]) && p.last() == x;
        assert(!e.contains(p[0]));
        lemma_walk_stays(g, v, p, 0);
        assert(v.contains(p[p.len() - 1]));
    }
    let keys = keys_of(g);
    assert forall|x: SetupKey| v.contains(x) implies keys.contains(x) by {
        let j = choose|j: int| node_at(g, x, j);
        assert(keys[j] == x);
    }
    assert forall|a: int, b: int| 0 <= a < b < keys.len() implies keys[a] != keys[b] by {
        assert(g[a].key != g[b].key);
    }
    lemma_same_members(v, keys);
    if forall|i: int| 0 <= i < g.len() ==> reachable(g, roots, #[trigger] g[i].key) {
        assert forall|x: SetupKey| keys.contains(x) implies v.contains(x) by {
            let j = choose|j: int| 0 <= j < keys.len() && keys[j] == x;
            assert(reachable(g, roots, g[j].key));
        }
    }
    if forall|x: SetupKey| keys.contains(x) ==> v.contains(x) {
        assert forall|i: int| 0 <= i < g.len() implies reachable(g, roots, #[trigger] g[i].key) by {
            assert(keys[i] == g[i].key);
            assert(keys.contains(g[i].key));
        }
    }
    assert forall|x: IntentKey| r.contains(x) <==> closure_intent(g, roots, extra, x) by {
        if exists|j: int| 0 <= j < g.len() && reachable(g, roots, g[j].key) && #[trigger] g[j].intents.contains(x) {
            let j = choose|j: int| 0 <= j < g.len() && reachable(g, roots, g[j].key) && #[trigger] g[j].intents.contains(x);
            assert(v.contains(g[j].key));
        }
        if exists|j: int| 0 <= j < g.len() && v.contains(g[j].key) && #[trigger] g[j].intents.contains(x) {
            let j = choose|j: int| 0 <= j < g.len() && v.contains(g[j].key) && #[trigger] g[j].intents.contains(x);
            assert(reachable(g, roots, g[j].key));
        }
    }
}

/// Walks setup inclusion from `roots` and checks that the bundle holds
/// exactly what they, with the intent revisions `extra`, reach (see
/// [`exact_closure`]).
fn check_closure(
    roots: &Vec<(String, u32)>,
    extra: &Vec<(String, u64)>,
    setups: &Vec<SetupComposition>,
    intents: &Vec<(String, u64)>,
    missing: &str,
    unrelated_setups: &str,
    unrelated_intents: &str,
) -> (r: Result<(), LibraryError>)
    requires
        distinct_keys(graph(setups@)),
        intent_keys(intents@).no_duplicates(),
    ensures
        r is Ok <==> exact_closure(graph(setups@), setup_keys(roots@), intent_keys(extra@), intent_keys(intents@)),
        r matches Err(e) ==> e is PortableFormat,
{
    let ghost g = graph(setups@);
    let ghost rs = setup_keys(roots@);
    let ghost ex = intent_keys(extra@);
    let ghost ik = intent_keys(intents@);
    let mut pending: Vec<(String, u32)> = Vec::new();
    assert(setup_keys(pending@) =~= Seq::<SetupKey>::empty());
    append_setup_refs(&mut pending, roots);
    assert(setup_keys(pending@) =~= rs);
    let mut referenced: Vec<(String, u64)> = Vec::new();
    assert(intent_keys(referenced@) =~= Seq::<IntentKey>::empty());
    add_intent_refs(&mut referenced, extra);
    let mut visited: Vec<(String, u32)> = Vec::new();
    proof {
        let v = setup_keys(visited@);
        let r = intent_keys(referenced@);
        assert(v =~= Seq::<SetupKey>::empty());
        assert forall|x: SetupKey| rs.contains(x) implies reachable(g, rs, x) by {
            lemma_root_reachable(g, rs, x);
        }
        assert forall|x: IntentKey| r.contains(x) <==> (ex.contains(x) || exists|i: int| 0 <= i < g.len() && v.contains(g[i].key)
            && #[trigger] g[i].intents.contains(x)) by {
            assert(r.contains(x) <==> (Seq::<IntentKey>::empty().contains(x) || ex.contains(x)));
        }
    }
    while pending.len() > 0
        invariant
            g == graph(setups@),
            rs == setup_keys(roots@),
            ex == intent_keys(extra@),
            ik == intent_keys(intents@),
            distinct_keys(g),
            worklist_state(g, rs, ex, setup_keys(visited@), setup_keys(pending@), intent_keys(referenced@)),
        decreases g.len() - visited@.len(), pending@.len(),
    {
        let ghost v0 = setup_keys(visited@);
        let ghost p0 = setup_keys(pending@);
        let ghost r0 = intent_keys(referenced@);
        let ghost pv0 = pending@;
        let (id, revision) = pending.pop().unwrap();
        let ghost key = (id@, revision);
        let ghost p1 = setup_keys(pending@);
        assert(pending@ == pv0.drop_last());
        assert(p0 =~= p1.push(key)) by {
            assert(p0[p0.len() - 1] == (pv0[pv0.len() - 1].0@, pv0[pv0.len() - 1].1));
        }
        if holds_key(&visited, &id, revision) {
            proof {
                lemma_skip_step(g, rs, ex, v0, p1, key, r0);
            }
            continue;
        }
        let i = match find_composition(setups, &id, revision) {
            Some(i) => i,
            None => {
                proof {
                    lemma_push_contains(p1, key, key);
                    assert(reachable(g, rs, key));
                }
                return Err(bundle_error(missing));
            },
        };
        assert(g[i as int] == setups@[i as int]@);
        visited.push((id, revision));
        assert(setup_keys(visited@) =~= v0.push(key));
        add_intent_refs(&mut referenced, &setups[i].intent_revisions);
        append_setup_refs(&mut pending, &setups[i].included_revisions);
        proof {
            let r2 = intent_keys(referenced@);
            assert(g[i as int].intents == intent_keys(setups@[i as int].intent_revisions@));
            assert(g[i as int].includes == setup_keys(setups@[i as int].included_revisions@));
            assert forall|x: IntentKey| r2.contains(x) <==> (r0.contains(x) || g[i as int].intents.contains(x)) by {
                assert(r2.contains(x) <==> (r0.contains(x) || intent_keys(setups@[i as int].intent_revisions@).contains(x)));
            }
            lemma_visit_step(g, rs, ex, v0, p1, key, i as int, r0, intent_keys(referenced@));
        }
    }
    let ghost vf = setup_keys(visited@);
    let ghost rf = intent_keys(referenced@);
    proof {
        assert(setup_keys(pending@) =~= Seq::<SetupKey>::empty());
        lemma_closure_done(g, rs, ex, vf, rf);
    }
    if visited.len() != setups.len() {
        return Err(bundle_error(unrelated_setups));
    }
    if referenced.len() != intents.len() {
        proof {
            if exact_closure(g, rs, ex, ik) {
                assert forall|x: IntentKey| rf.contains(x) implies ik.contains(x) by {
                    assert(rf.contains(x) <==> closure_intent(g, rs, ex, x));
                    assert(closure_intent(g, rs, ex, x) <==> ik.contains(x));
                }
                lemma_same_members(rf, ik);
                assert forall|x: IntentKey| ik.contains(x) implies rf.contains(x) by {
                    assert(rf.contains(x) <==> closure_intent(g, rs, ex, x));
                    assert(closure_intent(g, rs, ex, x) <==> ik.contains(x));
                }
            }
        }
        return Err(bundle_error(unrelated_intents));
    }
    let mut k: usize = 0;
    while k < referenced.len()
        invariant
            k <= referenced@.len(),
            rf == intent_keys(referenced@),
            ik == intent_keys(intents@),
            g == graph(setups@),
            rs == setup_keys(roots@),
            ex == intent_keys(extra@),
            forall|x: IntentKey| rf.contains(x) <==> closure_intent(g, rs, ex, x),
            forall|j: int| 0 <= j < k ==> ik.contains(#[trigger] rf[j]),
        decreases referenced@.len() - k,
    {
        assert(rf[k as int] == (referenced@[k as int].0@, referenced@[k as int].1));
        if !holds_intent(intents, &referenced[k].0, referenced[k].1) {
            proof {
                assert(rf.contains(rf[k as int]));
                if exact_closure(g, rs, ex, ik) {
                    assert(rf.contains(rf[k as int]) <==> closure_intent(g, rs, ex, rf[k as int]));
                    assert(closure_intent(g, rs, ex, rf[k as int]) <==> ik.contains(rf[k as int]));
                }
            }
            return Err(bundle_error(unrelated_intents));
        }
        k = k + 1;
    }
    proof {
        assert forall|x: IntentKey| rf.contains(x) implies ik.contains(x) by {
            let j = choose|j: int| 0 <= j < rf.len() && rf[j] == x;
            assert(ik.contains(rf[j]));
        }
        lemma_same_members(rf, ik);
        assert forall|x: IntentKey| closure_intent(g, rs, ex, x) <==> ik.contains(x) by {
            assert(rf.contains(x) <==> closure_intent(g, rs, ex, x));
        }
    }
    Ok(())
}

/// The bundle holds exactly the setup revisions reachable from `root`
/// and the intent revisions they reference.
fn validate_reachable_setup_closure(root: &(String, u32), setups: &Vec<SetupComposition>, intents: &Vec<(String, u64)>) -> (r: Result<(), LibraryError>)
    requires
        distinct_keys(graph(setups@)),
        intent_keys(intents@).no_duplicates(),
    ensures
        r is Ok <==> exact_closure(graph(setups@), seq![(root.0@, root.1)], Seq::<IntentKey>::empty(), intent_keys(intents@)),
        r matches Err(e) ==> e is PortableFormat,
{
    let roots = vec![(root.0.clone(), root.1)];
    let extra: Vec<(String, u64)> = Vec::new();
    assert(setup_keys(roots@) =~= seq![(root.0@, root.1)]);
    assert(intent_keys(extra@) =~= Seq::<IntentKey>::empty());
    check_closure(
        &roots,
        &extra,
        setups,
        intents,
        "setup closure contains missing revision",
        "setup bundle contains unrelated setup revisions outside the root closure",
        "setup bundle contains missing or unrelated intent revisions",
    )
}

/// The bundle holds exactly the setup revisions reachable from the
/// profile's setups, and the intent revisions that the profile and they
/// reference.
fn validate_profile_closure(
    profile_intents: &Vec<(String, u64)>,
    profile_setups: &Vec<(String, u32)>,
    setups: &Vec<SetupComposition>,
    intents: &Vec<(String, u64)>,
) -> (r: Result<(), LibraryError>)
    requires
        distinct_keys(graph(setups@)),
        intent_keys(intents@).no_duplicates(),
    ensures
        r is Ok <==> exact_closure(graph(setups@), setup_keys(profile_setups@), intent_keys(profile_intents@), intent_keys(intents@)),
        r matches Err(e) ==> e is PortableFormat,
{
    check_closure(
        profile_setups,
        profile_intents,
        setups,
        intents,
        "profile closure contains missing setup revision",
        "profile bundle contains unrelated setup revisions outside the profile closure",
        "profile bundle contains missing or unrelated intent revisions",
    )
}

/// A setup bundle is sound: each revision once, at most one revision of
/// each intent, the root held, every
/// reference resolved, no inclusion cycle, and nothing beyond the root's
/// closure.
pub open spec fn setup_bundle_valid(g: Seq<CompositionView>, root: SetupKey, intents: Seq<IntentKey>) -> bool {
    &&& distinct_keys(g)
    &&& intents.no_duplicates()
    &&& intent_ids_distinct(intents)
    &&& present(g, root)
    &&& intents_present(g, intents)
    &&& includes_present(g)
    &&& !has_cycle(g)
    &&& exact_closure(g, seq![root], Seq::<IntentKey>::empty(), intents)
}

/// A profile bundle is sound: a positive revision, each revision once, at
/// most one revision of each intent,
/// every reference of the setups and the profile resolved, no inclusion
/// cycle, and nothing beyond the profile's closure.
pub open spec fn profile_bundle_valid(
    g: Seq<CompositionView>,
    revision: u32,
    profile_intents: Seq<IntentKey>,
    profile_setups: Seq<SetupKey>,
    intents: Seq<IntentKey>,
) -> bool {
    &&& revision > 0
    &&& distinct_keys(g)
    &&& intents.no_duplicates()
    &&& intent_ids_distinct(intents)
    &&& intents_present(g, intents)
    &&& includes_present(g)
    &&& !has_cycle(g)
    &&& forall|x: IntentKey| profile_intents.contains(x) ==> intents.contains(x)
    &&& forall|k: SetupKey| profile_setups.contains(k) ==> present(g, k)
    &&& exact_closure(g, profile_setups, profile_intents, intents)
}

/// Checks a setup bundle's format version and composition (see
/// [`setup_bundle_valid`]).
pub fn validate_setup_bundle(
    format_version: u16,
    root: &(String, u32),
    setups: &Vec<SetupComposition>,
    intents: &Vec<(String, u64)>,
) -> (r: Result<(), LibraryError>)
    ensures
        format_version > PORTABLE_FORMAT_VERSION ==> r == Err::<(), LibraryError>(LibraryError::UnsupportedPortableFormat { found: format_version, supported: PORTABLE_FORMAT_VERSION }),
        format_version < PORTABLE_FORMAT_VERSION ==> (r matches Err(e) && e is PortableFormat),
        format_version == PORTABLE_FORMAT_VERSION ==> {
            &&& r is Ok <==> setup_bundle_valid(graph(setups@), (root.0@, root.1), intent_keys(intents@))
            &&& r matches Err(e) ==> e is PortableFormat
        },
{
    if let Err(e) = validate_version(format_version) {
        return Err(e);
    }
    if let Err(e) = unique_setup_keys(setups) {
        return Err(e);
    }
    if let Err(e) = unique_intent_keys(intents) {
        return Err(e);
    }
    if let Err(e) = one_revision_per_intent(intents) {
        return Err(e);
    }
    if find_composition(setups, &root.0, root.1).is_none() {
        return Err(bundle_error("root setup revision is not present in bundle"));
    }
    if let Err(e) = validate_composition(setups, intents) {
        return Err(e);
    }
    validate_reachable_setup_closure(root, setups, intents)
}

/// Checks a profile bundle's format version and composition (see
/// [`profile_bundle_valid`]).
pub fn validate_profile_bundle(
    format_version: u16,
    profile_revision: u32,
    profile_intents: &Vec<(String, u64)>,
    profile_setups: &Vec<(String, u32)>,
    setups: &Vec<SetupComposition>,
    intents: &Vec<(String, u64)>,
) -> (r: Result<(), LibraryError>)
    ensures
        format_version > PORTABLE_FORMAT_VERSION ==> r == Err::<(), LibraryError>(LibraryError::UnsupportedPortableFormat { found: format_version, supported: PORTABLE_FORMAT_VERSION }),
        format_version < PORTABLE_FORMAT_VERSION ==> (r matches Err(e) && e is PortableFormat),
        format_version == PORTABLE_FORMAT_VERSION ==> {
            &&& r is Ok <==> profile_bundle_valid(graph(setups@), profile_revision, intent_keys(profile_intents@),
                setup_keys(profile_setups@), intent_keys(intents@))
            &&& r matches Err(e) ==> e is PortableFormat
        },
{
    if let Err(e) = validate_version(format_version) {
        return Err(e);
    }
    if profile_revision == 0 {
        return Err(bundle_error("profile revision must be positive"));
    }
    if let Err(e) = unique_setup_keys(setups) {
        return Err(e);
    }
    if let Err(e) = unique_intent_keys(intents) {
        return Err(e);
    }
    if let Err(e) = one_revision_per_intent(intents) {
        return Err(e);
    }
    if let Err(e) = validate_composition(setups, intents) {
        return Err(e);
    }
    let ghost pi = intent_keys(profile_intents@);
    let ghost ps = setup_keys(profile_setups@);
    let mut k: usize = 0;
    while k < profile_intents.len()
        invariant
            k <= profile_intents@.len(),
            pi == intent_keys(profile_intents@),
            format_version == PORTABLE_FORMAT_VERSION,
            forall|j: int| 0 <= j < k ==> intent_keys(intents@).contains(#[trigger] pi[j]),
        decreases profile_intents@.len() - k,
    {
        assert(pi[k as int] == (profile_intents@[k as int].0@, profile_intents@[k as int].1));
        if !holds_intent(intents, &profile_intents[k].0, profile_intents[k].1) {
            assert(pi.contains(pi[k as int]));
            return Err(bundle_error("profile references missing intent"));
        }
        k = k + 1;
    }
    let mut k: usize = 0;
    while k < profile_setups.len()
        invariant
            k <= profile_setups@.len(),
            ps == setup_keys(profile_setups@),
            format_version == PORTABLE_FORMAT_VERSION,
            forall|j: int| 0 <= j < k ==> present(graph(setups@), #[trigger] ps[j]),
        decreases profile_setups@.len() - k,
    {
        assert(ps[k as int] == (profile_setups@[k as int].0@, profile_setups@[k as int].1));
        if find_composition(setups, &profile_setups[k].0, profile_setups[k].1).is_none() {
            assert(ps.contains(ps[k as int]));
            return Err(bundle_error("profile references missing setup"));
        }
        k = k + 1;
    }
    proof {
        assert forall|x: IntentKey| pi.contains(x) implies intent_keys(intents@).contains(x) by {
            let j = choose|j: int| 0 <= j < pi.len() && pi[j] == x;
            assert(intent_keys(intents@).contains(pi[j]));
        }
        assert forall|x: SetupKey| ps.contains(x) implies present(graph(setups@), x) by {
            let j = choose|j: int| 0 <= j < ps.len() && ps[j] == x;
            assert(present(graph(setups@), ps[j]));
        }
    }
    validate_profile_closure(profile_intents, profile_setups, setups, intents)
}

} // verus!
