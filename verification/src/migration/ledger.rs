//! The set of applied migration identifiers.
use vstd::prelude::*;
use crate::migration::descriptor::{valid_identifier, valid_migration_id, MigrationError};
use crate::order::{compare_chars, lemma_push_to_set, lemma_lt_irreflexive, lemma_lt_total, lemma_lt_transitive, seq_lt, strictly_sorted, Order};
use crate::text::chars_of;

verus! {

/// The views of a list of strings.
pub open spec fn string_views(v: Seq<String>) -> Seq<Seq<char>> {
    v.map_values(|s: String| s@)
}

/// Applied migration identifiers, kept sorted and free of duplicates.
#[derive(Debug)]
pub struct MigrationLedger {
    applied: Vec<String>,
}

impl View for MigrationLedger {
    type V = Seq<Seq<char>>;

    /// The applied identifiers in ascending order.
    closed spec fn view(&self) -> Seq<Seq<char>> {
        string_views(self.applied@)
    }
}

/// Every identifier is a valid migration identifier.
pub open spec fn all_valid_ids(ids: Seq<Seq<char>>) -> bool {
    forall|i: int| 0 <= i < ids.len() ==> valid_identifier(#[trigger] ids[i], 128)
}

/// A well-formed ledger listing: valid identifiers in strictly ascending order.
pub open spec fn ledger_listing(ids: Seq<Seq<char>>) -> bool {
    all_valid_ids(ids) && strictly_sorted(ids)
}

/// `ids` contains no identifier twice.
pub open spec fn distinct(ids: Seq<Seq<char>>) -> bool {
    forall|i: int, j: int| 0 <= i < j < ids.len() ==> #[trigger] ids[i] != #[trigger] ids[j]
}

pub proof fn lemma_sorted_distinct(ids: Seq<Seq<char>>)
    requires
        strictly_sorted(ids),
    ensures
        distinct(ids),
{
    assert forall|i: int, j: int| 0 <= i < j < ids.len() implies #[trigger] ids[i] != #[trigger] ids[j] by {
        assert(seq_lt(ids[i], ids[j]));
        lemma_lt_irreflexive(ids[i]);
    }
}

/// Two sorted listings with the same elements are equal.
pub proof fn lemma_sorted_unique(a: Seq<Seq<char>>, b: Seq<Seq<char>>)
    requires
        strictly_sorted(a),
        strictly_sorted(b),
        a.to_set() == b.to_set(),
    ensures
        a == b,
    decreases a.len(),
{
    lemma_sorted_distinct(a);
    lemma_sorted_distinct(b);
    if a.len() == 0 {
        if b.len() > 0 {
            assert(b.to_set().contains(b[0]));
        }
    } else {
        assert(a.to_set().contains(a[0]));
        assert(b.len() > 0);
        assert(b.to_set().contains(b[0]));
        let i = choose|i: int| 0 <= i < b.len() && b[i] == a[0];
        let j = choose|j: int| 0 <= j < a.len() && a[j] == b[0];
        if i > 0 {
            assert(seq_lt(b[0], b[i]));
            if j > 0 {
                assert(seq_lt(a[0], a[j]));
                lemma_lt_total(a[0], b[0]);
            } else {
                lemma_lt_irreflexive(b[0]);
            }
        }
        assert(a[0] == b[0]);
        let a1 = a.drop_first();
        let b1 = b.drop_first();
        assert forall|x: Seq<char>| a1.to_set().contains(x) implies b1.to_set().contains(x) by {
            let k = choose|k: int| 0 <= k < a1.len() && a1[k] == x;
            assert(a.to_set().contains(a[k + 1]));
            let m = choose|m: int| 0 <= m < b.len() && b[m] == x;
            if m == 0 {
                assert(a[0] == a[k + 1]);
            }
            assert(b1[m - 1] == x);
        }
        assert forall|x: Seq<char>| b1.to_set().contains(x) implies a1.to_set().contains(x) by {
            let k = choose|k: int| 0 <= k < b1.len() && b1[k] == x;
            assert(b.to_set().contains(b[k + 1]));
            let m = choose|m: int| 0 <= m < a.len() && a[m] == x;
            if m == 0 {
                assert(b[0] == b[k + 1]);
            }
            assert(a1[m - 1] == x);
        }
        assert(a1.to_set() =~= b1.to_set());
        lemma_sorted_unique(a1, b1);
        assert(a =~= b) by {
            assert forall|k: int| 0 <= k < a.len() implies a[k] == b[k] by {
                if k > 0 {
                    assert(a[k] == a1[k - 1]);
                    assert(b[k] == b1[k - 1]);
                }
            }
        }
    }
}

/// Inserts `id` into the sorted list `v`; false when it is already there.
fn insert_sorted(v: &mut Vec<String>, id: String) -> (inserted: bool)
    requires
        strictly_sorted(string_views(old(v)@)),
    ensures
        strictly_sorted(string_views(final(v)@)),
        inserted == !string_views(old(v)@).contains(id@),
        string_views(final(v)@).to_set() == string_views(old(v)@).to_set().insert(id@),
        forall|x: Seq<char>| string_views(final(v)@).contains(x) ==> string_views(old(v)@).contains(x) || x == id@,
{
    let key = chars_of(id.as_str());
    let ghost old_views = string_views(v@);
    let mut i: usize = 0;
    let mut stop = false;
    while i < v.len() && !stop
        invariant
            i <= v@.len(),
            key@ == id@,
            v@ == old(v)@,
            old_views == string_views(v@),
            strictly_sorted(old_views),
            forall|j: int| 0 <= j < i ==> seq_lt(#[trigger] old_views[j], id@),
            stop ==> i < v@.len() && seq_lt(id@, old_views[i as int]),
        decreases v@.len() - i, (if stop { 0int } else { 1int }),
    {
        let current = chars_of(v[i].as_str());
        match compare_chars(&current, &key) {
            Order::Less => {
                i = i + 1;
            },
            Order::Equal => {
                proof {
                    assert(old_views[i as int] == id@);
                    assert(old_views.to_set().insert(id@) =~= old_views.to_set());
                }
                return false;
            },
            Order::Greater => {
                stop = true;
            },
        }
    }
    proof {
        assert forall|j: int| i <= j < old_views.len() implies seq_lt(id@, #[trigger] old_views[j]) by {
            if j > i {
                assert(seq_lt(old_views[i as int], old_views[j]));
                lemma_lt_transitive(id@, old_views[i as int], old_views[j]);
            }
        }
        assert(!old_views.contains(id@)) by {
            if old_views.contains(id@) {
                let k = choose|k: int| 0 <= k < old_views.len() && old_views[k] == id@;
                lemma_lt_irreflexive(id@);
            }
        }
    }
    v.insert(i, id);
    proof {
        let nv = string_views(v@);
        assert(nv == old_views.insert(i as int, id@));
        assert forall|a: int, b: int| 0 <= a < b < nv.len() implies seq_lt(#[trigger] nv[a], #[trigger] nv[b]) by {
            if a < i && b < i {
            } else if a < i && b == i {
            } else if a < i {
                assert(nv[b] == old_views[b - 1]);
            } else if a == i {
                assert(nv[b] == old_views[b - 1]);
            } else {
                assert(nv[a] == old_views[a - 1]);
                assert(nv[b] == old_views[b - 1]);
            }
        }
        assert(nv.to_set() =~= old_views.to_set().insert(id@)) by {
            assert forall|x: Seq<char>| nv.to_set().contains(x) implies old_views.to_set().insert(id@).contains(x) by {
                let k = choose|k: int| 0 <= k < nv.len() && nv[k] == x;
                if k < i {
                    assert(old_views[k] == x);
                } else if k > i {
                    assert(old_views[k - 1] == x);
                }
            }
            assert forall|x: Seq<char>| old_views.to_set().insert(id@).contains(x) implies nv.to_set().contains(x) by {
                if x == id@ {
                    assert(nv[i as int] == x);
                } else {
                    let k = choose|k: int| 0 <= k < old_views.len() && old_views[k] == x;
                    if k < i {
                        assert(nv[k] == x);
                    } else {
                        assert(nv[k + 1] == x);
                    }
                }
            }
        }
        assert forall|x: Seq<char>| nv.contains(x) implies old_views.contains(x) || x == id@ by {
            assert(nv.to_set().contains(x));
            assert(old_views.to_set().insert(id@).contains(x));
        }
    }
    true
}

impl MigrationLedger {
    #[verifier::type_invariant]
    closed spec fn inv(self) -> bool {
        ledger_listing(string_views(self.applied@))
    }

    /// The empty ledger.
    pub fn new() -> (r: Self)
        ensures
            r@ == Seq::<Seq<char>>::empty(),
    {
        let r = MigrationLedger { applied: Vec::new() };
        assert(string_views(r.applied@) =~= Seq::<Seq<char>>::empty());
        r
    }

    /// Builds a ledger from persisted identifiers, rejecting invalid and
    /// duplicated ones.
    pub fn from_applied(applied: Vec<String>) -> (r: Result<Self, MigrationError>)
        ensures
            r is Ok <==> all_valid_ids(string_views(applied@)) && distinct(string_views(applied@)),
            r matches Ok(l) ==> l@.to_set() == string_views(applied@).to_set() && ledger_listing(l@),
            r matches Err(e) ==> e is CorruptLedger,
    {
        let ghost input = string_views(applied@);
        let mut ledger = MigrationLedger::new();
        let mut i: usize = 0;
        while i < applied.len()
            invariant
                i <= applied@.len(),
                input == string_views(applied@),
                all_valid_ids(input.take(i as int)),
                distinct(input.take(i as int)),
                ledger@.to_set() == input.take(i as int).to_set(),
            decreases applied@.len() - i,
        {
            let id = applied[i].clone();
            proof {
                use_type_invariant(&ledger);
                assert(input.take(i as int + 1) == input.take(i as int).push(input[i as int]));
            }
            if !valid_migration_id(id.as_str()) {
                proof {
                    assert(!valid_identifier(input.take(i as int + 1)[i as int], 128));
                }
                return Err(MigrationError::CorruptLedger("persisted migration id is invalid".to_string()));
            }
            let ghost before = ledger@;
            let mut applied_ids = ledger.applied;
            let inserted = insert_sorted(&mut applied_ids, id);
            if !inserted {
                proof {
                    assert(before.to_set().contains(input[i as int]));
                    let k = choose|k: int| 0 <= k < i && input.take(i as int)[k] == input[i as int];
                    assert(input.take(i as int + 1)[k] == input.take(i as int + 1)[i as int]);
                }
                return Err(MigrationError::CorruptLedger(
                    "persisted migration ledger contains a duplicate id".to_string(),
                ));
            }
            proof {
                let nv = string_views(applied_ids@);
                assert forall|k: int| 0 <= k < nv.len() implies valid_identifier(#[trigger] nv[k], 128) by {
                    assert(nv.contains(nv[k]));
                    if before.contains(nv[k]) {
                        let m = choose|m: int| 0 <= m < before.len() && before[m] == nv[k];
                    }
                }
                assert forall|a: int, b: int| 0 <= a < b < i + 1 implies #[trigger] input.take(i as int + 1)[a] != #[trigger] input.take(i as int + 1)[b] by {
                    if b == i {
                        assert(input.take(i as int)[a] == input[a]);
                        assert(input.take(i as int).to_set().contains(input[a]));
                    } else {
                        assert(input.take(i as int)[a] != input.take(i as int)[b]);
                    }
                }
                lemma_push_to_set(input.take(i as int), input[i as int]);
            }
            ledger = MigrationLedger { applied: applied_ids };
            i = i + 1;
        }
        assert(input.take(applied@.len() as int) == input);
        proof {
            use_type_invariant(&ledger);
        }
        Ok(ledger)
    }

    /// Whether `id` has been applied.
    pub fn is_applied(&self, id: &str) -> (r: bool)
        ensures
            r == self@.contains(id@),
    {
        let key = chars_of(id);
        let mut i: usize = 0;
        while i < self.applied.len()
            invariant
                i <= self.applied@.len(),
                key@ == id@,
                forall|j: int| 0 <= j < i ==> #[trigger] string_views(self.applied@)[j] != id@,
            decreases self.applied@.len() - i,
        {
            let current = chars_of(self.applied[i].as_str());
            if compare_chars(&current, &key) == Order::Equal {
                assert(self@[i as int] == id@);
                return true;
            }
            i = i + 1;
        }
        false
    }

    /// Records `id` as applied.
    pub fn mark_applied(&mut self, id: String) -> (r: Result<(), MigrationError>)
        ensures
            r is Ok <==> valid_identifier(id@, 128),
            r is Ok ==> final(self)@.to_set() == old(self)@.to_set().insert(id@),
            r is Err ==> final(self)@ == old(self)@,
            r matches Err(e) ==> e is InvalidDescriptor,
    {
        proof {
            use_type_invariant(&*self);
        }
        if !valid_migration_id(id.as_str()) {
            return Err(MigrationError::InvalidDescriptor(
                "migration id must be a bounded path-safe identifier",
            ));
        }
        let mut applied_ids = Vec::new();
        std::mem::swap(&mut applied_ids, &mut self.applied);
        let ghost before = string_views(applied_ids@);
        let _ = insert_sorted(&mut applied_ids, id);
        proof {
            let nv = string_views(applied_ids@);
            assert forall|k: int| 0 <= k < nv.len() implies valid_identifier(#[trigger] nv[k], 128) by {
                assert(nv.contains(nv[k]));
                if before.contains(nv[k]) {
                    let m = choose|m: int| 0 <= m < before.len() && before[m] == nv[k];
                }
            }
        }
        self.applied = applied_ids;
        Ok(())
    }

    /// The applied identifiers in ascending order.
    pub fn applied(&self) -> (r: &[String])
        ensures
            string_views(r@) == self@,
            ledger_listing(self@),
    {
        proof {
            use_type_invariant(self);
        }
        self.applied.as_slice()
    }
}

impl Clone for MigrationLedger {
    fn clone(&self) -> (r: Self)
        ensures
            r@ == self@,
    {
        proof {
            use_type_invariant(self);
        }
        let mut applied: Vec<String> = Vec::new();
        let mut i: usize = 0;
        while i < self.applied.len()
            invariant
                i <= self.applied@.len(),
                applied@.len() == i,
                string_views(applied@) == string_views(self.applied@).take(i as int),
            decreases self.applied@.len() - i,
        {
            let c = self.applied[i].clone();
            assert(c@ == self.applied@[i as int]@);
            let ghost before = applied@;
            applied.push(c);
            assert(applied@ == before.push(c));
            assert forall|k: int| 0 <= k < i + 1 implies #[trigger] string_views(applied@)[k] == string_views(self.applied@)[k] by {
                if k < i {
                    assert(applied@[k] == before[k]);
                    assert(string_views(before)[k] == string_views(self.applied@).take(i as int)[k]);
                }
            }
            assert(string_views(applied@) =~= string_views(self.applied@).take(i as int + 1));
            i = i + 1;
        }
        assert(string_views(self.applied@).take(self.applied@.len() as int) =~= string_views(self.applied@));
        MigrationLedger { applied }
    }
}

impl Default for MigrationLedger {
    fn default() -> (r: Self)
        ensures
            r@ == Seq::<Seq<char>>::empty(),
    {
        MigrationLedger::new()
    }
}

} // verus!
