//! What removing an intent would do to the resources it desires: each is
//! removable, retained because another complete active intent desires it
//! too, or indeterminate while causal knowledge is incomplete.

use vstd::prelude::*;

verus! {

/// A desired resource: its provider, resource and observation capability.
pub struct ResourceIdentity {
    pub provider: String,
    pub resource: String,
    pub capability: String,
}

pub type IdentityView = (Seq<char>, Seq<char>, Seq<char>);

impl View for ResourceIdentity {
    type V = IdentityView;

    open spec fn view(&self) -> IdentityView {
        (self.provider@, self.resource@, self.capability@)
    }
}

/// The classification of an intent's desired resources.
pub struct RemovalImpactReport {
    pub removable: Vec<ResourceIdentity>,
    pub retained_shared: Vec<ResourceIdentity>,
    pub indeterminate: Vec<ResourceIdentity>,
}

pub open spec fn identity_views(v: Seq<ResourceIdentity>) -> Seq<IdentityView> {
    v.map_values(|i: ResourceIdentity| i@)
}

/// The resources, each with the number of other complete active intents
/// that desire it, as views.
pub open spec fn demand_views(v: Seq<(ResourceIdentity, u64)>) -> Seq<(IdentityView, u64)> {
    v.map_values(|e: (ResourceIdentity, u64)| (e.0@, e.1))
}

/// The resources that no other complete active intent desires, in order.
pub open spec fn unshared(rs: Seq<(IdentityView, u64)>) -> Seq<IdentityView>
    decreases rs.len(),
{
    if rs.len() == 0 {
        seq![]
    } else if rs.last().1 == 0 {
        unshared(rs.drop_last()).push(rs.last().0)
    } else {
        unshared(rs.drop_last())
    }
}

/// The resources that another complete active intent desires, in order.
pub open spec fn shared(rs: Seq<(IdentityView, u64)>) -> Seq<IdentityView>
    decreases rs.len(),
{
    if rs.len() == 0 {
        seq![]
    } else if rs.last().1 > 0 {
        shared(rs.drop_last()).push(rs.last().0)
    } else {
        shared(rs.drop_last())
    }
}

/// Classifies the resources that an intent's current causal generation
/// desires. With no recorded generation nothing is affected. While the
/// intent's or any active intent's causal knowledge is incomplete, every
/// resource is indeterminate. Otherwise a resource is retained when another
/// complete active intent desires it, and removable when none does.
pub fn classify_removal_impact(
    causal_generation: u64,
    intent_complete: bool,
    globally_complete: bool,
    resources: Vec<(ResourceIdentity, u64)>,
) -> (r: RemovalImpactReport)
    ensures
        causal_generation == 0 ==> identity_views(r.removable@) == Seq::<IdentityView>::empty()
            && identity_views(r.retained_shared@) == Seq::<IdentityView>::empty()
            && identity_views(r.indeterminate@) == Seq::<IdentityView>::empty(),
        causal_generation != 0 && !(intent_complete && globally_complete) ==> identity_views(r.removable@)
            == Seq::<IdentityView>::empty() && identity_views(r.retained_shared@) == Seq::<IdentityView>::empty()
            && identity_views(r.indeterminate@) == demand_views(resources@).map_values(|e: (IdentityView, u64)| e.0),
        causal_generation != 0 && intent_complete && globally_complete ==> identity_views(r.removable@) == unshared(
            demand_views(resources@),
        ) && identity_views(r.retained_shared@) == shared(demand_views(resources@))
            && identity_views(r.indeterminate@) == Seq::<IdentityView>::empty(),
{
    let mut report = RemovalImpactReport { removable: Vec::new(), retained_shared: Vec::new(), indeterminate: Vec::new() };
    if causal_generation == 0 {
        assert(identity_views(report.removable@) =~= Seq::<IdentityView>::empty());
        assert(identity_views(report.retained_shared@) =~= Seq::<IdentityView>::empty());
        assert(identity_views(report.indeterminate@) =~= Seq::<IdentityView>::empty());
        return report;
    }
    let ghost all = demand_views(resources@);
    let known = intent_complete && globally_complete;
    assert(identity_views(report.removable@) =~= unshared(all.take(0)));
    assert(identity_views(report.retained_shared@) =~= shared(all.take(0)));
    assert(identity_views(report.indeterminate@) =~= all.take(0).map_values(|e: (IdentityView, u64)| e.0));
    let mut k: usize = 0;
    while k < resources.len()
        invariant
            k <= resources@.len(),
            all == demand_views(resources@),
            known == (intent_complete && globally_complete),
            known ==> identity_views(report.removable@) == unshared(all.take(k as int)),
            known ==> identity_views(report.retained_shared@) == shared(all.take(k as int)),
            known ==> identity_views(report.indeterminate@) == Seq::<IdentityView>::empty(),
            !known ==> identity_views(report.removable@) == Seq::<IdentityView>::empty(),
            !known ==> identity_views(report.retained_shared@) == Seq::<IdentityView>::empty(),
            !known ==> identity_views(report.indeterminate@) == all.take(k as int).map_values(
                |e: (IdentityView, u64)| e.0,
            ),
        decreases resources@.len() - k,
    {
        let ghost before_r = identity_views(report.removable@);
        let ghost before_s = identity_views(report.retained_shared@);
        let ghost before_i = identity_views(report.indeterminate@);
        let entry = &resources[k];
        let identity = ResourceIdentity {
            provider: entry.0.provider.clone(),
            resource: entry.0.resource.clone(),
            capability: entry.0.capability.clone(),
        };
        let others = entry.1;
        proof {
            assert(identity@ == all[k as int].0 && others == all[k as int].1);
            assert(all.take(k as int + 1).drop_last() =~= all.take(k as int));
            assert(all.take(k as int + 1).last() == all[k as int]);
        }
        if !known {
            report.indeterminate.push(identity);
            assert(identity_views(report.indeterminate@) =~= before_i.push(all[k as int].0));
            assert(all.take(k as int + 1).map_values(|e: (IdentityView, u64)| e.0) =~= all.take(k as int).map_values(
                |e: (IdentityView, u64)| e.0,
            ).push(all[k as int].0));
        } else if others > 0 {
            report.retained_shared.push(identity);
            assert(identity_views(report.retained_shared@) =~= before_s.push(all[k as int].0));
        } else {
            report.removable.push(identity);
            assert(identity_views(report.removable@) =~= before_r.push(all[k as int].0));
        }
        k = k + 1;
    }
    assert(all.take(resources@.len() as int) =~= all);
    report
}

/// With complete knowledge, removal sorts each resource by whether another
/// complete active intent desires it: a resource is retained as shared
/// exactly when its count of such intents is at least one, and removable
/// exactly when the count is zero; nothing is lost or invented, and the two
/// lists together are as long as the resources.
pub proof fn law_removal_split(rs: Seq<(IdentityView, u64)>)
    ensures
        forall|x: IdentityView| #[trigger] shared(rs).contains(x) <==> exists|i: int|
            0 <= i < rs.len() && rs[i].0 == x && rs[i].1 >= 1,
        forall|x: IdentityView| #[trigger] unshared(rs).contains(x) <==> exists|i: int|
            0 <= i < rs.len() && rs[i].0 == x && rs[i].1 == 0,
        shared(rs).len() + unshared(rs).len() == rs.len(),
    decreases rs.len(),
{
    if rs.len() > 0 {
        let d = rs.drop_last();
        law_removal_split(d);
        let l = rs.last();
        assert forall|x: IdentityView| #[trigger] shared(rs).contains(x) <==> exists|i: int|
            0 <= i < rs.len() && rs[i].0 == x && rs[i].1 >= 1 by {
            if shared(rs).contains(x) {
                if l.1 >= 1 && x == l.0 {
                    assert(rs[rs.len() - 1].0 == x);
                } else {
                    assert(shared(d).contains(x));
                    let i = choose|i: int| 0 <= i < d.len() && d[i].0 == x && d[i].1 >= 1;
                    assert(rs[i] == d[i]);
                }
            }
            if exists|i: int| 0 <= i < rs.len() && rs[i].0 == x && rs[i].1 >= 1 {
                let i = choose|i: int| 0 <= i < rs.len() && rs[i].0 == x && rs[i].1 >= 1;
                if i == rs.len() - 1 {
                    assert(shared(rs) == shared(d).push(l.0));
                    assert(shared(rs)[shared(d).len() as int] == x);
                } else {
                    assert(d[i] == rs[i]);
                    assert(shared(d).contains(x));
                    let j = choose|j: int| 0 <= j < shared(d).len() && shared(d)[j] == x;
                    if l.1 >= 1 {
                        assert(shared(rs)[j] == x);
                    }
                }
            }
        }
        assert forall|x: IdentityView| #[trigger] unshared(rs).contains(x) <==> exists|i: int|
            0 <= i < rs.len() && rs[i].0 == x && rs[i].1 == 0 by {
            if unshared(rs).contains(x) {
                if l.1 == 0 && x == l.0 {
                    assert(rs[rs.len() - 1].0 == x);
                } else {
                    assert(unshared(d).contains(x));
                    let i = choose|i: int| 0 <= i < d.len() && d[i].0 == x && d[i].1 == 0;
                    assert(rs[i] == d[i]);
                }
            }
            if exists|i: int| 0 <= i < rs.len() && rs[i].0 == x && rs[i].1 == 0 {
                let i = choose|i: int| 0 <= i < rs.len() && rs[i].0 == x && rs[i].1 == 0;
                if i == rs.len() - 1 {
                    assert(unshared(rs) == unshared(d).push(l.0));
                    assert(unshared(rs)[unshared(d).len() as int] == x);
                } else {
                    assert(d[i] == rs[i]);
                    assert(unshared(d).contains(x));
                    let j = choose|j: int| 0 <= j < unshared(d).len() && unshared(d)[j] == x;
                    if l.1 == 0 {
                        assert(unshared(rs)[j] == x);
                    }
                }
            }
        }
    }
}

} // verus!
