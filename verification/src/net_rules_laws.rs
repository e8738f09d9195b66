//! What holds of the network policy store across its operations.

use vstd::prelude::*;
use crate::net_policy::{shape_spec, ErrorView, GrantView, ItemView, NetworkPolicyDecision, NetworkPolicyPatchOp, RemoteSelector, SelectorView};
use crate::net_rules::{
    apply_item_spec, apply_items_spec, candidate_spec, find_spec, first_index, first_refusal, lemma_first_index_none,
    lemma_nlower_bound_bounds, lemma_no_refusal_disjoint, lemma_not_owned_by, nkey, nlower_bound, not_owned_by, nupsert,
    overlapping, remotes_disjoint, remove_owner_spec, result_of_candidate, accepted_view, rejected_view, selects,
    NetRuleView, NetStoreModel,
};
use crate::sockaddr::SocketEndpoint;

verus! {

/// Checking a request answers as applying it does: the same status, the
/// same errors, the same count of applied items; only the revision an
/// accepted answer names differs, the current one against the new one.
pub proof fn law_validation_answers_as_apply(
    m: NetStoreModel,
    owner: Seq<char>,
    base_revision: u64,
    mutation_id: Seq<char>,
    items: Seq<ItemView>,
    grants: Seq<GrantView>,
    active: Seq<Seq<char>>,
)
    ensures
        ({
            let c = candidate_spec(m, owner, base_revision, mutation_id, items, grants, active);
            let checked = result_of_candidate(m, c, items.len());
            let applied = match c {
                Ok(n) => accepted_view(n.revision, crate::net_rules::low32(items.len() as int)),
                Err(e) => rejected_view(m.revision, e),
            };
            &&& checked.status == applied.status
            &&& checked.errors == applied.errors
            &&& checked.applied_count == applied.applied_count
            &&& checked.rejected_count == applied.rejected_count
            &&& (c is Ok ==> applied.new_revision == checked.new_revision + 1)
            &&& (c is Err ==> applied.new_revision == checked.new_revision)
        }),
{
    let c = candidate_spec(m, owner, base_revision, mutation_id, items, grants, active);
    if let Ok(n) = c {
        assert(m.revision < u64::MAX);
        assert(n.revision == m.revision + 1);
    }
}

/// An accepted request moves the revision by exactly one, puts in force
/// exactly the stored rules, and leaves no two rules claiming a common
/// remote.
pub proof fn law_accepted_request_moves_revision_once(
    m: NetStoreModel,
    owner: Seq<char>,
    base_revision: u64,
    mutation_id: Seq<char>,
    items: Seq<ItemView>,
    grants: Seq<GrantView>,
    active: Seq<Seq<char>>,
)
    requires
        candidate_spec(m, owner, base_revision, mutation_id, items, grants, active) is Ok,
    ensures
        ({
            let n = candidate_spec(m, owner, base_revision, mutation_id, items, grants, active)->Ok_0;
            &&& n.revision == m.revision + 1
            &&& base_revision == m.revision
            &&& n.effective == n.rules
            &&& remotes_disjoint(n.rules)
        }),
{
    let c = candidate_spec(m, owner, base_revision, mutation_id, items, grants, active);
    let n = c->Ok_0;
    lemma_no_refusal_disjoint(n.rules);
}

/// Removing an owner leaves no rule of it and every rule of the others,
/// and puts the rest in force at the next revision.
pub proof fn law_removed_owner_keeps_no_rule(m: NetStoreModel, owner: Seq<char>)
    requires
        remove_owner_spec(m, owner).1 == Ok::<bool, Seq<char>>(true),
    ensures
        ({
            let after = remove_owner_spec(m, owner).0;
            &&& forall|i: int| 0 <= i < after.rules.len() ==> (#[trigger] after.rules[i]).owner != owner
            &&& forall|i: int| 0 <= i < after.rules.len() ==> m.rules.contains(#[trigger] after.rules[i])
            &&& forall|i: int| 0 <= i < m.rules.len() && (#[trigger] m.rules[i]).owner != owner ==> after.rules.contains(m.rules[i])
            &&& after.effective == after.rules
            &&& after.revision == m.revision + 1
        }),
{
    lemma_not_owned_by(m.rules, owner);
}


/// After an accepted request that upserts one rule for an endpoint, a
/// connect to that endpoint is decided by that rule: the requester's,
/// with the decision and remote it asked for.
pub proof fn law_applied_upsert_is_found(
    m: NetStoreModel,
    owner: Seq<char>,
    base_revision: u64,
    mutation_id: Seq<char>,
    item: ItemView,
    grants: Seq<GrantView>,
    active: Seq<Seq<char>>,
    e: SocketEndpoint,
)
    requires
        item.op == NetworkPolicyPatchOp::Upsert,
        item.rule is Some,
        shape_spec(item.rule.unwrap()) matches Ok(sel) && sel.selector == RemoteSelector::Endpoint(e),
        candidate_spec(m, owner, base_revision, mutation_id, seq![item], grants, active) is Ok,
    ensures
        ({
            let n = candidate_spec(m, owner, base_revision, mutation_id, seq![item], grants, active)->Ok_0;
            let d = item.rule.unwrap();
            find_spec(n.effective, e) matches Some(r) && r.owner == owner && r.decision == d.decision
                && r.remote == shape_spec(d)->Ok_0
        }),
{
    reveal(apply_item_spec);
    let items = seq![item];
    let next_revision = (m.revision + 1) as u64;
    let (m1, r1) = apply_item_spec(m, owner, item, next_revision, grants, active);
    assert(items[0] == item);
    assert(apply_items_spec(m1, owner, items, next_revision, grants, active, 1, Seq::<ErrorView>::empty()) == (m1, Seq::<ErrorView>::empty()));
    let e1: Seq<ErrorView> = match r1 {
        Ok(_) => Seq::empty(),
        Err(msg) => Seq::<ErrorView>::empty().push((crate::net_rules::low32(0), "invalid-rule"@, msg)),
    };
    assert(apply_items_spec(m, owner, items, next_revision, grants, active, 0, Seq::empty())
        == apply_items_spec(m1, owner, items, next_revision, grants, active, 1, e1));
    assert(apply_items_spec(m1, owner, items, next_revision, grants, active, 1, e1) == (m1, e1));
    assert(r1 is Ok);
    let d = item.rule.unwrap();
    let sel = shape_spec(d)->Ok_0;
    let n = candidate_spec(m, owner, base_revision, mutation_id, items, grants, active)->Ok_0;
    assert(n.effective == m1.rules);
    let rid = crate::net_rules::chosen_rule_id(item.rule_id, d.rule_id, m.next_rule_id);
    let rule = NetRuleView {
        owner,
        rule_id: rid,
        decision: d.decision,
        remote: sel,
        gray_target: d.gray_target,
        timeout_ms: d.timeout_ms,
        concurrency_limit: d.concurrency_limit,
        fallback: crate::net_rules::fallback_decision(d.fallback),
        rule_revision: next_revision,
        updated_sequence: (m.next_sequence + 1) as u64,
    };
    assert(m1.rules == nupsert(m.rules, rule));
    lemma_nlower_bound_bounds(m.rules, nkey(rule));
    let p = nlower_bound(m.rules, nkey(rule));
    let eff = m1.rules;
    assert(eff[p] == rule);
    assert(first_refusal(eff) is None);
    lemma_no_refusal_disjoint(eff);
    lemma_first_index_none(eff, selects(RemoteSelector::Endpoint(e)));
    assert(selects(RemoteSelector::Endpoint(e))(eff[p]));
    let j = first_index(eff, selects(RemoteSelector::Endpoint(e)))->Some_0;
    if j != p {
        assert(overlapping(eff[j].remote.selector, eff[p].remote.selector));
        if j < p {
            assert(!overlapping(eff[j].remote.selector, eff[p].remote.selector));
        } else {
            assert(!overlapping(eff[p].remote.selector, eff[j].remote.selector));
        }
    }
}

} // verus!
