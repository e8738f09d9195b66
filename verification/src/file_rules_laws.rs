//! What holds of the file-policy rule store across its operations.

use vstd::prelude::*;
use crate::file_policy::{rule_matches_path, filter_accepts, from_draft_spec, opt_text, FilePolicyListFilter, FilePolicyOperation, FilePolicyRulesApplyGrant, PolicyRuleView, RuleListing};
use crate::file_rules::{
    first_where, id_insert, list_spec, listing_order, path_matcher,
    apply_item_spec, apply_items_spec, apply_spec, evaluated_before, evaluation_order, find_key, lemma_apply_item_keeps_revision,
    lemma_find_key, lemma_lower_bound_bounds, lemma_upsert_sorted, lemma_without_owner, lower_bound, next_host_rule_number, rkey,
    sat_inc, sorted_keys, stable_insert, tier_rank, upsert_rule, validate_apply_spec, without_owner, FilePolicyApplyRequest,
    FilePolicyPatchItem, FilePolicyPatchOp, RulesModel,
};

verus! {

/// Law: a dry run (`validate_apply`) reports exactly the errors, and the
/// same rejected count, that applying the same request to the same store
/// reports whenever the application completes.
pub proof fn law_dry_run_reports_what_apply_reports(
    m: RulesModel,
    owner: Seq<char>,
    grants: Seq<FilePolicyRulesApplyGrant>,
    request: FilePolicyApplyRequest,
    active_deciders: Seq<u64>,
)
    ensures
        apply_spec(m, owner, grants, request, active_deciders).1 matches Ok(res) ==> res.errors == validate_apply_spec(
            m,
            owner,
            grants,
            request,
            active_deciders,
        ).errors && res.rejected_count == validate_apply_spec(m, owner, grants, request, active_deciders).rejected_count,
{
}

/// Law: a request whose precondition is refused leaves the store as it was.
pub proof fn law_refused_precondition_changes_nothing(
    m: RulesModel,
    owner: Seq<char>,
    grants: Seq<FilePolicyRulesApplyGrant>,
    request: FilePolicyApplyRequest,
    active_deciders: Seq<u64>,
)
    requires
        crate::file_rules::precondition_rejection(m.revision, request.precondition) is Some,
    ensures
        apply_spec(m, owner, grants, request, active_deciders).0 == m,
{
}

proof fn lemma_items_keep_revision(
    m: RulesModel,
    owner: Seq<char>,
    items: Seq<FilePolicyPatchItem>,
    errors: Seq<(u32, Seq<char>, Seq<char>)>,
    i: int,
    applied: u32,
)
    ensures
        apply_items_spec(m, owner, items, errors, i, applied).0.revision == m.revision,
        apply_items_spec(m, owner, items, errors, i, applied).1 matches Ok(n) ==> (n == applied ==> apply_items_spec(
            m,
            owner,
            items,
            errors,
            i,
            applied,
        ).0.revision == m.revision),
    decreases items.len() - i,
{
    if 0 <= i < items.len() {
        lemma_apply_item_keeps_revision(m, owner, items[i], sat_inc(m.revision));
        let (m1, r) = apply_item_spec(m, owner, items[i], sat_inc(m.revision));
        lemma_items_keep_revision(m, owner, items, errors, i + 1, applied);
        if r is Ok {
            lemma_items_keep_revision(m1, owner, items, errors, i + 1, crate::file_rules::sat_inc32(applied));
        }
    }
}

/// Law: an application that completes moves the revision on by exactly one
/// when it applied at least one item, and leaves it otherwise; it answers
/// with the store's new revision.
pub proof fn law_revision_moves_once_per_effective_apply(
    m: RulesModel,
    owner: Seq<char>,
    grants: Seq<FilePolicyRulesApplyGrant>,
    request: FilePolicyApplyRequest,
    active_deciders: Seq<u64>,
)
    ensures
        apply_spec(m, owner, grants, request, active_deciders).1 matches Ok(res) ==> {
            &&& res.new_revision == apply_spec(m, owner, grants, request, active_deciders).0.revision
            &&& res.new_revision == if res.applied_count > 0 {
                sat_inc(m.revision)
            } else {
                m.revision
            }
        },
{
    let errors = crate::file_rules::validation_errors(
        m,
        owner,
        grants,
        request.precondition.base_revision,
        request.items@,
        active_deciders,
    );
    lemma_items_keep_revision(m, owner, request.items@, errors, 0, 0);
}

/// `t` lists its rules so that none is evaluated before an earlier one.
pub open spec fn in_evaluation_order(t: Seq<PolicyRuleView>) -> bool {
    forall|i: int, j: int| 0 <= i < j < t.len() ==> !evaluated_before(#[trigger] t[j], #[trigger] t[i])
}

proof fn lemma_evaluated_before_order(a: PolicyRuleView, b: PolicyRuleView, c: PolicyRuleView)
    ensures
        !(evaluated_before(a, b) && evaluated_before(b, a)),
        evaluated_before(a, b) && evaluated_before(b, c) ==> evaluated_before(a, c),
{
    let (ra, rb, rc) = (tier_rank(a.tier), tier_rank(b.tier), tier_rank(c.tier));
}

proof fn lemma_stable_insert_facts(t: Seq<PolicyRuleView>, x: PolicyRuleView)
    requires
        in_evaluation_order(t),
    ensures
        in_evaluation_order(stable_insert(t, x)),
        stable_insert(t, x).len() == t.len() + 1,
        forall|y: PolicyRuleView| #[trigger] stable_insert(t, x).contains(y) <==> (t.contains(y) || y == x),
    decreases t.len(),
{
    let r = stable_insert(t, x);
    if t.len() == 0 {
        assert(r =~= seq![x]);
        assert forall|y: PolicyRuleView| #[trigger] r.contains(y) <==> (t.contains(y) || y == x) by {
            if r.contains(y) {
                assert(r[0] == y);
            }
            if y == x {
                assert(r[0] == x);
            }
        }
    } else if evaluated_before(x, t[0]) {
        assert(r =~= seq![x] + t);
        assert forall|i: int, j: int| 0 <= i < j < r.len() implies !evaluated_before(#[trigger] r[j], #[trigger] r[i]) by {
            if i == 0 {
                assert(r[j] == t[j - 1]);
                lemma_evaluated_before_order(t[j - 1], x, t[0]);
                lemma_evaluated_before_order(x, t[0], t[0]);
                if j - 1 > 0 {
                    assert(!evaluated_before(t[j - 1], t[0]));
                }
            } else {
                assert(r[i] == t[i - 1] && r[j] == t[j - 1]);
            }
        }
        assert forall|y: PolicyRuleView| #[trigger] r.contains(y) <==> (t.contains(y) || y == x) by {
            if r.contains(y) {
                let k = choose|k: int| 0 <= k < r.len() && r[k] == y;
                if k > 0 {
                    assert(t[k - 1] == y);
                }
            }
            if t.contains(y) {
                let k = choose|k: int| 0 <= k < t.len() && t[k] == y;
                assert(r[k + 1] == y);
            }
            if y == x {
                assert(r[0] == x);
            }
        }
    } else {
        let rest = t.drop_first();
        assert(in_evaluation_order(rest)) by {
            assert forall|i: int, j: int| 0 <= i < j < rest.len() implies !evaluated_before(#[trigger] rest[j], #[trigger] rest[i]) by {
                assert(rest[i] == t[i + 1] && rest[j] == t[j + 1]);
            }
        }
        lemma_stable_insert_facts(rest, x);
        let ri = stable_insert(rest, x);
        assert(r =~= seq![t[0]] + ri);
        assert forall|i: int, j: int| 0 <= i < j < r.len() implies !evaluated_before(#[trigger] r[j], #[trigger] r[i]) by {
            if i == 0 {
                assert(r[j] == ri[j - 1]);
                assert(ri.contains(ri[j - 1]));
                if rest.contains(ri[j - 1]) {
                    let k = choose|k: int| 0 <= k < rest.len() && rest[k] == ri[j - 1];
                    assert(t[k + 1] == ri[j - 1]);
                } else {
                    assert(ri[j - 1] == x);
                }
            } else {
                assert(r[i] == ri[i - 1] && r[j] == ri[j - 1]);
            }
        }
        assert forall|y: PolicyRuleView| #[trigger] r.contains(y) <==> (t.contains(y) || y == x) by {
            if r.contains(y) {
                let k = choose|k: int| 0 <= k < r.len() && r[k] == y;
                if k > 0 {
                    assert(ri[k - 1] == y);
                    assert(ri.contains(y));
                    if rest.contains(y) {
                        let q = choose|q: int| 0 <= q < rest.len() && rest[q] == y;
                        assert(t[q + 1] == y);
                    }
                } else {
                    assert(t[0] == y);
                }
            }
            if t.contains(y) {
                let k = choose|k: int| 0 <= k < t.len() && t[k] == y;
                if k == 0 {
                    assert(r[0] == y);
                } else {
                    assert(rest[k - 1] == y);
                    assert(ri.contains(y));
                    let q = choose|q: int| 0 <= q < ri.len() && ri[q] == y;
                    assert(r[q + 1] == y);
                }
            }
            if y == x {
                assert(ri.contains(x));
                let q = choose|q: int| 0 <= q < ri.len() && ri[q] == x;
                assert(r[q + 1] == x);
            }
        }
    }
}

/// Law: the evaluation list holds exactly the enabled rules, and none of
/// them is evaluated before a rule listed ahead of it (built-in first, then
/// higher priority, then more recently updated).
pub proof fn law_evaluation_list_orders_enabled_rules(s: Seq<PolicyRuleView>)
    ensures
        in_evaluation_order(evaluation_order(s)),
        forall|y: PolicyRuleView| #[trigger] evaluation_order(s).contains(y) <==> (s.contains(y) && y.enabled),
    decreases s.len(),
{
    if s.len() > 0 {
        let t = s.drop_last();
        law_evaluation_list_orders_enabled_rules(t);
        let e = evaluation_order(t);
        if s.last().enabled {
            lemma_stable_insert_facts(e, s.last());
        }
        assert forall|y: PolicyRuleView| #[trigger] evaluation_order(s).contains(y) <==> (s.contains(y) && y.enabled) by {
            if s.contains(y) {
                let k = choose|k: int| 0 <= k < s.len() && s[k] == y;
                if k < t.len() {
                    assert(t[k] == y);
                    assert(t.contains(y));
                }
            }
            if t.contains(y) {
                let k = choose|k: int| 0 <= k < t.len() && t[k] == y;
                assert(s[k] == y);
            }
            if y == s.last() {
                assert(s[s.len() - 1] == y);
            }
        }
    }
}

/// Law: once an owner is removed, none of its rules remains, every rule of
/// another owner remains, and the order stays by key.
pub proof fn law_removed_owner_keeps_no_rule(s: Seq<PolicyRuleView>, owner: Seq<char>)
    requires
        sorted_keys(s),
    ensures
        sorted_keys(without_owner(s, owner)),
        forall|y: PolicyRuleView| #[trigger] without_owner(s, owner).contains(y) <==> (s.contains(y) && y.owner != owner),
    decreases s.len(),
{
    lemma_without_owner(s, owner);
    let w = without_owner(s, owner);
    if s.len() > 0 {
        let t = s.drop_last();
        assert(sorted_keys(t));
        law_removed_owner_keeps_no_rule(t, owner);
        assert forall|y: PolicyRuleView| #[trigger] w.contains(y) <==> (s.contains(y) && y.owner != owner) by {
            if w.contains(y) {
                let k = choose|k: int| 0 <= k < w.len() && w[k] == y;
                assert(s.contains(w[k]));
                assert(w[k].owner != owner);
            }
            if s.contains(y) && y.owner != owner {
                let k = choose|k: int| 0 <= k < s.len() && s[k] == y;
                if k < t.len() {
                    assert(t[k] == y);
                    assert(t.contains(y));
                    assert(without_owner(t, owner).contains(y));
                    let q = choose|q: int| 0 <= q < without_owner(t, owner).len() && without_owner(t, owner)[q] == y;
                    assert(w[q] == y);
                } else {
                    assert(s.last() == y);
                    assert(w[w.len() - 1] == y);
                }
            }
        }
    }
}

/// Law: a rule an upsert stores is what a lookup of its key then finds.
pub proof fn law_upserted_rule_is_found(s: Seq<PolicyRuleView>, r: PolicyRuleView)
    requires
        sorted_keys(s),
    ensures
        sorted_keys(upsert_rule(s, r)),
        find_key(upsert_rule(s, r), rkey(r)) matches Some(p) && upsert_rule(s, r)[p] == r,
        forall|k: (Seq<char>, Seq<char>)| k != rkey(r) ==> #[trigger] find_key(upsert_rule(s, r), k) is Some == find_key(s, k) is Some,
{
    lemma_upsert_sorted(s, r);
    let t = upsert_rule(s, r);
    lemma_lower_bound_bounds(s, rkey(r));
    let p = lower_bound(s, rkey(r));
    lemma_find_key(t, rkey(r));
    assert(t[p] == r);
    assert(find_key(t, rkey(r)) is Some);
    let q = find_key(t, rkey(r))->0;
    crate::file_rules::lemma_key_less_facts(rkey(r), rkey(r), rkey(r));
    if q < p {
        assert(crate::file_rules::key_less(rkey(t[q]), rkey(t[p])));
    } else if q > p {
        assert(crate::file_rules::key_less(rkey(t[p]), rkey(t[q])));
    }
    assert forall|k: (Seq<char>, Seq<char>)| k != rkey(r) implies #[trigger] find_key(t, k) is Some == find_key(s, k) is Some by {
        lemma_find_key(t, k);
        lemma_find_key(s, k);
        if find_key(s, k) is Some {
            let q = find_key(s, k)->0;
            if p < s.len() && rkey(s[p]) == rkey(r) {
                assert(q != p);
                assert(t[q] == s[q]);
            } else if q < p {
                assert(t[q] == s[q]);
            } else {
                assert(t[q + 1] == s[q]);
            }
        }
        if find_key(t, k) is Some {
            let q = find_key(t, k)->0;
            if p < s.len() && rkey(s[p]) == rkey(r) {
                assert(t[q] == s[q]);
            } else if q < p {
                assert(t[q] == s[q]);
            } else {
                assert(q != p);
                assert(t[q] == s[q - 1]);
            }
        }
    }
}

/// Law: the rule an upsert item stores is the draft's stored form, found
/// under its owner and id afterwards.
pub proof fn law_applied_upsert_is_read_back(m: RulesModel, owner: Seq<char>, item: FilePolicyPatchItem, mutation_revision: u64)
    requires
        sorted_keys(m.rules),
        item.op == FilePolicyPatchOp::Upsert,
        apply_item_spec(m, owner, item, mutation_revision).1 is Ok,
    ensures
        ({
            let m2 = apply_item_spec(m, owner, item, mutation_revision).0;
            let st = from_draft_spec(
                owner,
                item.rule->0,
                opt_text(item.rule_id),
                mutation_revision,
                m.next_sequence,
                next_host_rule_number(m.rules, owner, m.next_rule_id),
            )->Ok_0;
            &&& find_key(m2.rules, (owner, st.rule_id)) matches Some(p)
            &&& m2.rules[p] == st
            &&& m2.owners.contains(owner)
        }),
{
    reveal(apply_item_spec);
    let draft = item.rule->0;
    let n = next_host_rule_number(m.rules, owner, m.next_rule_id);
    let st = from_draft_spec(owner, draft, opt_text(item.rule_id), mutation_revision, m.next_sequence, n)->Ok_0;
    assert(st.owner == owner);
    let base = if st.identity is HostAuto {
        crate::file_rules::drop_superseded(m.rules, st)
    } else {
        m.rules
    };
    crate::file_rules::lemma_drop_superseded(m.rules, st);
    law_upserted_rule_is_found(base, st);
}

/// A listing fits the decision and operation a filter asks for (each a
/// wildcard when absent).
pub open spec fn listing_fits(f: FilePolicyListFilter, l: RuleListing) -> bool {
    &&& (f.decision is None || f.decision == Some(l.decision))
    &&& (f.operation is None || f.operation == Some(l.operation))
}

proof fn lemma_id_insert_fits(f: FilePolicyListFilter, t: Seq<RuleListing>, x: RuleListing)
    requires
        listing_fits(f, x),
        forall|i: int| 0 <= i < t.len() ==> listing_fits(f, #[trigger] t[i]),
    ensures
        forall|i: int| 0 <= i < id_insert(t, x).len() ==> listing_fits(f, #[trigger] id_insert(t, x)[i]),
    decreases t.len(),
{
    if t.len() > 0 {
        let r = t.drop_first();
        assert forall|i: int| 0 <= i < r.len() implies listing_fits(f, #[trigger] r[i]) by {
            assert(r[i] == t[i + 1]);
        }
        lemma_id_insert_fits(f, r, x);
        let u = id_insert(t, x);
        assert forall|i: int| 0 <= i < u.len() implies listing_fits(f, #[trigger] u[i]) by {
            if crate::order::text_less(x.rule_id, t[0].rule_id) {
                if i > 0 {
                    assert(u[i] == t[i - 1]);
                }
            } else {
                if i > 0 {
                    assert(u[i] == id_insert(r, x)[i - 1]);
                }
            }
        }
    }
}

proof fn lemma_listing_order_fits(s: Seq<PolicyRuleView>, f: FilePolicyListFilter)
    ensures
        forall|i: int| 0 <= i < listing_order(s, f).len() ==> listing_fits(f, #[trigger] listing_order(s, f)[i]),
    decreases s.len(),
{
    if s.len() > 0 {
        lemma_listing_order_fits(s.drop_last(), f);
        if filter_accepts(f, s.last()) {
            lemma_id_insert_fits(f, listing_order(s.drop_last(), f), crate::file_policy::rule_listing(s.last()));
        }
    }
}

/// Law: a rule passes a listing filter only if the filter's decision is
/// absent or the rule's, and likewise its operation; a filter with no
/// criteria passes every rule. So every rule on any page of a listing has
/// the decision and the operation the filter asks for.
pub proof fn law_listing_filter_keeps_only_matching_rules(
    m: RulesModel,
    f: FilePolicyListFilter,
    r: PolicyRuleView,
    cursor: Option<Seq<char>>,
    limit: u32,
)
    ensures
        filter_accepts(f, r) ==> (f.decision is None || f.decision == Some(r.decision)) && (f.operation is None
            || f.operation == Some(r.operation)),
        f.decision is None && f.operation is None && f.path_prefix is None ==> filter_accepts(f, r),
        forall|i: int| 0 <= i < list_spec(m, f, cursor, limit).0.len() ==> listing_fits(
            f,
            #[trigger] list_spec(m, f, cursor, limit).0[i],
        ),
{
    let all = listing_order(m.rules, f);
    lemma_listing_order_fits(m.rules, f);
    let page = list_spec(m, f, cursor, limit).0;
    let start = crate::file_rules::cursor_start(cursor);
    if cursor is Some {
        let cb = vstd::utf8::encode_utf8(cursor->0);
        crate::words::lemma_digit_scan_bounded(cb, 0, 0, usize::MAX as int);
        crate::words::lemma_digit_scan_bounded(cb, 1, 0, usize::MAX as int);
    }
    assert(start >= 0);
    let lim = if limit == 0 { 1 } else { limit as int };
    let lo = crate::file_rules::min_int(start, all.len() as int);
    let hi = crate::file_rules::min_int(start + lim, all.len() as int);
    assert(lo <= hi <= all.len());
    assert(page == all.subrange(lo, hi));
    assert forall|i: int| 0 <= i < page.len() implies listing_fits(f, #[trigger] page[i]) by {
        assert(lo <= hi <= all.len());
        assert(page == all.subrange(lo, hi));
        assert(0 <= lo + i < all.len());
        assert(page[i] == all[lo + i]);
        assert(listing_fits(f, all[lo + i]));
    }
}

/// `hi` comes before `lo` in evaluation: a built-in rule before any other,
/// otherwise (both built-in or neither) the higher priority, then the more
/// recent update.
pub open spec fn governs_before(hi: PolicyRuleView, lo: PolicyRuleView) -> bool {
    ||| (hi.tier is Builtin && !(lo.tier is Builtin))
    ||| ((hi.tier is Builtin) == (lo.tier is Builtin) && hi.priority > lo.priority)
    ||| ((hi.tier is Builtin) == (lo.tier is Builtin) && hi.priority == lo.priority && hi.updated_sequence
        > lo.updated_sequence)
}

proof fn lemma_first_where_facts(s: Seq<PolicyRuleView>, p: spec_fn(PolicyRuleView) -> bool)
    ensures
        first_where(s, p) matches Some(i) ==> 0 <= i < s.len() && p(s[i]) && forall|j: int| 0 <= j < i ==> !p(
            #[trigger] s[j],
        ),
        first_where(s, p) is None ==> forall|j: int| 0 <= j < s.len() ==> !p(#[trigger] s[j]),
    decreases s.len(),
{
    if s.len() > 0 && !p(s[0]) {
        let r = s.drop_first();
        lemma_first_where_facts(r, p);
        assert forall|j: int| 0 < j < s.len() implies s[j] == r[j - 1] by {}
        if first_where(r, p) is None {
            assert forall|j: int| 0 <= j < s.len() implies !p(#[trigger] s[j]) by {
                if j > 0 {
                    assert(s[j] == r[j - 1]);
                }
            }
        } else {
            let i = first_where(r, p)->0;
            assert forall|j: int| 0 <= j < i + 1 implies !p(#[trigger] s[j]) by {
                if j > 0 {
                    assert(s[j] == r[j - 1]);
                }
            }
        }
    }
}

/// Law: among the enabled rules of a store, when two rules both govern an
/// operation on a path and one comes before the other (built-in first,
/// then higher priority, then the more recent update), the rule found for
/// that operation and path is never the later one; some rule is found.
pub proof fn law_higher_ranked_rule_governs(
    s: Seq<PolicyRuleView>,
    operation: FilePolicyOperation,
    path: Seq<u8>,
    hi: PolicyRuleView,
    lo: PolicyRuleView,
)
    requires
        s.contains(hi),
        s.contains(lo),
        hi.enabled,
        lo.enabled,
        rule_matches_path(hi, operation, path),
        rule_matches_path(lo, operation, path),
        governs_before(hi, lo),
    ensures
        first_where(evaluation_order(s), path_matcher(operation, path)) is Some,
        first_where(evaluation_order(s), path_matcher(operation, path)) matches Some(i) ==> evaluation_order(s)[i] != lo,
{
    let e = evaluation_order(s);
    let p = path_matcher(operation, path);
    law_evaluation_list_orders_enabled_rules(s);
    assert(e.contains(hi));
    assert(e.contains(lo));
    let k = choose|k: int| 0 <= k < e.len() && e[k] == hi;
    assert(p(e[k]));
    lemma_first_where_facts(e, p);
    assert(evaluated_before(hi, lo));
    if first_where(e, p) is None {
        assert(!p(e[k]));
    }
    if first_where(e, p) is Some {
        let i = first_where(e, p)->0;
        if e[i] == lo {
            assert(i <= k);
            assert(hi != lo);
            assert(i < k);
            assert(!evaluated_before(e[k], e[i]));
        }
    }
}

} // verus!
