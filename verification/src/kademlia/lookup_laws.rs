//! What a lookup's result and rounds promise, stated over the candidates and
//! the answers: the result is the closest answering candidates, and the answers
//! of the last round count.
use vstd::prelude::*;
use crate::constants::K;
use crate::kademlia::key::{closer, Key};
use crate::kademlia::lookup::{
    apply_responses, contains_info, failed, first_value_answer_at, insert_position_of,
    lemma_insert_position_of, lemma_insert_sorted_at, lemma_marks_keep_contacts, lemma_merge_nodes,
    lemma_sort_keeps_contacts, mark_queried, mark_responded, merge_nodes, not_failed_infos, recorded, resulting,
    sort_by_distance, sorted_lookup, LookupNodeInfo, LookupResponse, LookupSuccessType,
};
use crate::kademlia::node::{first_value_resolver, lookup_step, LookupModel, LookupPhase};
use crate::networking::node_info::NodeInfo;

verus! {

broadcast use vstd::seq_lib::group_seq_properties;

/// Each contact of `not_failed_infos(s)` is the contact of a candidate of `s`
/// that did not fail, and each such candidate's contact is among them.
proof fn lemma_not_failed_infos(s: Seq<LookupNodeInfo>)
    ensures
        forall|q: int| 0 <= q < not_failed_infos(s).len() ==> exists|k: int|
            0 <= k < s.len() && !failed(s[k]) && #[trigger] not_failed_infos(s)[q] == s[k].node_info,
        forall|k: int| 0 <= k < s.len() && !failed(s[k]) ==> not_failed_infos(s).contains(#[trigger] s[k].node_info),
        not_failed_infos(s).len() <= s.len(),
    decreases s.len(),
{
    if s.len() > 0 {
        let t = s.drop_last();
        lemma_not_failed_infos(t);
        let nt = not_failed_infos(t);
        let ns = not_failed_infos(s);
        assert forall|q: int| 0 <= q < ns.len() implies exists|k: int|
            0 <= k < s.len() && !failed(s[k]) && #[trigger] ns[q] == s[k].node_info by {
            if q < nt.len() {
                let k = choose|k: int| 0 <= k < t.len() && !failed(t[k]) && #[trigger] nt[q] == t[k].node_info;
                assert(s[k] == t[k]);
            } else {
                assert(ns[q] == s[s.len() - 1].node_info);
            }
        }
        assert forall|k: int| 0 <= k < s.len() && !failed(s[k]) implies ns.contains(#[trigger] s[k].node_info) by {
            if k < t.len() {
                assert(t[k] == s[k]);
                assert(nt.contains(t[k].node_info));
            } else {
                assert(ns[ns.len() - 1] == s[k].node_info);
            }
        }
    }
}

/// A lookup's result is the `K` closest candidates that did not fail: each of
/// its entries is the contact of a candidate that did not fail; it has at most
/// `K` entries, and fewer only when it holds every such candidate; and in a
/// buffer sorted by distance to `target`, a candidate that did not fail and is
/// left out is no closer to `target` than any entry of the result.
pub proof fn law_result_is_closest_answering_candidates(s: Seq<LookupNodeInfo>, target: Key)
    requires
        sorted_lookup(s, target),
    ensures
        resulting(s).len() <= K,
        forall|q: int| 0 <= q < resulting(s).len() ==> exists|k: int|
            0 <= k < s.len() && !failed(s[k]) && #[trigger] resulting(s)[q] == s[k].node_info,
        forall|k: int| 0 <= k < s.len() && !failed(s[k]) && !resulting(s).contains(#[trigger] s[k].node_info)
            ==> resulting(s).len() == K,
        forall|k: int, q: int|
            #![trigger s[k], resulting(s)[q]]
            0 <= k < s.len() && !failed(s[k]) && !resulting(s).contains(s[k].node_info) && 0 <= q < resulting(s).len()
                ==> !closer(s[k].node_info.id, resulting(s)[q].id, target),
    decreases s.len(),
{
    let ns = not_failed_infos(s);
    let r = resulting(s);
    lemma_not_failed_infos(s);
    assert forall|q: int| 0 <= q < r.len() implies exists|k: int|
        0 <= k < s.len() && !failed(s[k]) && #[trigger] r[q] == s[k].node_info by {
        assert(r[q] == ns[q]);
    }
    assert forall|k: int| 0 <= k < s.len() && !failed(s[k]) && !r.contains(#[trigger] s[k].node_info)
        implies r.len() == K by {
        if ns.len() <= K {
            assert(r == ns);
        }
    }
    if s.len() > 0 {
        let t = s.drop_last();
        let e = s.last();
        assert(sorted_lookup(t, target)) by {
            assert forall|i: int, j: int| 0 <= i < j < t.len() implies
                crate::kademlia::lookup::not_farther(#[trigger] t[i], #[trigger] t[j], target) by {
                assert(t[i] == s[i] && t[j] == s[j]);
            }
        }
        law_result_is_closest_answering_candidates(t, target);
        lemma_not_failed_infos(t);
        let nt = not_failed_infos(t);
        let rt = resulting(t);
        assert forall|k: int, q: int|
            #![trigger s[k], r[q]]
            0 <= k < s.len() && !failed(s[k]) && !r.contains(s[k].node_info) && 0 <= q < r.len()
            implies !closer(s[k].node_info.id, r[q].id, target) by {
            if k < t.len() {
                assert(s[k] == t[k]);
                assert(nt.contains(t[k].node_info));
                if nt.len() < K {
                    assert(r =~= ns);
                    let p = choose|p: int| 0 <= p < nt.len() && nt[p] == t[k].node_info;
                    assert(ns[p] == nt[p]);
                    assert(r.contains(s[k].node_info));
                }
                assert(nt.len() >= K);
                assert(r[q] == ns[q]);
                assert(ns[q] == nt[q]);
                assert(rt[q] == nt[q]);
                assert(!rt.contains(t[k].node_info)) by {
                    if rt.contains(t[k].node_info) {
                        let p = choose|p: int| 0 <= p < rt.len() && rt[p] == t[k].node_info;
                        assert(r[p] == rt[p]);
                    }
                }
                assert(!closer(t[k].node_info.id, rt[q].id, target));
            } else {
                assert(s[k] == e);
                if nt.len() < K {
                    assert(r =~= ns);
                    assert(ns[ns.len() - 1] == e.node_info);
                }
                assert(r[q] == nt[q]);
                let k2 = choose|k2: int| 0 <= k2 < t.len() && !failed(t[k2]) && #[trigger] nt[q] == t[k2].node_info;
                assert(s[k2] == t[k2]);
                assert(crate::kademlia::lookup::not_farther(s[k2], s[k], target));
            }
        }
    }
}

/// In a value lookup, a round (one of the rounds or the last one) in which some
/// answer reports the value ends the lookup, with the resolver of the first
/// such answer as the node that stores the value.
pub proof fn law_value_answer_names_storer(
    m: LookupModel,
    answers: Seq<LookupResponse>,
    this_node: NodeInfo,
    target: Key,
    i: int,
)
    requires
        m.phase != LookupPhase::Done,
        0 <= i < answers.len(),
        answers[i].success_type == Some(LookupSuccessType::Value),
        forall|j: int| 0 <= j < i ==> (#[trigger] answers[j]).success_type != Some(LookupSuccessType::Value),
    ensures
        lookup_step(m, answers, true, this_node, target).0.phase == LookupPhase::Done,
        lookup_step(m, answers, true, this_node, target).0.storer == Some(answers[i].resolver),
        lookup_step(m, answers, true, this_node, target).1 is None,
{
    assert(first_value_answer_at(answers, i));
    let k = choose|k: int| first_value_answer_at(answers, k);
    if k < i {
        assert(answers[k].success_type != Some(LookupSuccessType::Value));
    }
    if k > i {
        assert(answers[i].success_type != Some(LookupSuccessType::Value));
    }
    assert(first_value_resolver(answers) == Some(answers[i].resolver));
}

/// In the last round of a value lookup, when no answer reports the value, the
/// lookup ends without a storer.
pub proof fn law_last_round_without_value_has_no_storer(
    m: LookupModel,
    answers: Seq<LookupResponse>,
    this_node: NodeInfo,
    target: Key,
)
    requires
        m.phase == LookupPhase::LastRound,
        forall|j: int| 0 <= j < answers.len() ==> (#[trigger] answers[j]).success_type != Some(LookupSuccessType::Value),
    ensures
        lookup_step(m, answers, true, this_node, target).0.phase == LookupPhase::Done,
        lookup_step(m, answers, true, this_node, target).0.storer is None,
{
}

/// Merging keeps the candidates as a prefix, appends only contacts not among
/// them, and leaves every contact sent (other than the looking-up node) a
/// candidate.
proof fn lemma_merge_prefix(s: Seq<LookupNodeInfo>, nodes: Seq<NodeInfo>, this_node: NodeInfo)
    ensures
        merge_nodes(s, nodes, this_node).len() >= s.len(),
        forall|k: int| 0 <= k < s.len() ==> #[trigger] merge_nodes(s, nodes, this_node)[k] == s[k],
        forall|k: int| s.len() <= k < merge_nodes(s, nodes, this_node).len()
            ==> !contains_info(s, #[trigger] merge_nodes(s, nodes, this_node)[k].node_info),
        forall|x: NodeInfo| nodes.contains(x) && x != this_node ==> contains_info(merge_nodes(s, nodes, this_node), x),
    decreases nodes.len(),
{
    if nodes.len() > 0 {
        let d = nodes.drop_last();
        let s1 = merge_nodes(s, d, this_node);
        lemma_merge_prefix(s, d, this_node);
        let x = nodes.last();
        let m = merge_nodes(s, nodes, this_node);
        assert forall|y: NodeInfo| contains_info(s, y) implies contains_info(s1, y) by {
            let k = choose|k: int| 0 <= k < s.len() && #[trigger] s[k].node_info == y;
            assert(s1[k] == s[k]);
        }
        assert forall|y: NodeInfo| contains_info(s1, y) implies contains_info(m, y) by {
            let k = choose|k: int| 0 <= k < s1.len() && #[trigger] s1[k].node_info == y;
            assert(m[k] == s1[k]);
        }
        assert forall|y: NodeInfo| nodes.contains(y) && y != this_node implies contains_info(m, y) by {
            let q = choose|q: int| 0 <= q < nodes.len() && nodes[q] == y;
            if q < d.len() {
                assert(d[q] == y);
                assert(d.contains(y));
            } else if !contains_info(s1, x) {
                assert(m[s1.len() as int].node_info == x);
            }
        }
    }
}

/// Every element of a sorted sequence is an element of the sequence sorted.
proof fn lemma_sort_elements(s: Seq<LookupNodeInfo>, target: Key)
    ensures
        forall|e: LookupNodeInfo| #[trigger] sort_by_distance(s, target).contains(e) ==> s.contains(e),
    decreases s.len(),
{
    if s.len() > 0 {
        let t = s.drop_last();
        lemma_sort_elements(t, target);
        let st = sort_by_distance(t, target);
        let p = insert_position_of(st, s.last(), target);
        lemma_insert_position_of(st, s.last(), target);
        lemma_insert_sorted_at(st, s.last(), target, p);
        assert forall|e: LookupNodeInfo| #[trigger] sort_by_distance(s, target).contains(e) implies s.contains(e) by {
            let r = st.insert(p, s.last());
            let k = choose|k: int| 0 <= k < r.len() && r[k] == e;
            if k < p {
                assert(st[k] == e);
                assert(st.contains(e));
                let j = choose|j: int| 0 <= j < t.len() && t[j] == e;
                assert(s[j] == e);
            } else if k == p {
                assert(s[s.len() - 1] == e);
            } else {
                assert(st[k - 1] == e);
                assert(st.contains(e));
                let j = choose|j: int| 0 <= j < t.len() && t[j] == e;
                assert(s[j] == e);
            }
        }
    }
}

/// Applying the answers of a node-lookup round keeps every candidate, and makes
/// every contact sent by a successful answer (other than the looking-up node) a
/// candidate.
proof fn lemma_apply_merges(s: Seq<LookupNodeInfo>, rs: Seq<LookupResponse>, this_node: NodeInfo)
    ensures
        forall|y: NodeInfo| contains_info(s, y) ==> contains_info(apply_responses(s, rs, false, this_node), y),
        forall|i: int, x: NodeInfo|
            #![trigger rs[i].k_closest@.contains(x)]
            0 <= i < rs.len() && rs[i].success && rs[i].success_type != Some(LookupSuccessType::Value)
                && rs[i].k_closest@.contains(x) && x != this_node
                ==> contains_info(apply_responses(s, rs, false, this_node), x),
    decreases rs.len(),
{
    if rs.len() > 0 {
        let d = rs.drop_last();
        lemma_apply_merges(s, d, this_node);
        let s1 = apply_responses(s, d, false, this_node);
        let last = rs.last();
        let a = apply_responses(s, rs, false, this_node);
        if !last.success || last.success_type == Some(LookupSuccessType::Value) {
            lemma_marks_keep_contacts(s1, last.resolver.id);
        } else {
            let mg = merge_nodes(s1, last.k_closest@, this_node);
            lemma_merge_nodes(s1, last.k_closest@, this_node);
            lemma_merge_prefix(s1, last.k_closest@, this_node);
            lemma_marks_keep_contacts(mg, last.resolver.id);
        }
        assert forall|i: int, x: NodeInfo|
            #![trigger rs[i].k_closest@.contains(x)]
            0 <= i < rs.len() && rs[i].success && rs[i].success_type != Some(LookupSuccessType::Value)
                && rs[i].k_closest@.contains(x) && x != this_node implies contains_info(a, x) by {
            if i < d.len() {
                assert(d[i] == rs[i]);
                assert(d[i].k_closest@.contains(x));
                assert(contains_info(s1, x));
            }
        }
    }
}

/// The entries of contact `r` after a node-lookup round in which every answer
/// from `r`'s key failed: they stay unanswered, and are all queried once some
/// answer of the round came from that key.
proof fn lemma_apply_failed_resolver(s: Seq<LookupNodeInfo>, rs: Seq<LookupResponse>, this_node: NodeInfo, r: NodeInfo)
    requires
        contains_info(s, r),
        forall|k: int| 0 <= k < s.len() && #[trigger] s[k].node_info == r ==> !s[k].responded,
        forall|j: int| 0 <= j < rs.len() && (#[trigger] rs[j]).resolver.id == r.id ==> !rs[j].success,
    ensures
        contains_info(apply_responses(s, rs, false, this_node), r),
        forall|k: int| 0 <= k < apply_responses(s, rs, false, this_node).len()
            && #[trigger] apply_responses(s, rs, false, this_node)[k].node_info == r
            ==> !apply_responses(s, rs, false, this_node)[k].responded,
        (exists|j: int| 0 <= j < rs.len() && (#[trigger] rs[j]).resolver.id == r.id) ==> forall|k: int|
            0 <= k < apply_responses(s, rs, false, this_node).len()
            && #[trigger] apply_responses(s, rs, false, this_node)[k].node_info == r
            ==> apply_responses(s, rs, false, this_node)[k].queried,
    decreases rs.len(),
{
    if rs.len() > 0 {
        let d = rs.drop_last();
        assert forall|j: int| 0 <= j < d.len() && (#[trigger] d[j]).resolver.id == r.id implies !d[j].success by {
            assert(d[j] == rs[j]);
        }
        lemma_apply_failed_resolver(s, d, this_node, r);
        let s1 = apply_responses(s, d, false, this_node);
        let last = rs.last();
        let a = apply_responses(s, rs, false, this_node);
        let in_d = exists|j: int| 0 <= j < d.len() && (#[trigger] d[j]).resolver.id == r.id;
        if !last.success || last.success_type == Some(LookupSuccessType::Value) {
            lemma_marks_keep_contacts(s1, last.resolver.id);
            assert(a == mark_queried(s1, last.resolver.id));
            if exists|j: int| 0 <= j < rs.len() && (#[trigger] rs[j]).resolver.id == r.id {
                let j = choose|j: int| 0 <= j < rs.len() && (#[trigger] rs[j]).resolver.id == r.id;
                if j < d.len() {
                    assert(d[j] == rs[j]);
                    assert(in_d);
                }
                assert forall|k: int| 0 <= k < a.len() && #[trigger] a[k].node_info == r implies a[k].queried by {
                    assert(a[k].node_info == s1[k].node_info);
                    if last.resolver.id != r.id {
                        assert(j < d.len());
                        assert(s1[k].queried);
                    }
                }
            }
        } else {
            assert(last.resolver.id != r.id);
            let mg = merge_nodes(s1, last.k_closest@, this_node);
            lemma_merge_prefix(s1, last.k_closest@, this_node);
            lemma_merge_nodes(s1, last.k_closest@, this_node);
            lemma_marks_keep_contacts(mg, last.resolver.id);
            assert(a == mark_responded(mg, last.resolver.id));
            assert forall|k: int| 0 <= k < a.len() && #[trigger] a[k].node_info == r implies k < s1.len() && a[k] == s1[k] by {
                if k >= s1.len() {
                    assert(!contains_info(s1, mg[k].node_info));
                }
                assert(mg[k] == s1[k]);
            }
            if exists|j: int| 0 <= j < rs.len() && (#[trigger] rs[j]).resolver.id == r.id {
                let j = choose|j: int| 0 <= j < rs.len() && (#[trigger] rs[j]).resolver.id == r.id;
                assert(j < d.len());
                assert(d[j] == rs[j]);
                assert(in_d);
            }
        }
    }
}

/// The last round of a node lookup records its answers: every earlier
/// candidate stays a candidate; every contact sent by a successful answer
/// (other than the looking-up node) becomes one; and a resolver of the round
/// that failed to answer (a candidate that had not answered, with no successful
/// answer from its key in the round) is not in the lookup's result.
pub proof fn law_last_round_recorded(
    m: LookupModel,
    answers: Seq<LookupResponse>,
    this_node: NodeInfo,
    target: Key,
)
    requires
        m.phase == LookupPhase::LastRound,
    ensures
        lookup_step(m, answers, false, this_node, target).0.phase == LookupPhase::Done,
        forall|y: NodeInfo| contains_info(m.candidates, y)
            ==> contains_info(lookup_step(m, answers, false, this_node, target).0.candidates, y),
        forall|i: int, x: NodeInfo|
            #![trigger answers[i].k_closest@.contains(x)]
            0 <= i < answers.len() && answers[i].success && answers[i].success_type != Some(LookupSuccessType::Value)
                && answers[i].k_closest@.contains(x) && x != this_node
                ==> contains_info(lookup_step(m, answers, false, this_node, target).0.candidates, x),
        forall|i: int|
            0 <= i < answers.len() && !(#[trigger] answers[i]).success && contains_info(m.candidates, answers[i].resolver)
                && (forall|k: int| 0 <= k < m.candidates.len() && #[trigger] m.candidates[k].node_info == answers[i].resolver
                    ==> !m.candidates[k].responded)
                && (forall|j: int| 0 <= j < answers.len() && (#[trigger] answers[j]).resolver.id == answers[i].resolver.id
                    ==> !answers[j].success)
                ==> !resulting(lookup_step(m, answers, false, this_node, target).0.candidates).contains(answers[i].resolver),
{
    let a = apply_responses(m.candidates, answers, false, this_node);
    let c = lookup_step(m, answers, false, this_node, target).0.candidates;
    assert(c == recorded(m.candidates, answers, false, this_node, target));
    assert(c == sort_by_distance(a, target));
    lemma_apply_merges(m.candidates, answers, this_node);
    lemma_sort_keeps_contacts(a, target);
    lemma_sort_elements(a, target);
    assert forall|i: int|
        0 <= i < answers.len() && !(#[trigger] answers[i]).success && contains_info(m.candidates, answers[i].resolver)
            && (forall|k: int| 0 <= k < m.candidates.len() && #[trigger] m.candidates[k].node_info == answers[i].resolver
                ==> !m.candidates[k].responded)
            && (forall|j: int| 0 <= j < answers.len() && (#[trigger] answers[j]).resolver.id == answers[i].resolver.id
                ==> !answers[j].success)
        implies !resulting(c).contains(answers[i].resolver) by {
        let r = answers[i].resolver;
        lemma_apply_failed_resolver(m.candidates, answers, this_node, r);
        assert(answers[i].resolver.id == r.id);
        lemma_not_failed_infos(c);
        if resulting(c).contains(r) {
            let nf = not_failed_infos(c);
            let q = choose|q: int| 0 <= q < resulting(c).len() && resulting(c)[q] == r;
            assert(resulting(c)[q] == nf[q]);
            let k = choose|k: int| 0 <= k < c.len() && !failed(c[k]) && #[trigger] nf[q] == c[k].node_info;
            assert(c.contains(c[k]));
            assert(a.contains(c[k]));
            let k2 = choose|k2: int| 0 <= k2 < a.len() && a[k2] == c[k];
            assert(a[k2].node_info == r);
        }
    }
}

} // verus!
