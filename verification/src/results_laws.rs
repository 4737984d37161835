//! Properties of the organisation of evaluation results.

use vstd::prelude::*;
use crate::results::{
    EvaluationRow, EvaluationSummary, HandshakeRow, TransferRow, ResourceRow, KeyView, PairView,
    row_key, distinct_keys, first_row_of, in_group, summary_of, has_id, insert_by_start,
    group_evaluations, pair_lt, insert_pair, handshake_pair, resource_pair, transfer_key,
    transfer_pair, handshake_keys, transfer_rows, lead_start,
    insert_by_lead, order_keys, ordered_group_keys, mode_of, handshake_durations, group_matches,
    ResultGroup, resource_rows,
};
use crate::seq_facts::{sorted_desc, lemma_insert_contains, lemma_insert_sorted_desc, lemma_push_contains};
use crate::text_order::{text_lt, lemma_text_lt_irreflexive, lemma_text_lt_total, lemma_text_lt_transitive};

verus! {

proof fn lemma_first_row_exists(rows: Seq<EvaluationRow>, e: u128, i: int)
    requires
        0 <= i < rows.len(),
        rows[i].id == e,
    ensures
        first_row_of(rows, e) is Some,
    decreases rows.len(),
{
    if i < rows.len() - 1 {
        lemma_first_row_exists(rows.drop_last(), e, i);
    }
}

proof fn lemma_first_row_of_props(rows: Seq<EvaluationRow>, e: u128)
    ensures
        first_row_of(rows, e) matches Some(i) ==> 0 <= i < rows.len() && rows[i].id == e,
    decreases rows.len(),
{
    if rows.len() > 0 {
        lemma_first_row_of_props(rows.drop_last(), e);
        if first_row_of(rows.drop_last(), e) is Some {
            let i = first_row_of(rows.drop_last(), e)->0;
            assert(rows.drop_last()[i] == rows[i]);
        }
    }
}

proof fn lemma_distinct_keys_props(rows: Seq<EvaluationRow>)
    ensures
        distinct_keys(rows).no_duplicates(),
        forall|k: KeyView|
            distinct_keys(rows).contains(k) <==> exists|i: int|
                0 <= i < rows.len() && row_key(rows[i]) == k,
    decreases rows.len(),
{
    if rows.len() > 0 {
        let prev = rows.drop_last();
        let acc = distinct_keys(prev);
        let last = row_key(rows.last());
        lemma_distinct_keys_props(prev);
        lemma_push_contains(acc, last);
        assert forall|k: KeyView|
            distinct_keys(rows).contains(k) <==> exists|i: int|
                0 <= i < rows.len() && row_key(rows[i]) == k by {
            if acc.contains(k) {
                let i = choose|i: int| 0 <= i < prev.len() && row_key(prev[i]) == k;
                assert(row_key(rows[i]) == k);
            }
            if exists|i: int| 0 <= i < rows.len() && row_key(rows[i]) == k {
                let i = choose|i: int| 0 <= i < rows.len() && row_key(rows[i]) == k;
                if i < rows.len() - 1 {
                    assert(row_key(prev[i]) == k);
                }
            }
            if distinct_keys(rows).contains(k) && !acc.contains(k) {
                assert(row_key(rows[rows.len() - 1]) == k);
            }
        }
        if !acc.contains(last) {
            assert forall|i: int, j: int|
                0 <= i < j < acc.push(last).len() implies acc.push(last)[i] != acc.push(
                last,
            )[j] by {
                if j == acc.len() {
                    assert(acc.contains(acc[i]));
                }
            }
        }
    }
}

proof fn lemma_insert_by_lead_pos(rows: Seq<EvaluationRow>, s: Seq<KeyView>, k: KeyView) -> (pos:
    int)
    ensures
        0 <= pos <= s.len(),
        insert_by_lead(rows, s, k) == s.insert(pos, k),
        forall|i: int| 0 <= i < pos ==> lead_start(rows, #[trigger] s[i]) >= lead_start(rows, k),
        pos < s.len() ==> lead_start(rows, s[pos]) < lead_start(rows, k),
    decreases s.len(),
{
    if s.len() == 0 {
        assert(insert_by_lead(rows, s, k) =~= s.insert(0, k));
        0
    } else if lead_start(rows, s[0]) >= lead_start(rows, k) {
        let t = s.drop_first();
        let p = lemma_insert_by_lead_pos(rows, t, k);
        assert(seq![s[0]] + t.insert(p, k) =~= s.insert(p + 1, k));
        assert forall|i: int| 0 <= i < p + 1 implies lead_start(rows, #[trigger] s[i]) >= lead_start(
            rows,
            k,
        ) by {
            if i > 0 {
                assert(s[i] == t[i - 1]);
            }
        }
        if p + 1 < s.len() {
            assert(s[p + 1] == t[p]);
        }
        p + 1
    } else {
        assert(seq![k] + s =~= s.insert(0, k));
        0
    }
}

proof fn lemma_order_keys_props(rows: Seq<EvaluationRow>, ks: Seq<KeyView>)
    ensures
        order_keys(rows, ks).len() == ks.len(),
        forall|x: KeyView| order_keys(rows, ks).contains(x) <==> ks.contains(x),
        ks.no_duplicates() ==> order_keys(rows, ks).no_duplicates(),
        sorted_desc(order_keys(rows, ks), |k: KeyView| lead_start(rows, k) as int),
    decreases ks.len(),
{
    if ks.len() > 0 {
        let prev = ks.drop_last();
        lemma_order_keys_props(rows, prev);
        let o = order_keys(rows, prev);
        let pos = lemma_insert_by_lead_pos(rows, o, ks.last());
        lemma_insert_contains(o, pos, ks.last());
        lemma_insert_sorted_desc(o, pos, ks.last(), |k: KeyView| lead_start(rows, k) as int);
        lemma_push_contains(prev, ks.last());
        assert(prev.push(ks.last()) =~= ks);
        assert forall|x: KeyView| order_keys(rows, ks).contains(x) <==> ks.contains(x) by {
            assert(order_keys(rows, ks) == o.insert(pos, ks.last()));
            assert(o.insert(pos, ks.last()).contains(x) <==> (o.contains(x) || x == ks.last()));
            assert(prev.push(ks.last()).contains(x) <==> (prev.contains(x) || x == ks.last()));
        }
        if ks.no_duplicates() {
            assert(!prev.contains(ks.last())) by {
                if prev.contains(ks.last()) {
                    let i = choose|i: int| 0 <= i < prev.len() && prev[i] == ks.last();
                    assert(ks[i] == ks[ks.len() - 1]);
                }
            }
        }
    }
}

/// Every transfer configuration of the evaluation rows gives exactly
/// one group, and no group is given by anything else; the group with
/// the most recent evaluation comes first.
pub proof fn law_groups_partition_configurations(rows: Seq<EvaluationRow>)
    ensures
        ordered_group_keys(rows).no_duplicates(),
        forall|k: KeyView|
            ordered_group_keys(rows).contains(k) <==> exists|i: int|
                0 <= i < rows.len() && row_key(rows[i]) == k,
        sorted_desc(ordered_group_keys(rows), |k: KeyView| lead_start(rows, k) as int),
{
    lemma_distinct_keys_props(rows);
    lemma_order_keys_props(rows, distinct_keys(rows));
    assert forall|k: KeyView|
        ordered_group_keys(rows).contains(k) <==> exists|i: int|
            0 <= i < rows.len() && row_key(rows[i]) == k by {
        assert(ordered_group_keys(rows).contains(k) <==> distinct_keys(rows).contains(k));
    }
}

proof fn lemma_insert_by_start_pos(s: Seq<EvaluationSummary>, x: EvaluationSummary) -> (pos: int)
    ensures
        0 <= pos <= s.len(),
        insert_by_start(s, x) == s.insert(pos, x),
        forall|i: int| 0 <= i < pos ==> (#[trigger] s[i]).started_at >= x.started_at,
        pos < s.len() ==> s[pos].started_at < x.started_at,
    decreases s.len(),
{
    if s.len() == 0 {
        assert(insert_by_start(s, x) =~= s.insert(0, x));
        0
    } else if s[0].started_at >= x.started_at {
        let t = s.drop_first();
        let p = lemma_insert_by_start_pos(t, x);
        assert(seq![s[0]] + t.insert(p, x) =~= s.insert(p + 1, x));
        assert forall|i: int| 0 <= i < p + 1 implies (#[trigger] s[i]).started_at >= x.started_at by {
            if i > 0 {
                assert(s[i] == t[i - 1]);
            }
        }
        if p + 1 < s.len() {
            assert(s[p + 1] == t[p]);
        }
        p + 1
    } else {
        assert(seq![x] + s =~= s.insert(0, x));
        0
    }
}

/// The evaluations of a group: most recent first, each evaluation once,
/// exactly the evaluations that have a row with the group's key, and
/// each summary is what one of those rows says.
pub proof fn law_group_evaluations(rows: Seq<EvaluationRow>, k: KeyView)
    ensures
        sorted_desc(group_evaluations(rows, k), |s: EvaluationSummary| s.started_at as int),
        forall|i: int, j: int|
            0 <= i < j < group_evaluations(rows, k).len() ==> group_evaluations(rows, k)[i].id
                != group_evaluations(rows, k)[j].id,
        forall|e: u128| has_id(group_evaluations(rows, k), e) <==> in_group(rows, e, k),
        forall|j: int|
            0 <= j < group_evaluations(rows, k).len() ==> exists|i: int|
                0 <= i < rows.len() && row_key(rows[i]) == k && summary_of(rows[i])
                    == #[trigger] group_evaluations(rows, k)[j],
    decreases rows.len(),
{
    if rows.len() > 0 {
        let prev = rows.drop_last();
        let acc = group_evaluations(prev, k);
        let r = rows.last();
        law_group_evaluations(prev, k);
        let g = group_evaluations(rows, k);
        if row_key(r) == k && !has_id(acc, r.id) {
            let x = summary_of(r);
            let pos = lemma_insert_by_start_pos(acc, x);
            lemma_insert_sorted_desc(acc, pos, x, |s: EvaluationSummary| s.started_at as int);
            assert(g == acc.insert(pos, x));
            assert forall|i: int, j: int| 0 <= i < j < g.len() implies g[i].id != g[j].id by {
                if i == pos {
                    assert(g[j] == acc[j - 1]);
                } else if j == pos {
                    assert(g[i] == acc[i]);
                } else {
                    let ii = if i < pos { i } else { i - 1 };
                    let jj = if j < pos { j } else { j - 1 };
                    assert(g[i] == acc[ii]);
                    assert(g[j] == acc[jj]);
                }
            }
            assert forall|e: u128| has_id(g, e) <==> in_group(rows, e, k) by {
                if has_id(g, e) {
                    let j = choose|j: int| 0 <= j < g.len() && g[j].id == e;
                    if j < pos {
                        assert(g[j] == acc[j]);
                    } else if j > pos {
                        assert(g[j] == acc[j - 1]);
                    } else {
                        assert(rows[rows.len() - 1].id == e);
                    }
                    if has_id(acc, e) {
                        let i = choose|i: int|
                            0 <= i < prev.len() && prev[i].id == e && row_key(prev[i]) == k;
                        assert(rows[i] == prev[i]);
                    }
                }
                if in_group(rows, e, k) {
                    let i = choose|i: int|
                        0 <= i < rows.len() && rows[i].id == e && row_key(rows[i]) == k;
                    if i < rows.len() - 1 {
                        assert(prev[i] == rows[i]);
                        assert(in_group(prev, e, k));
                        let j = choose|j: int| 0 <= j < acc.len() && acc[j].id == e;
                        if j < pos {
                            assert(g[j] == acc[j]);
                        } else {
                            assert(g[j + 1] == acc[j]);
                        }
                    } else {
                        assert(g[pos] == x);
                    }
                }
            }
            assert forall|j: int| 0 <= j < g.len() implies exists|i: int|
                0 <= i < rows.len() && row_key(rows[i]) == k && summary_of(rows[i]) == #[trigger] g[j] by {
                if j == pos {
                    assert(row_key(rows[rows.len() - 1]) == k && summary_of(rows[rows.len() - 1]) == g[j]);
                } else {
                    let jj = if j < pos { j } else { j - 1 };
                    assert(g[j] == acc[jj]);
                    let i = choose|i: int|
                        0 <= i < prev.len() && row_key(prev[i]) == k && summary_of(prev[i]) == acc[jj];
                    assert(rows[i] == prev[i]);
                }
            }
        } else {
            assert(g == acc);
            assert forall|e: u128| has_id(g, e) <==> in_group(rows, e, k) by {
                if has_id(g, e) {
                    let i = choose|i: int|
                        0 <= i < prev.len() && prev[i].id == e && row_key(prev[i]) == k;
                    assert(rows[i] == prev[i]);
                }
                if in_group(rows, e, k) {
                    let i = choose|i: int|
                        0 <= i < rows.len() && rows[i].id == e && row_key(rows[i]) == k;
                    if i < rows.len() - 1 {
                        assert(prev[i] == rows[i]);
                        assert(in_group(prev, e, k));
                    }
                }
            }
            assert forall|j: int| 0 <= j < g.len() implies exists|i: int|
                0 <= i < rows.len() && row_key(rows[i]) == k && summary_of(rows[i]) == #[trigger] g[j] by {
                let i = choose|i: int|
                    0 <= i < prev.len() && row_key(prev[i]) == k && summary_of(prev[i]) == acc[j];
                assert(rows[i] == prev[i]);
            }
        }
    }
}

proof fn lemma_pair_lt_facts(p: PairView, q: PairView, r: PairView)
    ensures
        !pair_lt(p, p),
        p != q ==> (pair_lt(p, q) || pair_lt(q, p)),
        !(pair_lt(p, q) && pair_lt(q, p)),
        pair_lt(p, q) && pair_lt(q, r) ==> pair_lt(p, r),
{
    lemma_text_lt_irreflexive(p.0);
    lemma_text_lt_irreflexive(p.1);
    lemma_text_lt_total(p.0, q.0);
    lemma_text_lt_total(p.1, q.1);
    if pair_lt(p, q) && pair_lt(q, r) {
        if text_lt(p.0, q.0) && text_lt(q.0, r.0) {
            lemma_text_lt_transitive(p.0, q.0, r.0);
        }
        if p.0 == q.0 && q.0 == r.0 && text_lt(p.1, q.1) && text_lt(q.1, r.1) {
            lemma_text_lt_transitive(p.1, q.1, r.1);
        }
    }
}

/// `s` is strictly increasing in the order of bucket keys.
pub open spec fn strictly_sorted_pairs(s: Seq<PairView>) -> bool {
    forall|i: int, j: int| 0 <= i < j < s.len() ==> pair_lt(s[i], s[j])
}

proof fn lemma_insert_pair(s: Seq<PairView>, p: PairView)
    requires
        strictly_sorted_pairs(s),
    ensures
        strictly_sorted_pairs(insert_pair(s, p)),
        forall|x: PairView| insert_pair(s, p).contains(x) <==> (s.contains(x) || x == p),
    decreases s.len(),
{
    let r = insert_pair(s, p);
    if s.len() == 0 {
        assert(r =~= seq![p]);
        lemma_push_contains(s, p);
        assert(s.push(p) =~= r);
    } else if s[0] == p {
        assert forall|x: PairView| r.contains(x) <==> (s.contains(x) || x == p) by {
            if x == p {
                assert(s[0] == x);
            }
        }
    } else if pair_lt(p, s[0]) {
        assert(r =~= s.insert(0, p));
        lemma_insert_contains(s, 0, p);
        assert forall|i: int, j: int| 0 <= i < j < r.len() implies pair_lt(r[i], r[j]) by {
            if i == 0 {
                assert(r[j] == s[j - 1]);
                if j - 1 > 0 {
                    lemma_pair_lt_facts(p, s[0], s[j - 1]);
                }
            } else {
                assert(r[i] == s[i - 1]);
                assert(r[j] == s[j - 1]);
            }
        }
    } else {
        let t = s.drop_first();
        assert(strictly_sorted_pairs(t)) by {
            assert forall|i: int, j: int| 0 <= i < j < t.len() implies pair_lt(t[i], t[j]) by {
                assert(t[i] == s[i + 1]);
                assert(t[j] == s[j + 1]);
            }
        }
        lemma_insert_pair(t, p);
        let rt = insert_pair(t, p);
        assert(forall|x: PairView| rt.contains(x) <==> (t.contains(x) || x == p));
        assert(rt.contains(p));
        lemma_pair_lt_facts(s[0], p, p);
        assert(pair_lt(s[0], p));
        assert(r == seq![s[0]] + rt);
        assert forall|x: PairView| r.contains(x) <==> (s.contains(x) || x == p) by {
            if r.contains(x) {
                let i = choose|i: int| 0 <= i < r.len() && r[i] == x;
                if i > 0 {
                    assert(rt[i - 1] == x);
                    if t.contains(x) {
                        let j = choose|j: int| 0 <= j < t.len() && t[j] == x;
                        assert(s[j + 1] == x);
                    }
                } else {
                    assert(s[0] == x);
                }
            }
            if s.contains(x) {
                let i = choose|i: int| 0 <= i < s.len() && s[i] == x;
                if i == 0 {
                    assert(r[0] == x);
                } else {
                    assert(t[i - 1] == x);
                    assert(rt.contains(x));
                    let j = choose|j: int| 0 <= j < rt.len() && rt[j] == x;
                    assert(r[j + 1] == x);
                }
            }
            if x == p {
                assert(rt.contains(p) <==> (t.contains(p) || p == p));
                let j = choose|j: int| 0 <= j < rt.len() && rt[j] == x;
                assert(r[j + 1] == x);
            }
        }
        assert forall|i: int, j: int| 0 <= i < j < r.len() implies pair_lt(r[i], r[j]) by {
            if i == 0 {
                assert(r[j] == rt[j - 1]);
                assert(rt.contains(rt[j - 1]));
                if t.contains(rt[j - 1]) {
                    let m = choose|m: int| 0 <= m < t.len() && t[m] == rt[j - 1];
                    assert(s[m + 1] == rt[j - 1]);
                }
            } else {
                assert(r[i] == rt[i - 1]);
                assert(r[j] == rt[j - 1]);
            }
        }
    }
}

/// The handshake buckets of a group are strictly ordered by mode and key
/// exchange group (so no bucket comes twice), and there is a bucket for
/// exactly the (mode, group) pairs of the handshakes of the group.
pub proof fn law_handshake_buckets(rows: Seq<EvaluationRow>, hs: Seq<HandshakeRow>, k: KeyView)
    ensures
        strictly_sorted_pairs(handshake_keys(rows, hs, k)),
        forall|p: PairView|
            handshake_keys(rows, hs, k).contains(p) <==> exists|i: int|
                0 <= i < hs.len() && handshake_pair(rows, hs[i], k) == Some(p),
    decreases hs.len(),
{
    if hs.len() > 0 {
        let prev = hs.drop_last();
        law_handshake_buckets(rows, prev, k);
        let acc = handshake_keys(rows, prev, k);
        match handshake_pair(rows, hs.last(), k) {
            Some(p) => lemma_insert_pair(acc, p),
            None => {},
        }
        assert forall|p: PairView|
            handshake_keys(rows, hs, k).contains(p) <==> exists|i: int|
                0 <= i < hs.len() && handshake_pair(rows, hs[i], k) == Some(p) by {
            if acc.contains(p) {
                let i = choose|i: int| 0 <= i < prev.len() && handshake_pair(rows, prev[i], k) == Some(p);
                assert(hs[i] == prev[i]);
            }
            if exists|i: int| 0 <= i < hs.len() && handshake_pair(rows, hs[i], k) == Some(p) {
                let i = choose|i: int| 0 <= i < hs.len() && handshake_pair(rows, hs[i], k) == Some(p);
                if i < hs.len() - 1 {
                    assert(prev[i] == hs[i]);
                }
            }
            if handshake_keys(rows, hs, k).contains(p) && !acc.contains(p) {
                assert(handshake_pair(rows, hs[hs.len() - 1], k) == Some(p));
            }
        }
    }
}

/// A handshake measurement is associated with a group exactly when its
/// evaluation belongs to that group: with every group of its evaluation.
pub proof fn law_handshake_in_every_group_of_evaluation(
    rows: Seq<EvaluationRow>,
    h: HandshakeRow,
    k: KeyView,
)
    ensures
        handshake_pair(rows, h, k) is Some <==> in_group(rows, h.evaluation_id, k),
{
    if in_group(rows, h.evaluation_id, k) {
        let i = choose|i: int|
            0 <= i < rows.len() && rows[i].id == h.evaluation_id && row_key(rows[i]) == k;
        lemma_first_row_exists(rows, h.evaluation_id, i);
    }
}

/// A resource measurement is associated with a group exactly when its
/// evaluation belongs to that group.
pub proof fn law_resource_in_every_group_of_evaluation(
    rows: Seq<EvaluationRow>,
    r: ResourceRow,
    k: KeyView,
)
    ensures
        resource_pair(rows, r, k) is Some <==> in_group(rows, r.evaluation_id, k),
{
    if in_group(rows, r.evaluation_id, k) {
        let i = choose|i: int|
            0 <= i < rows.len() && rows[i].id == r.evaluation_id && row_key(rows[i]) == k;
        lemma_first_row_exists(rows, r.evaluation_id, i);
    }
}

/// A transfer measurement is associated only with the group of its own
/// transfer configuration, so with at most one group.
pub proof fn law_transfer_in_own_group_only(
    rows: Seq<EvaluationRow>,
    t: TransferRow,
    k1: KeyView,
    k2: KeyView,
)
    ensures
        transfer_pair(rows, t, k1) is Some <==> transfer_key(rows, t) == Some(k1),
        transfer_pair(rows, t, k1) is Some && transfer_pair(rows, t, k2) is Some ==> k1 == k2,
{
}

/// The rows of a transfer bucket are exactly the transfer rows of that
/// bucket, in their order.
pub proof fn law_transfer_rows(
    rows: Seq<EvaluationRow>,
    ts: Seq<TransferRow>,
    k: KeyView,
    p: PairView,
)
    ensures
        forall|i: int|
            transfer_rows(rows, ts, k, p).contains(i) <==> (0 <= i < ts.len() && transfer_pair(
                rows,
                ts[i],
                k,
            ) == Some(p)),
        forall|a: int, b: int|
            0 <= a < b < transfer_rows(rows, ts, k, p).len() ==> transfer_rows(rows, ts, k, p)[a]
                < transfer_rows(rows, ts, k, p)[b],
    decreases ts.len(),
{
    if ts.len() > 0 {
        let prev = ts.drop_last();
        law_transfer_rows(rows, prev, k, p);
        let acc = transfer_rows(rows, prev, k, p);
        lemma_push_contains(acc, ts.len() - 1);
        assert forall|i: int|
            transfer_rows(rows, ts, k, p).contains(i) <==> (0 <= i < ts.len() && transfer_pair(
                rows,
                ts[i],
                k,
            ) == Some(p)) by {
            if 0 <= i < ts.len() - 1 {
                assert(prev[i] == ts[i]);
            }
            assert(acc.contains(i) ==> 0 <= i < prev.len());
            if transfer_pair(rows, ts.last(), k) == Some(p) {
                assert(transfer_rows(rows, ts, k, p) == acc.push(ts.len() - 1));
                assert(acc.push(ts.len() - 1).contains(i) <==> (acc.contains(i) || i == ts.len() - 1));
            } else {
                assert(transfer_rows(rows, ts, k, p) == acc);
            }
        }
        assert forall|a: int, b: int|
            0 <= a < b < transfer_rows(rows, ts, k, p).len() implies transfer_rows(rows, ts, k, p)[a]
                < transfer_rows(rows, ts, k, p)[b] by {
            if b == acc.len() && transfer_pair(rows, ts.last(), k) == Some(p) {
                assert(acc.contains(acc[a]));
            }
        }
    }
}

/// Whether handshake `h` counts in bucket `p` of the group of key `k`:
/// its evaluation belongs to the group, was made in the bucket's mode, and
/// the handshake used the bucket's key exchange group.
pub open spec fn counts_in_bucket(rows: Seq<EvaluationRow>, h: HandshakeRow, k: KeyView, p: PairView) -> bool {
    &&& in_group(rows, h.evaluation_id, k)
    &&& mode_of(rows, h.evaluation_id) == Some(p.0)
    &&& h.kx_group@ == p.1
}

/// The durations of handshake bucket `p` of the group of key `k` are
/// exactly the durations, in row order, of the handshakes that count in
/// it; a handshake of an evaluation outside the group never contributes.
pub proof fn law_handshake_durations(
    rows: Seq<EvaluationRow>,
    hs: Seq<HandshakeRow>,
    k: KeyView,
    p: PairView,
)
    ensures
        handshake_durations(rows, hs, k, p) == hs.filter(
            |h: HandshakeRow| counts_in_bucket(rows, h, k, p),
        ).map_values(|h: HandshakeRow| h.duration_ms),
    decreases hs.len(),
{
    reveal(Seq::filter);
    if hs.len() > 0 {
        let prev = hs.drop_last();
        law_handshake_durations(rows, prev, k, p);
        let h = hs.last();
        let f = |h: HandshakeRow| counts_in_bucket(rows, h, k, p);
        let d = |h: HandshakeRow| h.duration_ms;
        assert(handshake_pair(rows, h, k) == Some(p) <==> counts_in_bucket(rows, h, k, p));
        assert(hs.filter(f) == if f(h) {
            prev.filter(f).push(h)
        } else {
            prev.filter(f)
        });
        if f(h) {
            assert(prev.filter(f).push(h).map_values(d) =~= prev.filter(f).map_values(d).push(
                h.duration_ms,
            ));
        }
    } else {
        assert(hs.filter(|h: HandshakeRow| counts_in_bucket(rows, h, k, p)).map_values(
            |h: HandshakeRow| h.duration_ms,
        ) =~= Seq::<i64>::empty());
    }
}

/// Every handshake bucket of an organised group holds exactly the
/// durations, in row order, of the handshakes of the group's own
/// evaluations made in the bucket's mode with the bucket's key exchange
/// group.
pub proof fn law_group_handshakes(
    g: ResultGroup,
    rows: Seq<EvaluationRow>,
    hs: Seq<HandshakeRow>,
    ts: Seq<TransferRow>,
    rs: Seq<ResourceRow>,
)
    requires
        group_matches(g, rows, hs, ts, rs),
    ensures
        forall|j: int|
            0 <= j < g.handshakes@.len() ==> (#[trigger] g.handshakes@[j]).durations@ == hs.filter(
                |h: HandshakeRow|
                    counts_in_bucket(
                        rows,
                        h,
                        g.view_key(),
                        (g.handshakes@[j].crypto_mode@, g.handshakes@[j].kx_group@),
                    ),
            ).map_values(|h: HandshakeRow| h.duration_ms),
{
    assert forall|j: int| 0 <= j < g.handshakes@.len() implies (#[trigger] g.handshakes@[j]).durations@
        == hs.filter(
        |h: HandshakeRow|
            counts_in_bucket(
                rows,
                h,
                g.view_key(),
                (g.handshakes@[j].crypto_mode@, g.handshakes@[j].kx_group@),
            ),
    ).map_values(|h: HandshakeRow| h.duration_ms) by {
        law_handshake_durations(
            rows,
            hs,
            g.view_key(),
            (g.handshakes@[j].crypto_mode@, g.handshakes@[j].kx_group@),
        );
    }
}

/// Whether resource row `r` counts in bucket `p` of the group of key `k`:
/// its evaluation belongs to the group, was made in the bucket's mode, and
/// the measured container has the bucket's role.
pub open spec fn resource_counts_in_bucket(
    rows: Seq<EvaluationRow>,
    r: ResourceRow,
    k: KeyView,
    p: PairView,
) -> bool {
    &&& in_group(rows, r.evaluation_id, k)
    &&& mode_of(rows, r.evaluation_id) == Some(p.0)
    &&& r.role@ == p.1
}

/// The rows of resource bucket `p` of the group of key `k` are exactly the
/// resource rows that count in it, in increasing order.
pub proof fn law_resource_rows(
    rows: Seq<EvaluationRow>,
    rs: Seq<ResourceRow>,
    k: KeyView,
    p: PairView,
)
    ensures
        forall|i: int|
            resource_rows(rows, rs, k, p).contains(i) <==> (0 <= i < rs.len()
                && resource_counts_in_bucket(rows, rs[i], k, p)),
        forall|a: int, b: int|
            0 <= a < b < resource_rows(rows, rs, k, p).len() ==> resource_rows(rows, rs, k, p)[a]
                < resource_rows(rows, rs, k, p)[b],
    decreases rs.len(),
{
    if rs.len() > 0 {
        let prev = rs.drop_last();
        law_resource_rows(rows, prev, k, p);
        let acc = resource_rows(rows, prev, k, p);
        lemma_push_contains(acc, rs.len() - 1);
        assert(resource_pair(rows, rs.last(), k) == Some(p) <==> resource_counts_in_bucket(
            rows,
            rs.last(),
            k,
            p,
        ));
        assert forall|i: int|
            resource_rows(rows, rs, k, p).contains(i) <==> (0 <= i < rs.len()
                && resource_counts_in_bucket(rows, rs[i], k, p)) by {
            if 0 <= i < rs.len() - 1 {
                assert(prev[i] == rs[i]);
            }
            assert(acc.contains(i) ==> 0 <= i < prev.len());
            if resource_pair(rows, rs.last(), k) == Some(p) {
                assert(resource_rows(rows, rs, k, p) == acc.push(rs.len() - 1));
                assert(acc.push(rs.len() - 1).contains(i) <==> (acc.contains(i) || i == rs.len() - 1));
            } else {
                assert(resource_rows(rows, rs, k, p) == acc);
            }
        }
        assert forall|a: int, b: int|
            0 <= a < b < resource_rows(rows, rs, k, p).len() implies resource_rows(rows, rs, k, p)[a]
                < resource_rows(rows, rs, k, p)[b] by {
            if b == acc.len() && resource_pair(rows, rs.last(), k) == Some(p) {
                assert(acc.contains(acc[a]));
            }
        }
    }
}

/// A transfer row counts in bucket `p` of the group of key `k` exactly
/// when its own transfer configuration, with the client count of its
/// evaluation, is the group's key, its evaluation was made in the bucket's
/// mode, and it used the bucket's key exchange group.
pub proof fn law_transfer_bucket_meaning(
    rows: Seq<EvaluationRow>,
    t: TransferRow,
    k: KeyView,
    p: PairView,
)
    ensures
        transfer_pair(rows, t, k) == Some(p) <==> (transfer_key(rows, t) == Some(k) && mode_of(
            rows,
            t.evaluation_id,
        ) == Some(p.0) && t.kx_group@ == p.1),
        transfer_key(rows, t) == Some(k) ==> {
            &&& k.1 == t.operation@
            &&& k.2 == t.file_size
            &&& k.3 == t.file_size_unit@
            &&& k.4 == t.num_files
            &&& exists|i: int|
                0 <= i < rows.len() && rows[i].id == t.evaluation_id && rows[i].num_clients == k.0
        },
{
    if transfer_key(rows, t) == Some(k) {
        let i = first_row_of(rows, t.evaluation_id)->0;
        lemma_first_row_of_props(rows, t.evaluation_id);
        assert(rows[i].id == t.evaluation_id && rows[i].num_clients == k.0);
    }
}

} // verus!
