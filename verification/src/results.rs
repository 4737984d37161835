//! Organisation of evaluation results into experimental groups.
//!
//! Evaluations are grouped by their transfer configuration. Handshake
//! and resource measurements belong to an evaluation as a whole and are
//! associated with every group of that evaluation; transfer measurements
//! belong only to the group of their own transfer configuration.

use vstd::prelude::*;
use crate::text_order::{text_lt, text_less};

verus! {

/// One row of the evaluation query: an evaluation joined with one of
/// its transfer configurations. Times are microseconds since the epoch.
pub struct EvaluationRow {
    pub id: u128,
    pub crypto_mode: String,
    pub num_clients: i32,
    pub started_at: i64,
    pub finished_at: Option<i64>,
    pub status: String,
    pub operation: String,
    pub file_size: i64,
    pub file_size_unit: String,
    pub num_files: i32,
}

/// A successful TLS handshake measurement of an evaluation.
pub struct HandshakeRow {
    pub evaluation_id: u128,
    pub kx_group: String,
    pub duration_ms: i64,
}

/// A successful transfer measurement: its evaluation and configuration.
pub struct TransferRow {
    pub evaluation_id: u128,
    pub operation: String,
    pub file_size: i64,
    pub file_size_unit: String,
    pub num_files: i32,
    pub kx_group: String,
    pub duration_ms: i64,
    pub bytes_transferred: i64,
}

/// A resource measurement of one container role of an evaluation.
pub struct ResourceRow {
    pub evaluation_id: u128,
    pub role: String,
}

/// Identifies an experimental configuration.
pub struct GroupKey {
    pub num_clients: i32,
    pub operation: String,
    pub file_size: i64,
    pub file_size_unit: String,
    pub num_files: i32,
}

/// A summarized evaluation.
pub struct EvaluationSummary {
    pub id: u128,
    pub crypto_mode: String,
    pub num_clients: i32,
    pub started_at: i64,
    pub finished_at: Option<i64>,
    pub status: String,
}

/// The handshake durations of one (cryptographic mode, key exchange group).
pub struct HandshakeBucket {
    pub crypto_mode: String,
    pub kx_group: String,
    pub durations: Vec<i64>,
}

/// The rows (positions in the input) of one (cryptographic mode, label),
/// the label being the key exchange group of transfers or the role of
/// resource measurements.
pub struct RowBucket {
    pub crypto_mode: String,
    pub label: String,
    pub rows: Vec<usize>,
}

/// One experimental group and the measurements associated with it.
pub struct ResultGroup {
    pub num_clients: i32,
    pub operation: String,
    pub file_size: i64,
    pub file_size_unit: String,
    pub num_files: i32,
    pub evaluations: Vec<EvaluationSummary>,
    pub handshakes: Vec<HandshakeBucket>,
    pub transfers: Vec<RowBucket>,
    pub resources: Vec<RowBucket>,
}

/// The mathematical form of a group key.
pub type KeyView = (i32, Seq<char>, i64, Seq<char>, i32);

/// The mathematical form of a bucket key: (mode, label).
pub type PairView = (Seq<char>, Seq<char>);

pub open spec fn row_key(r: EvaluationRow) -> KeyView {
    (r.num_clients, r.operation@, r.file_size, r.file_size_unit@, r.num_files)
}

impl GroupKey {
    pub open spec fn view_key(&self) -> KeyView {
        (self.num_clients, self.operation@, self.file_size, self.file_size_unit@, self.num_files)
    }
}

impl ResultGroup {
    pub open spec fn view_key(&self) -> KeyView {
        (self.num_clients, self.operation@, self.file_size, self.file_size_unit@, self.num_files)
    }
}

/// The distinct group keys of the rows, in order of first appearance.
pub open spec fn distinct_keys(rows: Seq<EvaluationRow>) -> Seq<KeyView>
    decreases rows.len(),
{
    if rows.len() == 0 {
        Seq::empty()
    } else {
        let acc = distinct_keys(rows.drop_last());
        if acc.contains(row_key(rows.last())) {
            acc
        } else {
            acc.push(row_key(rows.last()))
        }
    }
}

/// Position of the first row of evaluation `e`.
pub open spec fn first_row_of(rows: Seq<EvaluationRow>, e: u128) -> Option<int>
    decreases rows.len(),
{
    if rows.len() == 0 {
        None
    } else {
        match first_row_of(rows.drop_last(), e) {
            Some(i) => Some(i),
            None => if rows.last().id == e {
                Some(rows.len() - 1)
            } else {
                None
            },
        }
    }
}

/// The cryptographic mode of evaluation `e`: that of its first row.
pub open spec fn mode_of(rows: Seq<EvaluationRow>, e: u128) -> Option<Seq<char>> {
    match first_row_of(rows, e) {
        Some(i) => Some(rows[i].crypto_mode@),
        None => None,
    }
}

/// Evaluation `e` belongs to the group of key `k`.
pub open spec fn in_group(rows: Seq<EvaluationRow>, e: u128, k: KeyView) -> bool {
    exists|i: int| 0 <= i < rows.len() && rows[i].id == e && row_key(rows[i]) == k
}

proof fn lemma_first_row_of(rows: Seq<EvaluationRow>, e: u128, i: int)
    requires
        0 <= i <= rows.len(),
        forall|j: int| 0 <= j < i ==> rows[j].id != e,
    ensures
        i < rows.len() && rows[i].id == e ==> first_row_of(rows, e) == Some(i),
        i == rows.len() ==> first_row_of(rows, e) is None,
    decreases rows.len(),
{
    if rows.len() > 0 {
        if i < rows.len() {
            if i < rows.len() - 1 {
                lemma_first_row_of(rows.drop_last(), e, i);
            } else {
                lemma_first_row_of(rows.drop_last(), e, i);
            }
        } else {
            lemma_first_row_of(rows.drop_last(), e, i - 1);
        }
    }
}

/// Finds the first row of an evaluation.
fn find_first_row(rows: &Vec<EvaluationRow>, e: u128) -> (found: Option<usize>)
    ensures
        match found {
            Some(i) => i < rows.len() && rows@[i as int].id == e && first_row_of(rows@, e) == Some(
                i as int,
            ),
            None => first_row_of(rows@, e) is None,
        },
{
    let mut i: usize = 0;
    while i < rows.len()
        invariant
            i <= rows.len(),
            forall|j: int| 0 <= j < i ==> rows@[j].id != e,
        decreases rows.len() - i,
    {
        if rows[i].id == e {
            proof { lemma_first_row_of(rows@, e, i as int); }
            return Some(i);
        }
        i = i + 1;
    }
    proof { lemma_first_row_of(rows@, e, i as int); }
    None
}

/// Whether a row has the given key.
fn row_has_key(r: &EvaluationRow, k: &GroupKey) -> (b: bool)
    ensures
        b == (row_key(*r) == k.view_key()),
{
    r.num_clients == k.num_clients && r.operation == k.operation && r.file_size == k.file_size
        && r.file_size_unit == k.file_size_unit && r.num_files == k.num_files
}

/// Whether an evaluation belongs to the group of a key.
fn evaluation_in_group(rows: &Vec<EvaluationRow>, e: u128, k: &GroupKey) -> (b: bool)
    ensures
        b == in_group(rows@, e, k.view_key()),
{
    let mut i: usize = 0;
    while i < rows.len()
        invariant
            i <= rows.len(),
            forall|j: int| 0 <= j < i ==> !(rows@[j].id == e && row_key(rows@[j]) == k.view_key()),
        decreases rows.len() - i,
    {
        if rows[i].id == e && row_has_key(&rows[i], k) {
            return true;
        }
        i = i + 1;
    }
    false
}

/// The key of a row, as a value of its own.
fn key_of_row(r: &EvaluationRow) -> (k: GroupKey)
    ensures
        k.view_key() == row_key(*r),
{
    GroupKey {
        num_clients: r.num_clients,
        operation: r.operation.clone(),
        file_size: r.file_size,
        file_size_unit: r.file_size_unit.clone(),
        num_files: r.num_files,
    }
}

/// The distinct group keys of the evaluation rows, in order of first appearance.
fn collect_group_keys(rows: &Vec<EvaluationRow>) -> (keys: Vec<GroupKey>)
    ensures
        keys@.map_values(|k: GroupKey| k.view_key()) == distinct_keys(rows@),
{
    let mut keys: Vec<GroupKey> = Vec::new();
    let mut i: usize = 0;
    while i < rows.len()
        invariant
            i <= rows.len(),
            keys@.map_values(|k: GroupKey| k.view_key()) == distinct_keys(rows@.take(i as int)),
        decreases rows.len() - i,
    {
        let ghost prev = keys@.map_values(|k: GroupKey| k.view_key());
        let mut found = false;
        let mut j: usize = 0;
        while j < keys.len()
            invariant
                j <= keys.len(),
                i < rows.len(),
                prev == keys@.map_values(|k: GroupKey| k.view_key()),
                found ==> prev.contains(row_key(rows@[i as int])),
                !found ==> forall|m: int| 0 <= m < j ==> prev[m] != row_key(rows@[i as int]),
            decreases keys.len() - j,
        {
            assert(prev[j as int] == keys@[j as int].view_key());
            if row_has_key(&rows[i], &keys[j]) {
                found = true;
            }
            j = j + 1;
        }
        assert(rows@.take(i + 1).drop_last() =~= rows@.take(i as int));
        assert(rows@.take(i + 1).last() == rows@[i as int]);
        if !found {
            keys.push(key_of_row(&rows[i]));
            assert(keys@.map_values(|k: GroupKey| k.view_key()) =~= prev.push(row_key(rows@[i as int])));
        }
        i = i + 1;
    }
    assert(rows@.take(rows.len() as int) =~= rows@);
    keys
}

/// The summary that a row gives of its evaluation.
pub open spec fn summary_of(r: EvaluationRow) -> EvaluationSummary {
    EvaluationSummary {
        id: r.id,
        crypto_mode: r.crypto_mode,
        num_clients: r.num_clients,
        started_at: r.started_at,
        finished_at: r.finished_at,
        status: r.status,
    }
}

/// Some summary in `s` is of evaluation `e`.
pub open spec fn has_id(s: Seq<EvaluationSummary>, e: u128) -> bool {
    exists|j: int| 0 <= j < s.len() && s[j].id == e
}

/// Inserts `x` into a list ordered by descending start time, after
/// every summary that started at the same time or later.
pub open spec fn insert_by_start(s: Seq<EvaluationSummary>, x: EvaluationSummary) -> Seq<
    EvaluationSummary,
>
    decreases s.len(),
{
    if s.len() == 0 {
        seq![x]
    } else if s[0].started_at >= x.started_at {
        seq![s[0]] + insert_by_start(s.drop_first(), x)
    } else {
        seq![x] + s
    }
}

/// The evaluations of the group of key `k`: one summary per evaluation,
/// taken from its first row with that key, most recent first (evaluations
/// that started at the same time keep the order of their rows).
pub open spec fn group_evaluations(rows: Seq<EvaluationRow>, k: KeyView) -> Seq<EvaluationSummary>
    decreases rows.len(),
{
    if rows.len() == 0 {
        Seq::empty()
    } else {
        let acc = group_evaluations(rows.drop_last(), k);
        let r = rows.last();
        if row_key(r) == k && !has_id(acc, r.id) {
            insert_by_start(acc, summary_of(r))
        } else {
            acc
        }
    }
}

fn summary_from_row(r: &EvaluationRow) -> (s: EvaluationSummary)
    ensures
        s == summary_of(*r),
{
    EvaluationSummary {
        id: r.id,
        crypto_mode: r.crypto_mode.clone(),
        num_clients: r.num_clients,
        started_at: r.started_at,
        finished_at: r.finished_at,
        status: r.status.clone(),
    }
}

fn contains_evaluation(v: &Vec<EvaluationSummary>, e: u128) -> (b: bool)
    ensures
        b == has_id(v@, e),
{
    let mut i: usize = 0;
    while i < v.len()
        invariant
            i <= v.len(),
            forall|j: int| 0 <= j < i ==> v@[j].id != e,
        decreases v.len() - i,
    {
        if v[i].id == e {
            return true;
        }
        i = i + 1;
    }
    false
}

fn insert_evaluation_by_start(v: &mut Vec<EvaluationSummary>, x: EvaluationSummary)
    ensures
        final(v)@ == insert_by_start(old(v)@, x),
{
    let ghost s = v@;
    let mut i: usize = 0;
    assert(s.take(0) + s.skip(0) =~= s);
    while i < v.len() && v[i].started_at >= x.started_at
        invariant
            v@ == s,
            i <= v.len(),
            insert_by_start(s, x) == s.take(i as int) + insert_by_start(s.skip(i as int), x),
        decreases v.len() - i,
    {
        assert(s.skip(i as int).drop_first() =~= s.skip(i + 1));
        assert(s.take(i as int) + seq![s[i as int]] =~= s.take(i + 1));
        assert(s.take(i as int) + (seq![s[i as int]] + insert_by_start(s.skip(i + 1), x))
            =~= s.take(i + 1) + insert_by_start(s.skip(i + 1), x));
        i = i + 1;
    }
    assert(s.take(i as int) + insert_by_start(s.skip(i as int), x) =~= s.insert(i as int, x));
    v.insert(i, x);
}

/// The evaluations of one group, most recent first.
fn collect_group_evaluations(rows: &Vec<EvaluationRow>, k: &GroupKey) -> (evaluations: Vec<
    EvaluationSummary,
>)
    ensures
        evaluations@ == group_evaluations(rows@, k.view_key()),
{
    let mut evaluations: Vec<EvaluationSummary> = Vec::new();
    let mut i: usize = 0;
    while i < rows.len()
        invariant
            i <= rows.len(),
            evaluations@ == group_evaluations(rows@.take(i as int), k.view_key()),
        decreases rows.len() - i,
    {
        assert(rows@.take(i + 1).drop_last() =~= rows@.take(i as int));
        assert(rows@.take(i + 1).last() == rows@[i as int]);
        if row_has_key(&rows[i], k) && !contains_evaluation(&evaluations, rows[i].id) {
            let summary = summary_from_row(&rows[i]);
            insert_evaluation_by_start(&mut evaluations, summary);
        }
        i = i + 1;
    }
    assert(rows@.take(rows.len() as int) =~= rows@);
    evaluations
}

/// Strict order of bucket keys: by mode, then by label.
pub open spec fn pair_lt(p: PairView, q: PairView) -> bool {
    text_lt(p.0, q.0) || (p.0 == q.0 && text_lt(p.1, q.1))
}

/// Inserts a key into a list ordered by `pair_lt`, unless it is there.
pub open spec fn insert_pair(s: Seq<PairView>, p: PairView) -> Seq<PairView>
    decreases s.len(),
{
    if s.len() == 0 {
        seq![p]
    } else if s[0] == p {
        s
    } else if pair_lt(p, s[0]) {
        seq![p] + s
    } else {
        seq![s[0]] + insert_pair(s.drop_first(), p)
    }
}

/// The bucket of group `k` that a handshake row belongs to, if any: its
/// evaluation must belong to the group.
pub open spec fn handshake_pair(rows: Seq<EvaluationRow>, h: HandshakeRow, k: KeyView) -> Option<
    PairView,
> {
    if in_group(rows, h.evaluation_id, k) {
        match mode_of(rows, h.evaluation_id) {
            Some(m) => Some((m, h.kx_group@)),
            None => None,
        }
    } else {
        None
    }
}

/// The bucket of group `k` that a resource row belongs to, if any.
pub open spec fn resource_pair(rows: Seq<EvaluationRow>, r: ResourceRow, k: KeyView) -> Option<
    PairView,
> {
    if in_group(rows, r.evaluation_id, k) {
        match mode_of(rows, r.evaluation_id) {
            Some(m) => Some((m, r.role@)),
            None => None,
        }
    } else {
        None
    }
}

/// The key of the group that a transfer row belongs to: the number of
/// clients of its evaluation (from the evaluation's first row) and the
/// transfer's own configuration.
pub open spec fn transfer_key(rows: Seq<EvaluationRow>, t: TransferRow) -> Option<KeyView> {
    match first_row_of(rows, t.evaluation_id) {
        Some(i) => Some(
            (rows[i].num_clients, t.operation@, t.file_size, t.file_size_unit@, t.num_files),
        ),
        None => None,
    }
}

/// The bucket of group `k` that a transfer row belongs to, if any.
pub open spec fn transfer_pair(rows: Seq<EvaluationRow>, t: TransferRow, k: KeyView) -> Option<
    PairView,
> {
    if transfer_key(rows, t) == Some(k) {
        match mode_of(rows, t.evaluation_id) {
            Some(m) => Some((m, t.kx_group@)),
            None => None,
        }
    } else {
        None
    }
}

/// The handshake buckets of group `k`, ordered by `pair_lt`.
pub open spec fn handshake_keys(rows: Seq<EvaluationRow>, hs: Seq<HandshakeRow>, k: KeyView) -> Seq<
    PairView,
>
    decreases hs.len(),
{
    if hs.len() == 0 {
        Seq::empty()
    } else {
        let acc = handshake_keys(rows, hs.drop_last(), k);
        match handshake_pair(rows, hs.last(), k) {
            Some(p) => insert_pair(acc, p),
            None => acc,
        }
    }
}

/// The durations of bucket `p` of group `k`, in row order.
pub open spec fn handshake_durations(
    rows: Seq<EvaluationRow>,
    hs: Seq<HandshakeRow>,
    k: KeyView,
    p: PairView,
) -> Seq<i64>
    decreases hs.len(),
{
    if hs.len() == 0 {
        Seq::empty()
    } else {
        let acc = handshake_durations(rows, hs.drop_last(), k, p);
        if handshake_pair(rows, hs.last(), k) == Some(p) {
            acc.push(hs.last().duration_ms)
        } else {
            acc
        }
    }
}

/// The transfer buckets of group `k`, ordered by `pair_lt`.
pub open spec fn transfer_keys(rows: Seq<EvaluationRow>, ts: Seq<TransferRow>, k: KeyView) -> Seq<
    PairView,
>
    decreases ts.len(),
{
    if ts.len() == 0 {
        Seq::empty()
    } else {
        let acc = transfer_keys(rows, ts.drop_last(), k);
        match transfer_pair(rows, ts.last(), k) {
            Some(p) => insert_pair(acc, p),
            None => acc,
        }
    }
}

/// The positions of the transfer rows of bucket `p` of group `k`.
pub open spec fn transfer_rows(
    rows: Seq<EvaluationRow>,
    ts: Seq<TransferRow>,
    k: KeyView,
    p: PairView,
) -> Seq<int>
    decreases ts.len(),
{
    if ts.len() == 0 {
        Seq::empty()
    } else {
        let acc = transfer_rows(rows, ts.drop_last(), k, p);
        if transfer_pair(rows, ts.last(), k) == Some(p) {
            acc.push(ts.len() - 1)
        } else {
            acc
        }
    }
}

/// The resource buckets of group `k`, ordered by `pair_lt`.
pub open spec fn resource_keys(rows: Seq<EvaluationRow>, rs: Seq<ResourceRow>, k: KeyView) -> Seq<
    PairView,
>
    decreases rs.len(),
{
    if rs.len() == 0 {
        Seq::empty()
    } else {
        let acc = resource_keys(rows, rs.drop_last(), k);
        match resource_pair(rows, rs.last(), k) {
            Some(p) => insert_pair(acc, p),
            None => acc,
        }
    }
}

/// The positions of the resource rows of bucket `p` of group `k`.
pub open spec fn resource_rows(
    rows: Seq<EvaluationRow>,
    rs: Seq<ResourceRow>,
    k: KeyView,
    p: PairView,
) -> Seq<int>
    decreases rs.len(),
{
    if rs.len() == 0 {
        Seq::empty()
    } else {
        let acc = resource_rows(rows, rs.drop_last(), k, p);
        if resource_pair(rows, rs.last(), k) == Some(p) {
            acc.push(rs.len() - 1)
        } else {
            acc
        }
    }
}

/// A bucket key as a value of its own.
pub struct BucketKey {
    pub crypto_mode: String,
    pub label: String,
}

impl BucketKey {
    pub open spec fn view_pair(&self) -> PairView {
        (self.crypto_mode@, self.label@)
    }
}

fn pair_less(p: &BucketKey, q: &BucketKey) -> (b: bool)
    ensures
        b == pair_lt(p.view_pair(), q.view_pair()),
{
    text_less(p.crypto_mode.as_str(), q.crypto_mode.as_str()) || (p.crypto_mode == q.crypto_mode
        && text_less(p.label.as_str(), q.label.as_str()))
}

fn insert_bucket_key(v: &mut Vec<BucketKey>, p: BucketKey)
    ensures
        final(v)@.map_values(|b: BucketKey| b.view_pair()) == insert_pair(
            old(v)@.map_values(|b: BucketKey| b.view_pair()),
            p.view_pair(),
        ),
{
    let ghost s = v@.map_values(|b: BucketKey| b.view_pair());
    let pv = Ghost(p.view_pair());
    let mut i: usize = 0;
    assert(s.take(0) + s.skip(0) =~= s);
    while i < v.len()
        invariant
            s == v@.map_values(|b: BucketKey| b.view_pair()),
            v@ == old(v)@,
            i <= v.len(),
            pv@ == p.view_pair(),
            insert_pair(s, pv@) == s.take(i as int) + insert_pair(s.skip(i as int), pv@),
        decreases v.len() - i,
    {
        assert(s.skip(i as int)[0] == v@[i as int].view_pair());
        if v[i].crypto_mode == p.crypto_mode && v[i].label == p.label {
            assert(s.take(i as int) + s.skip(i as int) =~= s);
            return;
        }
        if pair_less(&p, &v[i]) {
            assert(s.take(i as int) + (seq![pv@] + s.skip(i as int)) =~= s.insert(
                i as int,
                pv@,
            ));
            v.insert(i, p);
            assert(v@.map_values(|b: BucketKey| b.view_pair()) =~= s.insert(i as int, pv@));
            return;
        }
        assert(s.skip(i as int).drop_first() =~= s.skip(i + 1));
        assert(s.take(i as int) + (seq![s[i as int]] + insert_pair(s.skip(i + 1), pv@))
            =~= s.take(i + 1) + insert_pair(s.skip(i + 1), pv@));
        i = i + 1;
    }
    assert(s.take(i as int) + seq![pv@] =~= s.push(pv@));
    v.push(p);
    assert(v@.map_values(|b: BucketKey| b.view_pair()) =~= s.push(pv@));
}

fn bucket_key_matches(b: &Option<BucketKey>, key: &BucketKey) -> (m: bool)
    ensures
        m == (match b {
            Some(x) => x.view_pair() == key.view_pair(),
            None => false,
        }),
{
    match b {
        Some(x) => x.crypto_mode == key.crypto_mode && x.label == key.label,
        None => false,
    }
}

fn handshake_pair_of(rows: &Vec<EvaluationRow>, h: &HandshakeRow, k: &GroupKey) -> (b: Option<
    BucketKey,
>)
    ensures
        match b {
            Some(x) => handshake_pair(rows@, *h, k.view_key()) == Some(x.view_pair()),
            None => handshake_pair(rows@, *h, k.view_key()) is None,
        },
{
    if evaluation_in_group(rows, h.evaluation_id, k) {
        match find_first_row(rows, h.evaluation_id) {
            Some(i) => Some(
                BucketKey { crypto_mode: rows[i].crypto_mode.clone(), label: h.kx_group.clone() },
            ),
            None => None,
        }
    } else {
        None
    }
}

fn resource_pair_of(rows: &Vec<EvaluationRow>, r: &ResourceRow, k: &GroupKey) -> (b: Option<
    BucketKey,
>)
    ensures
        match b {
            Some(x) => resource_pair(rows@, *r, k.view_key()) == Some(x.view_pair()),
            None => resource_pair(rows@, *r, k.view_key()) is None,
        },
{
    if evaluation_in_group(rows, r.evaluation_id, k) {
        match find_first_row(rows, r.evaluation_id) {
            Some(i) => Some(
                BucketKey { crypto_mode: rows[i].crypto_mode.clone(), label: r.role.clone() },
            ),
            None => None,
        }
    } else {
        None
    }
}

fn transfer_pair_of(rows: &Vec<EvaluationRow>, t: &TransferRow, k: &GroupKey) -> (b: Option<
    BucketKey,
>)
    ensures
        match b {
            Some(x) => transfer_pair(rows@, *t, k.view_key()) == Some(x.view_pair()),
            None => transfer_pair(rows@, *t, k.view_key()) is None,
        },
{
    match find_first_row(rows, t.evaluation_id) {
        Some(i) => {
            if rows[i].num_clients == k.num_clients && t.operation == k.operation && t.file_size
                == k.file_size && t.file_size_unit == k.file_size_unit && t.num_files
                == k.num_files {
                Some(
                    BucketKey {
                        crypto_mode: rows[i].crypto_mode.clone(),
                        label: t.kx_group.clone(),
                    },
                )
            } else {
                None
            }
        },
        None => None,
    }
}

fn copy_bucket_key(b: &BucketKey) -> (c: BucketKey)
    ensures
        c.view_pair() == b.view_pair(),
{
    BucketKey { crypto_mode: b.crypto_mode.clone(), label: b.label.clone() }
}

/// The handshake buckets of one group.
fn collect_handshake_buckets(
    rows: &Vec<EvaluationRow>,
    hs: &Vec<HandshakeRow>,
    k: &GroupKey,
) -> (buckets: Vec<HandshakeBucket>)
    ensures
        buckets@.map_values(|b: HandshakeBucket| (b.crypto_mode@, b.kx_group@)) == handshake_keys(
            rows@,
            hs@,
            k.view_key(),
        ),
        forall|j: int|
            0 <= j < buckets.len() ==> #[trigger] buckets@[j].durations@ == handshake_durations(
                rows@,
                hs@,
                k.view_key(),
                (buckets@[j].crypto_mode@, buckets@[j].kx_group@),
            ),
{
    let mut keys: Vec<BucketKey> = Vec::new();
    let mut i: usize = 0;
    while i < hs.len()
        invariant
            i <= hs.len(),
            keys@.map_values(|b: BucketKey| b.view_pair()) == handshake_keys(
                rows@,
                hs@.take(i as int),
                k.view_key(),
            ),
        decreases hs.len() - i,
    {
        assert(hs@.take(i + 1).drop_last() =~= hs@.take(i as int));
        assert(hs@.take(i + 1).last() == hs@[i as int]);
        match handshake_pair_of(rows, &hs[i], k) {
            Some(b) => insert_bucket_key(&mut keys, b),
            None => {},
        }
        i = i + 1;
    }
    assert(hs@.take(hs.len() as int) =~= hs@);
    let mut buckets: Vec<HandshakeBucket> = Vec::new();
    let mut j: usize = 0;
    while j < keys.len()
        invariant
            j <= keys.len(),
            buckets.len() == j,
            forall|m: int|
                0 <= m < j ==> (#[trigger] buckets@[m].crypto_mode@, buckets@[m].kx_group@)
                    == keys@[m].view_pair(),
            forall|m: int|
                0 <= m < j ==> #[trigger] buckets@[m].durations@ == handshake_durations(
                    rows@,
                    hs@,
                    k.view_key(),
                    (buckets@[m].crypto_mode@, buckets@[m].kx_group@),
                ),
        decreases keys.len() - j,
    {
        let key = copy_bucket_key(&keys[j]);
        let mut durations: Vec<i64> = Vec::new();
        let mut i: usize = 0;
        while i < hs.len()
            invariant
                i <= hs.len(),
                durations@ == handshake_durations(
                    rows@,
                    hs@.take(i as int),
                    k.view_key(),
                    key.view_pair(),
                ),
            decreases hs.len() - i,
        {
            assert(hs@.take(i + 1).drop_last() =~= hs@.take(i as int));
            assert(hs@.take(i + 1).last() == hs@[i as int]);
            let pair = handshake_pair_of(rows, &hs[i], k);
            if bucket_key_matches(&pair, &key) {
                durations.push(hs[i].duration_ms);
            }
            i = i + 1;
        }
        assert(hs@.take(hs.len() as int) =~= hs@);
        buckets.push(
            HandshakeBucket { crypto_mode: key.crypto_mode, kx_group: key.label, durations },
        );
        j = j + 1;
    }
    assert(buckets@.map_values(|b: HandshakeBucket| (b.crypto_mode@, b.kx_group@)) =~= keys@.map_values(
        |b: BucketKey| b.view_pair(),
    ));
    buckets
}

/// The transfer buckets of one group.
fn collect_transfer_buckets(
    rows: &Vec<EvaluationRow>,
    xs: &Vec<TransferRow>,
    k: &GroupKey,
) -> (buckets: Vec<RowBucket>)
    ensures
        buckets@.map_values(|b: RowBucket| (b.crypto_mode@, b.label@)) == transfer_keys(
            rows@,
            xs@,
            k.view_key(),
        ),
        forall|j: int|
            #![trigger buckets@[j]]
            0 <= j < buckets.len() ==> buckets@[j].rows@.map_values(|p: usize| p as int)
                == transfer_rows(
                rows@,
                xs@,
                k.view_key(),
                (buckets@[j].crypto_mode@, buckets@[j].label@),
            ),
{
    let mut keys: Vec<BucketKey> = Vec::new();
    let mut i: usize = 0;
    while i < xs.len()
        invariant
            i <= xs.len(),
            keys@.map_values(|b: BucketKey| b.view_pair()) == transfer_keys(
                rows@,
                xs@.take(i as int),
                k.view_key(),
            ),
        decreases xs.len() - i,
    {
        assert(xs@.take(i + 1).drop_last() =~= xs@.take(i as int));
        assert(xs@.take(i + 1).last() == xs@[i as int]);
        match transfer_pair_of(rows, &xs[i], k) {
            Some(b) => insert_bucket_key(&mut keys, b),
            None => {},
        }
        i = i + 1;
    }
    assert(xs@.take(xs.len() as int) =~= xs@);
    let mut buckets: Vec<RowBucket> = Vec::new();
    let mut j: usize = 0;
    while j < keys.len()
        invariant
            j <= keys.len(),
            buckets.len() == j,
            forall|m: int|
                0 <= m < j ==> (#[trigger] buckets@[m].crypto_mode@, buckets@[m].label@)
                    == keys@[m].view_pair(),
            forall|m: int|
                #![trigger buckets@[m]]
                0 <= m < j ==> buckets@[m].rows@.map_values(|p: usize| p as int)
                    == transfer_rows(
                    rows@,
                    xs@,
                    k.view_key(),
                    (buckets@[m].crypto_mode@, buckets@[m].label@),
                ),
        decreases keys.len() - j,
    {
        let key = copy_bucket_key(&keys[j]);
        let mut positions: Vec<usize> = Vec::new();
        let mut i: usize = 0;
        while i < xs.len()
            invariant
                i <= xs.len(),
                positions@.map_values(|p: usize| p as int) == transfer_rows(
                    rows@,
                    xs@.take(i as int),
                    k.view_key(),
                    key.view_pair(),
                ),
            decreases xs.len() - i,
        {
            assert(xs@.take(i + 1).drop_last() =~= xs@.take(i as int));
            assert(xs@.take(i + 1).last() == xs@[i as int]);
            let pair = transfer_pair_of(rows, &xs[i], k);
            if bucket_key_matches(&pair, &key) {
                let ghost before = positions@;
                positions.push(i);
                assert(positions@.map_values(|p: usize| p as int) =~= before.map_values(
                    |p: usize| p as int,
                ).push(i as int));
            }
            i = i + 1;
        }
        assert(xs@.take(xs.len() as int) =~= xs@);
        buckets.push(RowBucket { crypto_mode: key.crypto_mode, label: key.label, rows: positions });
        j = j + 1;
    }
    assert(buckets@.map_values(|b: RowBucket| (b.crypto_mode@, b.label@)) =~= keys@.map_values(
        |b: BucketKey| b.view_pair(),
    ));
    buckets
}

/// The resource buckets of one group.
fn collect_resource_buckets(
    rows: &Vec<EvaluationRow>,
    xs: &Vec<ResourceRow>,
    k: &GroupKey,
) -> (buckets: Vec<RowBucket>)
    ensures
        buckets@.map_values(|b: RowBucket| (b.crypto_mode@, b.label@)) == resource_keys(
            rows@,
            xs@,
            k.view_key(),
        ),
        forall|j: int|
            #![trigger buckets@[j]]
            0 <= j < buckets.len() ==> buckets@[j].rows@.map_values(|p: usize| p as int)
                == resource_rows(
                rows@,
                xs@,
                k.view_key(),
                (buckets@[j].crypto_mode@, buckets@[j].label@),
            ),
{
    let mut keys: Vec<BucketKey> = Vec::new();
    let mut i: usize = 0;
    while i < xs.len()
        invariant
            i <= xs.len(),
            keys@.map_values(|b: BucketKey| b.view_pair()) == resource_keys(
                rows@,
                xs@.take(i as int),
                k.view_key(),
            ),
        decreases xs.len() - i,
    {
        assert(xs@.take(i + 1).drop_last() =~= xs@.take(i as int));
        assert(xs@.take(i + 1).last() == xs@[i as int]);
        match resource_pair_of(rows, &xs[i], k) {
            Some(b) => insert_bucket_key(&mut keys, b),
            None => {},
        }
        i = i + 1;
    }
    assert(xs@.take(xs.len() as int) =~= xs@);
    let mut buckets: Vec<RowBucket> = Vec::new();
    let mut j: usize = 0;
    while j < keys.len()
        invariant
            j <= keys.len(),
            buckets.len() == j,
            forall|m: int|
                0 <= m < j ==> (#[trigger] buckets@[m].crypto_mode@, buckets@[m].label@)
                    == keys@[m].view_pair(),
            forall|m: int|
                #![trigger buckets@[m]]
                0 <= m < j ==> buckets@[m].rows@.map_values(|p: usize| p as int)
                    == resource_rows(
                    rows@,
                    xs@,
                    k.view_key(),
                    (buckets@[m].crypto_mode@, buckets@[m].label@),
                ),
        decreases keys.len() - j,
    {
        let key = copy_bucket_key(&keys[j]);
        let mut positions: Vec<usize> = Vec::new();
        let mut i: usize = 0;
        while i < xs.len()
            invariant
                i <= xs.len(),
                positions@.map_values(|p: usize| p as int) == resource_rows(
                    rows@,
                    xs@.take(i as int),
                    k.view_key(),
                    key.view_pair(),
                ),
            decreases xs.len() - i,
        {
            assert(xs@.take(i + 1).drop_last() =~= xs@.take(i as int));
            assert(xs@.take(i + 1).last() == xs@[i as int]);
            let pair = resource_pair_of(rows, &xs[i], k);
            if bucket_key_matches(&pair, &key) {
                let ghost before = positions@;
                positions.push(i);
                assert(positions@.map_values(|p: usize| p as int) =~= before.map_values(
                    |p: usize| p as int,
                ).push(i as int));
            }
            i = i + 1;
        }
        assert(xs@.take(xs.len() as int) =~= xs@);
        buckets.push(RowBucket { crypto_mode: key.crypto_mode, label: key.label, rows: positions });
        j = j + 1;
    }
    assert(buckets@.map_values(|b: RowBucket| (b.crypto_mode@, b.label@)) =~= keys@.map_values(
        |b: BucketKey| b.view_pair(),
    ));
    buckets
}

/// Group `g` holds exactly what the rows give for its key.
pub open spec fn group_matches(
    g: ResultGroup,
    rows: Seq<EvaluationRow>,
    hs: Seq<HandshakeRow>,
    ts: Seq<TransferRow>,
    rs: Seq<ResourceRow>,
) -> bool {
    let k = g.view_key();
    &&& g.evaluations@ == group_evaluations(rows, k)
    &&& g.handshakes@.map_values(|b: HandshakeBucket| (b.crypto_mode@, b.kx_group@))
        == handshake_keys(rows, hs, k)
    &&& forall|j: int|
        0 <= j < g.handshakes.len() ==> #[trigger] g.handshakes@[j].durations@
            == handshake_durations(rows, hs, k, (g.handshakes@[j].crypto_mode@, g.handshakes@[j].kx_group@))
    &&& g.transfers@.map_values(|b: RowBucket| (b.crypto_mode@, b.label@)) == transfer_keys(
        rows,
        ts,
        k,
    )
    &&& forall|j: int|
        #![trigger g.transfers@[j]]
        0 <= j < g.transfers.len() ==> g.transfers@[j].rows@.map_values(|p: usize| p as int)
            == transfer_rows(rows, ts, k, (g.transfers@[j].crypto_mode@, g.transfers@[j].label@))
    &&& g.resources@.map_values(|b: RowBucket| (b.crypto_mode@, b.label@)) == resource_keys(
        rows,
        rs,
        k,
    )
    &&& forall|j: int|
        #![trigger g.resources@[j]]
        0 <= j < g.resources.len() ==> g.resources@[j].rows@.map_values(|p: usize| p as int)
            == resource_rows(rows, rs, k, (g.resources@[j].crypto_mode@, g.resources@[j].label@))
}

/// Start time of the most recent evaluation of group `k`.
pub open spec fn lead_start(rows: Seq<EvaluationRow>, k: KeyView) -> i64 {
    group_evaluations(rows, k)[0].started_at
}

/// Inserts key `k` into a list ordered by descending lead start time,
/// after every key whose group started at the same time or later.
pub open spec fn insert_by_lead(rows: Seq<EvaluationRow>, s: Seq<KeyView>, k: KeyView) -> Seq<
    KeyView,
>
    decreases s.len(),
{
    if s.len() == 0 {
        seq![k]
    } else if lead_start(rows, s[0]) >= lead_start(rows, k) {
        seq![s[0]] + insert_by_lead(rows, s.drop_first(), k)
    } else {
        seq![k] + s
    }
}

pub open spec fn order_keys(rows: Seq<EvaluationRow>, ks: Seq<KeyView>) -> Seq<KeyView>
    decreases ks.len(),
{
    if ks.len() == 0 {
        Seq::empty()
    } else {
        insert_by_lead(rows, order_keys(rows, ks.drop_last()), ks.last())
    }
}

/// The group keys in the order of the results: the group with the most
/// recent evaluation first.
pub open spec fn ordered_group_keys(rows: Seq<EvaluationRow>) -> Seq<KeyView> {
    order_keys(rows, distinct_keys(rows))
}

proof fn lemma_insert_by_start_len(s: Seq<EvaluationSummary>, x: EvaluationSummary)
    ensures
        insert_by_start(s, x).len() == s.len() + 1,
    decreases s.len(),
{
    if s.len() > 0 && s[0].started_at >= x.started_at {
        lemma_insert_by_start_len(s.drop_first(), x);
    }
}

proof fn lemma_distinct_keys_from_rows(rows: Seq<EvaluationRow>, k: KeyView)
    requires
        distinct_keys(rows).contains(k),
    ensures
        exists|i: int| 0 <= i < rows.len() && row_key(rows[i]) == k,
    decreases rows.len(),
{
    if rows.len() > 0 {
        let acc = distinct_keys(rows.drop_last());
        if acc.contains(k) {
            lemma_distinct_keys_from_rows(rows.drop_last(), k);
            let i = choose|i: int| 0 <= i < rows.drop_last().len() && row_key(rows.drop_last()[i]) == k;
            assert(row_key(rows[i]) == k);
        } else {
            assert(row_key(rows[rows.len() - 1]) == k);
        }
    }
}

proof fn lemma_group_nonempty(rows: Seq<EvaluationRow>, k: KeyView)
    requires
        exists|i: int| 0 <= i < rows.len() && row_key(rows[i]) == k,
    ensures
        group_evaluations(rows, k).len() > 0,
    decreases rows.len(),
{
    let i = choose|i: int| 0 <= i < rows.len() && row_key(rows[i]) == k;
    let acc = group_evaluations(rows.drop_last(), k);
    let r = rows.last();
    if row_key(r) == k {
        if !has_id(acc, r.id) {
            lemma_insert_by_start_len(acc, summary_of(r));
        }
    } else {
        assert(row_key(rows.drop_last()[i]) == k);
        lemma_group_nonempty(rows.drop_last(), k);
    }
}

fn copy_key(k: &GroupKey) -> (c: GroupKey)
    ensures
        c.view_key() == k.view_key(),
{
    GroupKey {
        num_clients: k.num_clients,
        operation: k.operation.clone(),
        file_size: k.file_size,
        file_size_unit: k.file_size_unit.clone(),
        num_files: k.num_files,
    }
}

/// Builds one group and everything associated with it.
fn build_group(
    rows: &Vec<EvaluationRow>,
    hs: &Vec<HandshakeRow>,
    ts: &Vec<TransferRow>,
    rs: &Vec<ResourceRow>,
    k: GroupKey,
) -> (g: ResultGroup)
    ensures
        g.view_key() == k.view_key(),
        group_matches(g, rows@, hs@, ts@, rs@),
{
    let evaluations = collect_group_evaluations(rows, &k);
    let handshakes = collect_handshake_buckets(rows, hs, &k);
    let transfers = collect_transfer_buckets(rows, ts, &k);
    let resources = collect_resource_buckets(rows, rs, &k);
    ResultGroup {
        num_clients: k.num_clients,
        operation: k.operation,
        file_size: k.file_size,
        file_size_unit: k.file_size_unit,
        num_files: k.num_files,
        evaluations,
        handshakes,
        transfers,
        resources,
    }
}

/// Organises the loaded rows into experimental groups.
///
/// Every distinct transfer configuration of the evaluation rows gives
/// one group; the groups come most recent first.
pub fn organize_results(
    evaluations: &Vec<EvaluationRow>,
    handshakes: &Vec<HandshakeRow>,
    transfers: &Vec<TransferRow>,
    resources: &Vec<ResourceRow>,
) -> (groups: Vec<ResultGroup>)
    ensures
        groups@.map_values(|g: ResultGroup| g.view_key()) == ordered_group_keys(evaluations@),
        forall|j: int|
            0 <= j < groups.len() ==> group_matches(
                #[trigger] groups@[j],
                evaluations@,
                handshakes@,
                transfers@,
                resources@,
            ),
{
    let keys = collect_group_keys(evaluations);
    let ghost ks = keys@.map_values(|k: GroupKey| k.view_key());
    let mut groups: Vec<ResultGroup> = Vec::new();
    let mut j: usize = 0;
    while j < keys.len()
        invariant
            j <= keys.len(),
            ks == keys@.map_values(|k: GroupKey| k.view_key()),
            ks == distinct_keys(evaluations@),
            groups@.map_values(|g: ResultGroup| g.view_key()) == order_keys(
                evaluations@,
                ks.take(j as int),
            ),
            forall|m: int|
                0 <= m < groups.len() ==> group_matches(
                    #[trigger] groups@[m],
                    evaluations@,
                    handshakes@,
                    transfers@,
                    resources@,
                ),
            forall|m: int|
                0 <= m < groups.len() ==> (#[trigger] groups@[m]).evaluations.len() > 0,
        decreases keys.len() - j,
    {
        let key = copy_key(&keys[j]);
        proof {
            assert(ks[j as int] == keys@[j as int].view_key());
            assert(ks.contains(key.view_key()));
            lemma_distinct_keys_from_rows(evaluations@, key.view_key());
            lemma_group_nonempty(evaluations@, key.view_key());
        }
        let g = build_group(evaluations, handshakes, transfers, resources, key);
        let lead = g.evaluations[0].started_at;
        let ghost s = groups@.map_values(|g: ResultGroup| g.view_key());
        let ghost gk = g.view_key();
        assert(lead == lead_start(evaluations@, gk));
        let mut i: usize = 0;
        assert(s.take(0) + s.skip(0) =~= s);
        while i < groups.len() && groups[i].evaluations[0].started_at >= lead
            invariant
                s == groups@.map_values(|g: ResultGroup| g.view_key()),
                i <= groups.len(),
                lead == lead_start(evaluations@, gk),
                forall|m: int|
                    0 <= m < groups.len() ==> group_matches(
                        #[trigger] groups@[m],
                        evaluations@,
                        handshakes@,
                        transfers@,
                        resources@,
                    ),
                forall|m: int|
                    0 <= m < groups.len() ==> (#[trigger] groups@[m]).evaluations.len() > 0,
                insert_by_lead(evaluations@, s, gk) == s.take(i as int) + insert_by_lead(
                    evaluations@,
                    s.skip(i as int),
                    gk,
                ),
            decreases groups.len() - i,
        {
            assert(s.skip(i as int)[0] == groups@[i as int].view_key());
            assert(s.skip(i as int).drop_first() =~= s.skip(i + 1));
            assert(s.take(i as int) + seq![s[i as int]] =~= s.take(i + 1));
            assert(s.take(i as int) + (seq![s[i as int]] + insert_by_lead(
                evaluations@,
                s.skip(i + 1),
                gk,
            )) =~= s.take(i + 1) + insert_by_lead(evaluations@, s.skip(i + 1), gk));
            i = i + 1;
        }
        proof {
            if i < groups.len() {
                assert(s.skip(i as int)[0] == groups@[i as int].view_key());
            }
            assert(s.take(i as int) + insert_by_lead(evaluations@, s.skip(i as int), gk)
                =~= s.insert(i as int, gk));
            assert(ks.take(j + 1).drop_last() =~= ks.take(j as int));
            assert(ks.take(j + 1).last() == gk);
        }
        groups.insert(i, g);
        assert(groups@.map_values(|g: ResultGroup| g.view_key()) =~= s.insert(i as int, gk));
        j = j + 1;
    }
    assert(ks.take(keys.len() as int) =~= ks);
    groups
}

} // verus!
