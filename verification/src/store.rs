use vstd::prelude::*;
use crate::date::Date;
use crate::record::{MoistureQuery, SoilMoistureRecord};

verus! {

/// No two rows share an identity key: the store keeps `(date, lat, lon)` as
/// a uniqueness constraint.
pub open spec fn unique_keys(s: Seq<SoilMoistureRecord>) -> bool {
    forall|i: int, j: int|
        0 <= i < j < s.len() ==> (#[trigger] s[i]).key() != (#[trigger] s[j]).key()
}

pub open spec fn contains_key(s: Seq<SoilMoistureRecord>, k: (Date, u64, u64)) -> bool {
    exists|i: int| 0 <= i < s.len() && (#[trigger] s[i]).key() == k
}

pub open spec fn key_index(s: Seq<SoilMoistureRecord>, k: (Date, u64, u64)) -> int {
    choose|i: int| 0 <= i < s.len() && (#[trigger] s[i]).key() == k
}

/// What one upsert does to the rows: replace the row holding the record's
/// key, or append the record when no row holds it.
pub open spec fn upsert_spec(s: Seq<SoilMoistureRecord>, r: SoilMoistureRecord) -> Seq<
    SoilMoistureRecord,
> {
    if contains_key(s, r.key()) {
        s.update(key_index(s, r.key()), r)
    } else {
        s.push(r)
    }
}

/// What one batch does: the records applied in order, each by `upsert_spec`.
pub open spec fn upsert_batch_spec(s: Seq<SoilMoistureRecord>, rs: Seq<SoilMoistureRecord>) -> Seq<
    SoilMoistureRecord,
>
    decreases rs.len(),
{
    if rs.len() == 0 {
        s
    } else {
        upsert_spec(upsert_batch_spec(s, rs.drop_last()), rs.last())
    }
}

/// What a query returns: the matching rows, in storage order.
pub open spec fn query_results(s: Seq<SoilMoistureRecord>, q: MoistureQuery) -> Seq<
    SoilMoistureRecord,
> {
    s.filter(|r: SoilMoistureRecord| q.matches_spec(r))
}

/// The record table, the one shared mutable resource of the service. The
/// process serializes access to it behind a single lock, so each call here is
/// one atomic transition: no caller observes a half-applied batch.
pub struct Table {
    rows: Vec<SoilMoistureRecord>,
}

impl View for Table {
    type V = Seq<SoilMoistureRecord>;

    closed spec fn view(&self) -> Seq<SoilMoistureRecord> {
        self.rows@
    }
}

impl Table {
    pub open spec fn wf(self) -> bool {
        unique_keys(self@)
    }

    pub fn new() -> (t: Table)
        ensures
            t@ =~= Seq::<SoilMoistureRecord>::empty(),
            t.wf(),
    {
        Table { rows: Vec::new() }
    }

    pub fn len(&self) -> (n: usize)
        ensures
            n == self@.len(),
    {
        self.rows.len()
    }

    /// The rows in storage order.
    pub fn rows(&self) -> (r: &Vec<SoilMoistureRecord>)
        ensures
            r@ == self@,
    {
        &self.rows
    }

    /// Inserts the record, or replaces the one row that holds its key.
    pub fn upsert(&mut self, r: SoilMoistureRecord)
        requires
            old(self).wf(),
        ensures
            final(self).wf(),
            final(self)@ == upsert_spec(old(self)@, r),
    {
        let ghost s0 = self@;
        let n: usize = self.rows.len();
        let mut i: usize = 0;
        while i < n
            invariant
                s0 == old(self)@,
                n == s0.len(),
                self@ == s0,
                unique_keys(s0),
                i <= n,
                forall|j: int| 0 <= j < i ==> (#[trigger] s0[j]).key() != r.key(),
            decreases n - i,
        {
            let row = self.rows[i];
            if row.date == r.date && row.lat == r.lat && row.lon == r.lon {
                self.rows.set(i, r);
                proof {
                    assert(s0[i as int].key() == r.key());
                    assert(contains_key(s0, r.key()));
                    let ki = key_index(s0, r.key());
                    assert(0 <= ki < s0.len() && s0[ki].key() == r.key());
                    assert(ki == i);
                    lemma_upsert_properties(s0, r);
                }
                return ;
            }
            i = i + 1;
        }
        self.rows.push(r);
        proof {
            assert(!contains_key(s0, r.key()));
            lemma_upsert_properties(s0, r);
        }
    }

    /// Applies a whole batch, record by record in order. The process wraps
    /// the call in the connection lock, so the batch is one atomic
    /// transition: all of it or none of it is ever visible.
    pub fn upsert_batch(&mut self, recs: &Vec<SoilMoistureRecord>)
        requires
            old(self).wf(),
        ensures
            final(self).wf(),
            final(self)@ == upsert_batch_spec(old(self)@, recs@),
    {
        let ghost s0 = self@;
        let n: usize = recs.len();
        let mut i: usize = 0;
        while i < n
            invariant
                n == recs@.len(),
                i <= n,
                self.wf(),
                self@ == upsert_batch_spec(s0, recs@.take(i as int)),
            decreases n - i,
        {
            self.upsert(recs[i]);
            proof {
                assert(recs@.take((i + 1) as int).drop_last() =~= recs@.take(i as int));
                assert(recs@.take((i + 1) as int).last() == recs@[i as int]);
            }
            i = i + 1;
        }
        proof {
            assert(recs@.take(n as int) =~= recs@);
        }
    }

    /// Returns the matching rows in storage order. Read-only: a query never
    /// changes the table.
    pub fn query(&self, q: &MoistureQuery) -> (r: Vec<SoilMoistureRecord>)
        ensures
            r@ == query_results(self@, *q),
    {
        let mut out: Vec<SoilMoistureRecord> = Vec::new();
        let n: usize = self.rows.len();
        let mut i: usize = 0;
        while i < n
            invariant
                n == self@.len(),
                i <= n,
                out@ == query_results(self@.take(i as int), *q),
            decreases n - i,
        {
            let row = self.rows[i];
            proof {
                broadcast use Seq::<_>::lemma_filter_push;

                assert(self@.take((i + 1) as int) =~= self@.take(i as int).push(self@[i as int]));
            }
            if q.matches(&row) {
                out.push(row);
            }
            i = i + 1;
        }
        proof {
            assert(self@.take(n as int) =~= self@);
        }
        out
    }
}

/// What one upsert leaves behind: keys stay unique, the record's key is
/// present and holds exactly the new record, and every row under any other
/// key is untouched in both directions.
pub proof fn lemma_upsert_properties(s: Seq<SoilMoistureRecord>, r: SoilMoistureRecord)
    requires
        unique_keys(s),
    ensures
        ({
            let t = upsert_spec(s, r);
            &&& unique_keys(t)
            &&& contains_key(t, r.key())
            &&& t.len() == if contains_key(s, r.key()) {
                s.len()
            } else {
                s.len() + 1
            }
            &&& forall|i: int| 0 <= i < t.len() && (#[trigger] t[i]).key() == r.key() ==> t[i] == r
            &&& forall|i: int|
                0 <= i < t.len() && (#[trigger] t[i]).key() != r.key() ==> s.contains(t[i])
            &&& forall|i: int|
                0 <= i < s.len() && (#[trigger] s[i]).key() != r.key() ==> t.contains(s[i])
        }),
{
    let t = upsert_spec(s, r);
    if contains_key(s, r.key()) {
        let ki = key_index(s, r.key());
        assert(0 <= ki < s.len() && s[ki].key() == r.key());
        assert(t[ki].key() == r.key());
        assert(contains_key(t, r.key()));
        assert forall|i: int, j: int|
            0 <= i < j < t.len() implies (#[trigger] t[i]).key() != (#[trigger] t[j]).key() by {
            assert(t[i].key() == s[i].key());
            assert(t[j].key() == s[j].key());
        }
        assert forall|i: int|
            0 <= i < t.len() && (#[trigger] t[i]).key() == r.key() implies t[i] == r by {
            if i != ki {
                assert(s[i].key() == r.key());
                assert(s[ki].key() == r.key());
            }
        }
        assert forall|i: int|
            0 <= i < t.len() && (#[trigger] t[i]).key() != r.key() implies s.contains(t[i]) by {
            assert(i != ki);
            assert(s[i] == t[i]);
            assert(s.contains(s[i]));
        }
        assert forall|i: int|
            0 <= i < s.len() && (#[trigger] s[i]).key() != r.key() implies t.contains(s[i]) by {
            assert(i != ki);
            assert(t[i] == s[i]);
            assert(t.contains(t[i]));
        }
    } else {
        assert forall|i: int, j: int|
            0 <= i < j < t.len() implies (#[trigger] t[i]).key() != (#[trigger] t[j]).key() by {
            if j < s.len() {
                assert(t[i].key() == s[i].key());
                assert(t[j].key() == s[j].key());
            } else {
                assert(t[j] == r);
                assert(t[i] == s[i]);
                if s[i].key() == r.key() {
                    assert(contains_key(s, r.key()));
                }
            }
        }
        assert forall|i: int|
            0 <= i < t.len() && (#[trigger] t[i]).key() == r.key() implies t[i] == r by {
            if i < s.len() {
                assert(s[i].key() == r.key());
                assert(contains_key(s, r.key()));
            }
        }
        assert forall|i: int|
            0 <= i < s.len() && (#[trigger] s[i]).key() != r.key() implies t.contains(s[i]) by {
            assert(t[i] == s[i]);
            assert(t.contains(t[i]));
        }
        assert forall|i: int|
            0 <= i < t.len() && (#[trigger] t[i]).key() != r.key() implies s.contains(t[i]) by {
            assert(i < s.len());
            assert(t[i] == s[i]);
            assert(s.contains(s[i]));
        }
        assert(t[s.len() as int] == r);
        assert(contains_key(t, r.key()));
    }
}

/// Last write wins: upserting two records with one identity key in turn
/// leaves keys unique, the key present, and its one row equal to the second
/// record.
pub proof fn lemma_upsert_last_write_wins(
    s: Seq<SoilMoistureRecord>,
    r1: SoilMoistureRecord,
    r2: SoilMoistureRecord,
)
    requires
        unique_keys(s),
        r1.key() == r2.key(),
    ensures
        ({
            let t = upsert_spec(upsert_spec(s, r1), r2);
            &&& unique_keys(t)
            &&& contains_key(t, r2.key())
            &&& forall|i: int| 0 <= i < t.len() && (#[trigger] t[i]).key() == r2.key() ==> t[i] == r2
        }),
{
    lemma_upsert_properties(s, r1);
    lemma_upsert_properties(upsert_spec(s, r1), r2);
}

/// A batch leaves the uniqueness constraint standing.
pub proof fn lemma_batch_wf(s: Seq<SoilMoistureRecord>, rs: Seq<SoilMoistureRecord>)
    requires
        unique_keys(s),
    ensures
        unique_keys(upsert_batch_spec(s, rs)),
    decreases rs.len(),
{
    if rs.len() > 0 {
        lemma_batch_wf(s, rs.drop_last());
        lemma_upsert_properties(upsert_batch_spec(s, rs.drop_last()), rs.last());
    }
}

/// A batch touching none of a record's key leaves that record in place.
pub proof fn lemma_batch_preserves_record(
    s: Seq<SoilMoistureRecord>,
    rs: Seq<SoilMoistureRecord>,
    x: SoilMoistureRecord,
)
    requires
        unique_keys(s),
        s.contains(x),
        forall|j: int| 0 <= j < rs.len() ==> (#[trigger] rs[j]).key() != x.key(),
    ensures
        upsert_batch_spec(s, rs).contains(x),
    decreases rs.len(),
{
    if rs.len() > 0 {
        lemma_batch_preserves_record(s, rs.drop_last(), x);
        let t = upsert_batch_spec(s, rs.drop_last());
        lemma_batch_wf(s, rs.drop_last());
        lemma_upsert_properties(t, rs.last());
        let i = choose|i: int| 0 <= i < t.len() && t[i] == x;
        assert(t[i].key() != rs.last().key());
        assert(upsert_spec(t, rs.last()).contains(t[i]));
    }
}

/// A batch of records with pairwise distinct keys ends with every one of its
/// records present.
pub proof fn lemma_batch_inserts_all(s: Seq<SoilMoistureRecord>, rs: Seq<SoilMoistureRecord>)
    requires
        unique_keys(s),
        forall|i: int, j: int|
            0 <= i < j < rs.len() ==> (#[trigger] rs[i]).key() != (#[trigger] rs[j]).key(),
    ensures
        forall|j: int| 0 <= j < rs.len() ==> upsert_batch_spec(s, rs).contains(#[trigger] rs[j]),
    decreases rs.len(),
{
    if rs.len() > 0 {
        let hd = rs.drop_last();
        let t = upsert_batch_spec(s, hd);
        lemma_batch_inserts_all(s, hd);
        lemma_batch_wf(s, hd);
        lemma_upsert_properties(t, rs.last());
        let u = upsert_spec(t, rs.last());
        assert forall|j: int| 0 <= j < rs.len() implies u.contains(#[trigger] rs[j]) by {
            if j < rs.len() - 1 {
                assert(t.contains(hd[j]));
                let i = choose|i: int| 0 <= i < t.len() && t[i] == rs[j];
                assert(t[i].key() != rs.last().key());
                assert(u.contains(t[i]));
            } else {
                let i = choose|i: int| 0 <= i < u.len() && (#[trigger] u[i]).key() == rs.last().key();
                assert(u[i] == rs.last());
            }
        }
    }
}

/// Batches over disjoint key sets lose nothing: after both apply, every
/// record of each batch stands in the table, under a still-unique key set.
/// The connection lock serializes the two, so this covers both interleavings
/// of concurrent batches.
pub proof fn lemma_disjoint_batches_all_present(
    s: Seq<SoilMoistureRecord>,
    a: Seq<SoilMoistureRecord>,
    b: Seq<SoilMoistureRecord>,
)
    requires
        unique_keys(s),
        forall|i: int, j: int|
            0 <= i < j < a.len() ==> (#[trigger] a[i]).key() != (#[trigger] a[j]).key(),
        forall|i: int, j: int|
            0 <= i < j < b.len() ==> (#[trigger] b[i]).key() != (#[trigger] b[j]).key(),
        forall|i: int, j: int|
            0 <= i < a.len() && 0 <= j < b.len() ==> (#[trigger] a[i]).key() != (
            #[trigger] b[j]).key(),
    ensures
        ({
            let t = upsert_batch_spec(upsert_batch_spec(s, a), b);
            &&& unique_keys(t)
            &&& forall|i: int| 0 <= i < a.len() ==> t.contains(#[trigger] a[i])
            &&& forall|i: int| 0 <= i < b.len() ==> t.contains(#[trigger] b[i])
        }),
{
    let s1 = upsert_batch_spec(s, a);
    let t = upsert_batch_spec(s1, b);
    lemma_batch_inserts_all(s, a);
    lemma_batch_wf(s, a);
    lemma_batch_inserts_all(s1, b);
    lemma_batch_wf(s1, b);
    assert forall|i: int| 0 <= i < a.len() implies t.contains(#[trigger] a[i]) by {
        lemma_batch_preserves_record(s1, b, a[i]);
    }
}

/// A query whose start date lies after its end date matches nothing: its
/// closed date range is empty, so the result is empty, not an error.
pub proof fn lemma_empty_date_range(s: Seq<SoilMoistureRecord>, q: MoistureQuery)
    requires
        !q.start_date.le_spec(q.end_date),
    ensures
        query_results(s, q) =~= Seq::<SoilMoistureRecord>::empty(),
    decreases s.len(),
{
    reveal_with_fuel(Seq::<_>::filter, 1);
    if s.len() > 0 {
        lemma_empty_date_range(s.drop_last(), q);
        assert(!q.matches_spec(s.last()));
    }
}

} // verus!
