//! The persistent-record model: a deduplicating clipboard-history store with
//! recency ordering and bounded retention, and the application/file search
//! index beside it.
//!
//! Rows are kept sorted by recency: newest first, ties broken towards the
//! larger (younger) id. Every query and the retention sweep read directly
//! off that order.

use vstd::prelude::*;

use crate::string_factory::md5_of;

verus! {

/// One clipboard observation, as the store keeps and returns it.
#[derive(Debug, PartialEq)]
pub struct Record {
    pub id: u64,
    pub content: String,
    pub content_preview: Option<String>,
    pub data_type: String,
    pub md5: String,
    pub create_time: u64,
    pub app_icon: String,
    pub source: String,
}

/// The mathematical image of one stored row. An absent preview is the empty
/// text, which is also how the store persists it.
pub struct RecModel {
    pub id: u64,
    pub content: Seq<char>,
    pub preview: Seq<char>,
    pub data_type: Seq<char>,
    pub md5: Seq<char>,
    pub create_time: u64,
    pub app_icon: Seq<char>,
    pub source: Seq<char>,
}

impl Record {
    /// The view of this record.
    pub open spec fn model(self) -> RecModel {
        RecModel {
            id: self.id,
            content: self.content@,
            preview: match self.content_preview {
                Some(p) => p@,
                None => Seq::empty(),
            },
            data_type: self.data_type@,
            md5: self.md5@,
            create_time: self.create_time,
            app_icon: self.app_icon@,
            source: self.source@,
        }
    }
}

impl Default for Record {
    /// An empty text record: the starting point the sampler fills in.
    fn default() -> (r: Record)
        ensures
            r.id == 0,
            r.content@ == Seq::<char>::empty(),
            r.content_preview is None,
            r.data_type@ == "text"@,
            r.md5@ == Seq::<char>::empty(),
            r.create_time == 0,
            r.app_icon@ == Seq::<char>::empty(),
            r.source@ == Seq::<char>::empty(),
    {
        Record {
            id: 0,
            content: String::new(),
            content_preview: None,
            data_type: "text".to_owned(),
            md5: String::new(),
            create_time: 0,
            app_icon: String::new(),
            source: String::new(),
        }
    }
}

/// A text-search request: an optional keyword and an optional row cap.
#[derive(Debug)]
pub struct QueryReq {
    pub key: Option<String>,
    pub limit: Option<usize>,
}

impl Default for QueryReq {
    /// No keyword, no cap.
    fn default() -> (r: QueryReq)
        ensures
            r.key is None,
            r.limit is None,
    {
        QueryReq { key: None, limit: None }
    }
}

/// The views of a sequence of records.
pub open spec fn rec_models(rows: Seq<Record>) -> Seq<RecModel> {
    rows.map_values(|r: Record| r.model())
}

// ---------------------------------------------------------------------------
// Recency order.
// ---------------------------------------------------------------------------

/// Whether `a` is strictly more recent than `b`: a later timestamp, or the
/// same timestamp and a younger (larger) id.
pub open spec fn rec_more_recent(a: RecModel, b: RecModel) -> bool {
    a.create_time > b.create_time || (a.create_time == b.create_time && a.id > b.id)
}

/// Newest first, strictly.
pub open spec fn rec_sorted(rows: Seq<RecModel>) -> bool {
    forall|i: int, j: int|
        0 <= i < j < rows.len() ==> rec_more_recent(#[trigger] rows[i], #[trigger] rows[j])
}

/// Whether the row carries the given fingerprint under the given type.
pub open spec fn rec_key_is(r: RecModel, fp: Seq<char>, dt: Seq<char>) -> bool {
    r.md5 == fp && r.data_type == dt
}

/// The position of the first row with the given (fingerprint, type) key.
pub open spec fn spec_find_key(rows: Seq<RecModel>, fp: Seq<char>, dt: Seq<char>) -> Option<int>
    decreases rows.len(),
{
    if rows.len() == 0 {
        None
    } else if rec_key_is(rows[0], fp, dt) {
        Some(0)
    } else {
        match spec_find_key(rows.drop_first(), fp, dt) {
            Some(i) => Some(i + 1),
            None => None,
        }
    }
}

/// How many rows carry the given key.
pub open spec fn count_key(rows: Seq<RecModel>, fp: Seq<char>, dt: Seq<char>) -> int
    decreases rows.len(),
{
    if rows.len() == 0 {
        0
    } else {
        (if rec_key_is(rows[0], fp, dt) {
            1int
        } else {
            0int
        }) + count_key(rows.drop_first(), fp, dt)
    }
}

/// Where a row lands when inserted by recency: before the first row it is
/// more recent than.
pub open spec fn spec_sorted_insert(rows: Seq<RecModel>, r: RecModel) -> Seq<RecModel>
    decreases rows.len(),
{
    if rows.len() == 0 {
        seq![r]
    } else if rec_more_recent(r, rows[0]) {
        seq![r] + rows
    } else {
        seq![rows[0]] + spec_sorted_insert(rows.drop_first(), r)
    }
}

// ---------------------------------------------------------------------------
// Well-formedness of the record table.
// ---------------------------------------------------------------------------

/// The store's invariant over its rows and its id counter: recency-sorted,
/// ids unique and below the counter, one row per (fingerprint, type) key,
/// every fingerprint the hash of its row's content, and no row carrying a
/// display icon.
pub open spec fn rec_rows_wf(rows: Seq<RecModel>, next_id: u64) -> bool {
    &&& rec_sorted(rows)
    &&& forall|i: int| 0 <= i < rows.len() ==> (#[trigger] rows[i]).id < next_id
    &&& forall|i: int, j: int|
        0 <= i < j < rows.len() ==> (#[trigger] rows[i]).id != (#[trigger] rows[j]).id
    &&& forall|i: int, j: int|
        0 <= i < j < rows.len() ==> !((#[trigger] rows[i]).md5 == (#[trigger] rows[j]).md5
            && rows[i].data_type == rows[j].data_type)
    &&& forall|i: int| 0 <= i < rows.len() ==> (#[trigger] rows[i]).md5 == md5_of(rows[i].content)
    &&& forall|i: int|
        0 <= i < rows.len() ==> (#[trigger] rows[i]).app_icon == Seq::<char>::empty()
}

// ---------------------------------------------------------------------------
// Lemmas about the order and the transitions.
// ---------------------------------------------------------------------------

/// Inserting at the first position whose row the new row outranks is what
/// `spec_sorted_insert` does.
pub proof fn lemma_sorted_insert_at(rows: Seq<RecModel>, r: RecModel, p: int)
    requires
        0 <= p <= rows.len(),
        forall|k: int| 0 <= k < p ==> !rec_more_recent(r, #[trigger] rows[k]),
        p == rows.len() || rec_more_recent(r, rows[p as int]),
    ensures
        spec_sorted_insert(rows, r) =~= rows.insert(p, r),
    decreases rows.len(),
{
    if rows.len() == 0 {
    } else if rec_more_recent(r, rows[0]) {
        assert(p == 0);
    } else {
        assert(p >= 1);
        lemma_sorted_insert_at(rows.drop_first(), r, p - 1);
        assert(rows.drop_first().insert(p - 1, r) =~= rows.insert(p, r).drop_first());
    }
}

/// A sorted insert keeps the rows sorted, provided the new row shares its
/// (timestamp, id) rank with no existing row.
pub proof fn lemma_sorted_insert_sorted(rows: Seq<RecModel>, r: RecModel)
    requires
        rec_sorted(rows),
        forall|k: int|
            0 <= k < rows.len() ==> !((#[trigger] rows[k]).create_time == r.create_time
                && rows[k].id == r.id),
    ensures
        rec_sorted(spec_sorted_insert(rows, r)),
    decreases rows.len(),
{
    if rows.len() == 0 {
    } else if rec_more_recent(r, rows[0]) {
        let out = seq![r] + rows;
        assert forall|i: int, j: int| 0 <= i < j < out.len() implies rec_more_recent(
            #[trigger] out[i],
            #[trigger] out[j],
        ) by {
            if i == 0 {
                if j > 1 {
                    assert(rec_more_recent(rows[0], rows[j - 1]));
                }
            } else {
                assert(rec_more_recent(rows[i - 1], rows[j - 1]));
            }
        }
    } else {
        let rest = rows.drop_first();
        assert(rec_sorted(rest)) by {
            assert(forall|i: int, j: int|
                0 <= i < j < rest.len() ==> rec_more_recent(
                    #[trigger] rest[i],
                    #[trigger] rest[j],
                ));
        }
        lemma_sorted_insert_sorted(rest, r);
        let inner = spec_sorted_insert(rest, r);
        lemma_sorted_insert_contains(rest, r);
        let out = seq![rows[0]] + inner;
        assert(!rec_more_recent(r, rows[0]));
        assert(rec_more_recent(rows[0], r)) by {
            assert(!(rows[0].create_time == r.create_time && rows[0].id == r.id));
        }
        assert forall|i: int, j: int| 0 <= i < j < out.len() implies rec_more_recent(
            #[trigger] out[i],
            #[trigger] out[j],
        ) by {
            if i == 0 {
                assert(inner.contains(inner[j - 1]));
                if inner[j - 1] == r {
                    assert(rec_more_recent(rows[0], r));
                } else {
                    assert(rest.contains(inner[j - 1]));
                    let k = choose|k: int| 0 <= k < rest.len() && rest[k] == inner[j - 1];
                    assert(rec_more_recent(rows[0], rows[k + 1]));
                }
            } else {
                assert(rec_more_recent(inner[i - 1], inner[j - 1]));
            }
        }
    }
}

/// What a sorted insert holds: the old rows and the new one.
pub proof fn lemma_sorted_insert_multiset(rows: Seq<RecModel>, r: RecModel)
    ensures
        spec_sorted_insert(rows, r).len() == rows.len() + 1,
        spec_sorted_insert(rows, r).to_multiset() =~= rows.to_multiset().insert(r),
    decreases rows.len(),
{
    broadcast use vstd::seq_lib::group_seq_properties;

    if rows.len() == 0 {
        assert(seq![r] =~= rows.insert(0, r));
        vstd::seq_lib::to_multiset_insert(rows, 0, r);
    } else if rec_more_recent(r, rows[0]) {
        assert(seq![r] + rows =~= rows.insert(0, r));
        vstd::seq_lib::to_multiset_insert(rows, 0, r);
    } else {
        let rest = rows.drop_first();
        lemma_sorted_insert_multiset(rest, r);
        let inner = spec_sorted_insert(rest, r);
        assert(seq![rows[0]] + inner =~= inner.insert(0, rows[0]));
        vstd::seq_lib::to_multiset_insert(inner, 0, rows[0]);
        assert(rows =~= rest.insert(0, rows[0]));
        vstd::seq_lib::to_multiset_insert(rest, 0, rows[0]);
        assert((seq![rows[0]] + inner).to_multiset() =~= rows.to_multiset().insert(r)) by {
            broadcast use vstd::multiset::group_multiset_axioms;

        }
    }
}

/// Membership through a sorted insert: the new row, and the old rows.
pub proof fn lemma_sorted_insert_contains(rows: Seq<RecModel>, r: RecModel)
    ensures
        forall|x: RecModel|
            #[trigger] spec_sorted_insert(rows, r).contains(x) <==> rows.contains(x) || x == r,
{
    lemma_sorted_insert_multiset(rows, r);
    broadcast use vstd::seq_lib::group_to_multiset_ensures;
    broadcast use vstd::multiset::group_multiset_axioms;

    let out = spec_sorted_insert(rows, r);
    assert forall|x: RecModel| #[trigger] out.contains(x) <==> rows.contains(x) || x == r by {
        assert(out.contains(x) <==> out.to_multiset().count(x) > 0);
        assert(rows.contains(x) <==> rows.to_multiset().count(x) > 0);
        assert(out.to_multiset().count(x) == rows.to_multiset().insert(r).count(x));
    }
}

/// How a sorted insert changes the number of rows with a key: by one if the
/// new row carries it, not at all otherwise.
pub proof fn lemma_sorted_insert_count(
    rows: Seq<RecModel>,
    r: RecModel,
    fp: Seq<char>,
    dt: Seq<char>,
)
    ensures
        count_key(spec_sorted_insert(rows, r), fp, dt) == count_key(rows, fp, dt) + (
        if rec_key_is(r, fp, dt) {
            1int
        } else {
            0int
        }),
    decreases rows.len(),
{
    if rows.len() == 0 {
        assert(spec_sorted_insert(rows, r).drop_first() =~= rows);
    } else if rec_more_recent(r, rows[0]) {
        assert((seq![r] + rows).drop_first() =~= rows);
    } else {
        lemma_sorted_insert_count(rows.drop_first(), r, fp, dt);
        assert((seq![rows[0]] + spec_sorted_insert(rows.drop_first(), r)).drop_first()
            =~= spec_sorted_insert(rows.drop_first(), r));
    }
}

/// Where the first find stops: a prefix without the key and either the end
/// or a hit.
pub proof fn lemma_find_key_is(rows: Seq<RecModel>, fp: Seq<char>, dt: Seq<char>, p: int)
    requires
        0 <= p <= rows.len(),
        forall|k: int| 0 <= k < p ==> !rec_key_is(#[trigger] rows[k], fp, dt),
        p == rows.len() || rec_key_is(rows[p as int], fp, dt),
    ensures
        spec_find_key(rows, fp, dt) == if p == rows.len() {
            Option::<int>::None
        } else {
            Option::<int>::Some(p)
        },
    decreases rows.len(),
{
    if rows.len() == 0 {
    } else if rec_key_is(rows[0], fp, dt) {
        assert(p == 0);
    } else {
        assert(p >= 1);
        lemma_find_key_is(rows.drop_first(), fp, dt, p - 1);
    }
}

/// A found index indeed carries the key, and nothing before it does.
pub proof fn lemma_find_key_found(rows: Seq<RecModel>, fp: Seq<char>, dt: Seq<char>)
    ensures
        match spec_find_key(rows, fp, dt) {
            Some(i) => 0 <= i < rows.len() && rec_key_is(rows[i], fp, dt) && forall|k: int|
                0 <= k < i ==> !rec_key_is(#[trigger] rows[k], fp, dt),
            None => forall|k: int|
                0 <= k < rows.len() ==> !rec_key_is(#[trigger] rows[k], fp, dt),
        },
    decreases rows.len(),
{
    if rows.len() == 0 {
    } else if rec_key_is(rows[0], fp, dt) {
    } else {
        let rest = rows.drop_first();
        lemma_find_key_found(rest, fp, dt);
        match spec_find_key(rest, fp, dt) {
            Some(i) => {
                assert(rows[i + 1] == rest[i]);
                assert forall|k: int| 0 <= k < i + 1 implies !rec_key_is(
                    #[trigger] rows[k],
                    fp,
                    dt,
                ) by {
                    if k > 0 {
                        assert(rest[k - 1] == rows[k]);
                    }
                }
            },
            None => {
                assert forall|k: int| 0 <= k < rows.len() implies !rec_key_is(
                    #[trigger] rows[k],
                    fp,
                    dt,
                ) by {
                    if k > 0 {
                        assert(rest[k - 1] == rows[k]);
                    }
                }
            },
        }
    }
}


/// Removing a row keeps the table well-formed.
pub proof fn lemma_wf_remove(rows: Seq<RecModel>, next_id: u64, i: int)
    requires
        rec_rows_wf(rows, next_id),
        0 <= i < rows.len(),
    ensures
        rec_rows_wf(rows.remove(i), next_id),
{
    let out = rows.remove(i);
    assert forall|a: int, b: int| 0 <= a < b < out.len() implies rec_more_recent(
        #[trigger] out[a],
        #[trigger] out[b],
    ) && out[a].id != out[b].id && !(out[a].md5 == out[b].md5 && out[a].data_type
        == out[b].data_type) by {
        let a0 = if a < i { a } else { a + 1 };
        let b0 = if b < i { b } else { b + 1 };
        assert(out[a] == rows[a0]);
        assert(out[b] == rows[b0]);
    }
    assert forall|a: int| 0 <= a < out.len() implies (#[trigger] out[a]).id < next_id && out[a].md5
        == md5_of(out[a].content) && out[a].app_icon == Seq::<char>::empty() by {
        let a0 = if a < i { a } else { a + 1 };
        assert(out[a] == rows[a0]);
    }
}

/// Inserting a fresh row at its recency position keeps the table
/// well-formed: the row's id and key are new, its fingerprint is its
/// content's, and the position is the first its recency ranks above.
pub proof fn lemma_wf_insert_at(rows: Seq<RecModel>, next_id: u64, r: RecModel, p: int)
    requires
        rec_rows_wf(rows, next_id),
        0 <= p <= rows.len(),
        r.id < next_id,
        r.md5 == md5_of(r.content),
        r.app_icon == Seq::<char>::empty(),
        forall|k: int| 0 <= k < rows.len() ==> (#[trigger] rows[k]).id != r.id,
        forall|k: int| 0 <= k < rows.len() ==> !rec_key_is(#[trigger] rows[k], r.md5, r.data_type),
        forall|k: int| 0 <= k < p ==> !rec_more_recent(r, #[trigger] rows[k]),
        p == rows.len() || rec_more_recent(r, rows[p as int]),
    ensures
        rec_rows_wf(rows.insert(p, r), next_id),
{
    let out = rows.insert(p, r);
    assert forall|a: int| 0 <= a < out.len() implies (#[trigger] out[a]).id < next_id && out[a].md5
        == md5_of(out[a].content) && out[a].app_icon == Seq::<char>::empty() by {
        if a < p {
            assert(out[a] == rows[a]);
        } else if a == p {
            assert(out[a] == r);
        } else {
            assert(out[a] == rows[a - 1]);
        }
    }
    assert forall|a: int, b: int| 0 <= a < b < out.len() implies rec_more_recent(
        #[trigger] out[a],
        #[trigger] out[b],
    ) && out[a].id != out[b].id && !(out[a].md5 == out[b].md5 && out[a].data_type
        == out[b].data_type) by {
        if a < p && b < p {
            assert(out[a] == rows[a] && out[b] == rows[b]);
        } else if a < p && b == p {
            assert(out[a] == rows[a] && out[b] == r);
            assert(!rec_more_recent(r, rows[a]));
            assert(rows[a].id != r.id);
            assert(rec_more_recent(rows[a], r));
        } else if a < p && b > p {
            assert(out[a] == rows[a] && out[b] == rows[b - 1]);
        } else if a == p {
            assert(out[a] == r && out[b] == rows[b - 1]);
            assert(b - 1 >= p);
            if b - 1 > p {
                assert(rec_more_recent(rows[p as int], rows[b - 1]));
            }
        } else {
            assert(out[a] == rows[a - 1] && out[b] == rows[b - 1]);
        }
    }
}

// ---------------------------------------------------------------------------
// Transitions of the record table.
// ---------------------------------------------------------------------------

/// A stored row after a repeat observation: only its timestamp moves.
pub open spec fn spec_touched(m: RecModel, now: u64) -> RecModel {
    RecModel { create_time: now, ..m }
}

/// The row a fresh observation stores.
pub open spec fn spec_new_row(
    id: u64,
    content: Seq<char>,
    preview: Seq<char>,
    dt: Seq<char>,
    source: Seq<char>,
    now: u64,
) -> RecModel {
    RecModel {
        id,
        content,
        preview,
        data_type: dt,
        md5: md5_of(content),
        create_time: now,
        app_icon: Seq::empty(),
        source,
    }
}

/// The preview a record carries, with absence read as the empty text.
pub open spec fn spec_preview_of(r: Record) -> Seq<char> {
    match r.content_preview {
        Some(p) => p@,
        None => Seq::empty(),
    }
}

/// What observing a record does to the table: a row already carrying the
/// observation's (fingerprint, type) key is touched to the new timestamp and
/// re-ranked; otherwise a fresh row is stored. The flag says whether a row
/// was added.
pub open spec fn spec_insert_if_not_exist(
    rows: Seq<RecModel>,
    next_id: u64,
    content: Seq<char>,
    preview: Seq<char>,
    dt: Seq<char>,
    source: Seq<char>,
    now: u64,
) -> (Seq<RecModel>, bool) {
    match spec_find_key(rows, md5_of(content), dt) {
        Some(i) => (spec_sorted_insert(rows.remove(i), spec_touched(rows[i], now)), false),
        None => (
            spec_sorted_insert(rows, spec_new_row(next_id, content, preview, dt, source, now)),
            true,
        ),
    }
}

// ---------------------------------------------------------------------------
// The record store.
// ---------------------------------------------------------------------------

/// The clipboard-history record table, held in memory in recency order; a
/// caller that persists it mirrors the outcomes these methods report.
pub struct RecordSQL {
    rows: Vec<Record>,
    next_id: u64,
}

impl View for RecordSQL {
    type V = Seq<RecModel>;

    closed spec fn view(&self) -> Seq<RecModel> {
        rec_models(self.rows@)
    }
}

impl RecordSQL {
    /// The id the next fresh row will take.
    pub closed spec fn spec_next_id(&self) -> u64 {
        self.next_id
    }

    /// The store's invariant.
    pub open spec fn wf(&self) -> bool {
        rec_rows_wf(self@, self.spec_next_id())
    }

    /// An empty store; ids are assigned from 1 up, as the persistent table
    /// numbers its rows.
    pub fn new() -> (r: Self)
        ensures
            r.wf(),
            r@ =~= Seq::<RecModel>::empty(),
            r.spec_next_id() == 1,
    {
        let r = RecordSQL { rows: Vec::new(), next_id: 1 };
        proof {
            assert(r@ =~= Seq::<RecModel>::empty());
        }
        r
    }

    /// The id the next fresh row will take; callers check its headroom
    /// before a cycle that may add rows.
    pub fn next_id(&self) -> (n: u64)
        ensures
            n == self.spec_next_id(),
    {
        self.next_id
    }

    /// How many rows the store holds.
    pub fn count(&self) -> (n: usize)
        ensures
            n == self@.len(),
    {
        self.rows.len()
    }

    /// The position of the first row with the given key, if any.
    fn find_index_by_key(&self, fp: &String, dt: &String) -> (r: Option<usize>)
        ensures
            match r {
                Some(i) => spec_find_key(self@, fp@, dt@) == Some(i as int),
                None => spec_find_key(self@, fp@, dt@) is None,
            },
    {
        let n = self.rows.len();
        let mut i: usize = 0;
        while i < n
            invariant
                i <= n,
                n == self@.len(),
                self@.len() == self.rows@.len(),
                forall|k: int| 0 <= k < i ==> !rec_key_is(#[trigger] self@[k], fp@, dt@),
            decreases n - i,
        {
            assert(self@[i as int] == self.rows@[i as int].model());
            if self.rows[i].md5 == *fp && self.rows[i].data_type == *dt {
                proof {
                    lemma_find_key_is(self@, fp@, dt@, i as int);
                }
                return Some(i);
            }
            i += 1;
        }
        proof {
            lemma_find_key_is(self@, fp@, dt@, n as int);
        }
        None
    }

    /// Place a row at its recency position.
    fn insert_row_sorted(&mut self, rec: Record)
        requires
            rec_rows_wf(old(self)@, old(self).spec_next_id()),
            rec.model().id < old(self).spec_next_id(),
            rec.model().md5 == md5_of(rec.model().content),
            rec.model().app_icon == Seq::<char>::empty(),
            forall|k: int|
                0 <= k < old(self)@.len() ==> (#[trigger] old(self)@[k]).id != rec.model().id,
            forall|k: int|
                0 <= k < old(self)@.len() ==> !rec_key_is(
                    #[trigger] old(self)@[k],
                    rec.model().md5,
                    rec.model().data_type,
                ),
        ensures
            final(self)@ =~= spec_sorted_insert(old(self)@, rec.model()),
            rec_rows_wf(final(self)@, final(self).spec_next_id()),
            final(self).spec_next_id() == old(self).spec_next_id(),
    {
        let n = self.rows.len();
        let mut p: usize = 0;
        while p < n && !(rec.create_time > self.rows[p].create_time || (rec.create_time
            == self.rows[p].create_time && rec.id > self.rows[p].id))
            invariant
                p <= n,
                n == self.rows@.len(),
                self == old(self),
                forall|k: int| 0 <= k < p ==> !rec_more_recent(rec.model(), #[trigger] self@[k]),
            decreases n - p,
        {
            proof {
                assert(self@[p as int] == self.rows@[p as int].model());
            }
            p += 1;
        }
        proof {
            assert(p < n ==> self@[p as int] == self.rows@[p as int].model());
            lemma_sorted_insert_at(old(self)@, rec.model(), p as int);
            lemma_wf_insert_at(old(self)@, old(self).spec_next_id(), rec.model(), p as int);
        }
        self.rows.insert(p, rec);
        proof {
            assert(self@ =~= rec_models(old(self).rows@).insert(p as int, rec.model()));
        }
    }

    /// Store a fresh observation: the row gets the next id, the given
    /// timestamp, the content's fingerprint, and an empty display icon; it
    /// lands at its recency position. The new row's id is returned.
    pub fn insert_record(&mut self, r: &Record, now_ms: u64) -> (id: u64)
        requires
            old(self).wf(),
            old(self).spec_next_id() < u64::MAX,
            spec_find_key(old(self)@, md5_of(r.content@), r.data_type@) is None,
        ensures
            final(self).wf(),
            id == old(self).spec_next_id(),
            final(self).spec_next_id() == old(self).spec_next_id() + 1,
            final(self)@ =~= spec_sorted_insert(
                old(self)@,
                spec_new_row(
                    old(self).spec_next_id(),
                    r.content@,
                    spec_preview_of(*r),
                    r.data_type@,
                    r.source@,
                    now_ms,
                ),
            ),
    {
        let md5v = crate::string_factory::md5(r.content.as_str());
        let preview = match &r.content_preview {
            Some(p) => p.clone(),
            None => String::new(),
        };
        let id = self.next_id;
        let rec = Record {
            id,
            content: r.content.clone(),
            content_preview: Some(preview),
            data_type: r.data_type.clone(),
            md5: md5v,
            create_time: now_ms,
            app_icon: String::new(),
            source: r.source.clone(),
        };
        proof {
            assert(rec.model() == spec_new_row(
                old(self).spec_next_id(),
                r.content@,
                spec_preview_of(*r),
                r.data_type@,
                r.source@,
                now_ms,
            ));
            lemma_find_key_found(self@, md5_of(r.content@), r.data_type@);
        }
        self.next_id = self.next_id + 1;
        self.insert_row_sorted(rec);
        id
    }

    /// Refresh the timestamp of the row at a known position and re-rank it.
    fn touch_row(&mut self, i: usize, now_ms: u64)
        requires
            old(self).wf(),
            i < old(self)@.len(),
        ensures
            final(self).wf(),
            final(self).spec_next_id() == old(self).spec_next_id(),
            final(self)@ =~= spec_sorted_insert(
                old(self)@.remove(i as int),
                spec_touched(old(self)@[i as int], now_ms),
            ),
    {
        let mut rec = self.rows.remove(i);
        proof {
            assert(rec_models(self.rows@) =~= old(self)@.remove(i as int));
            lemma_wf_remove(old(self)@, old(self).spec_next_id(), i as int);
        }
        rec.create_time = now_ms;
        proof {
            assert(rec.model() == spec_touched(old(self)@[i as int], now_ms));
            assert forall|k: int| 0 <= k < self@.len() implies (#[trigger] self@[k]).id
                != rec.model().id by {
                let k0 = if k < i { k } else { k + 1 };
                assert(self@[k] == old(self)@[k0]);
            }
            assert forall|k: int| 0 <= k < self@.len() implies !rec_key_is(
                #[trigger] self@[k],
                rec.model().md5,
                rec.model().data_type,
            ) by {
                let k0 = if k < i { k } else { k + 1 };
                assert(self@[k] == old(self)@[k0]);
            }
        }
        self.insert_row_sorted(rec);
    }

    /// Record an observation: touch the row already carrying its
    /// (fingerprint, type) key, or store a fresh row. Returns whether a row
    /// was added, the signal the change notifier listens for.
    pub fn insert_if_not_exist(&mut self, r: &Record, now_ms: u64) -> (inserted: bool)
        requires
            old(self).wf(),
            old(self).spec_next_id() < u64::MAX,
        ensures
            final(self).wf(),
            final(self)@ =~= spec_insert_if_not_exist(
                old(self)@,
                old(self).spec_next_id(),
                r.content@,
                spec_preview_of(*r),
                r.data_type@,
                r.source@,
                now_ms,
            ).0,
            inserted == spec_insert_if_not_exist(
                old(self)@,
                old(self).spec_next_id(),
                r.content@,
                spec_preview_of(*r),
                r.data_type@,
                r.source@,
                now_ms,
            ).1,
            final(self).spec_next_id() == old(self).spec_next_id() + (if inserted {
                1int
            } else {
                0int
            }),
    {
        let md5v = crate::string_factory::md5(r.content.as_str());
        match self.find_index_by_key(&md5v, &r.data_type) {
            Some(i) => {
                proof {
                    lemma_find_key_found(self@, md5_of(r.content@), r.data_type@);
                }
                self.touch_row(i, now_ms);
                false
            },
            None => {
                self.insert_record(r, now_ms);
                true
            },
        }
    }

    /// Whether any row carries the given fingerprint, under any type.
    pub fn md5_is_exist(&self, md5: &str) -> (r: bool)
        ensures
            r == exists|i: int| 0 <= i < self@.len() && (#[trigger] self@[i]).md5 == md5@,
    {
        let n = self.rows.len();
        let mut i: usize = 0;
        while i < n
            invariant
                i <= n,
                n == self@.len(),
                self@.len() == self.rows@.len(),
                forall|k: int| 0 <= k < i ==> (#[trigger] self@[k]).md5 != md5@,
            decreases n - i,
        {
            assert(self@[i as int] == self.rows@[i as int].model());
            if crate::string_factory::str_eq(self.rows[i].md5.as_str(), md5) {
                return true;
            }
            i += 1;
        }
        false
    }

    /// Empty the table; the id counter keeps counting, as the persistent
    /// table would.
    pub fn clear_data(&mut self)
        requires
            old(self).wf(),
        ensures
            final(self).wf(),
            final(self)@ =~= Seq::<RecModel>::empty(),
            final(self).spec_next_id() == old(self).spec_next_id(),
    {
        self.rows = Vec::new();
        proof {
            assert(self@ =~= Seq::<RecModel>::empty());
        }
    }
}


// ---------------------------------------------------------------------------
// Listings: the shapes queries return rows in.
// ---------------------------------------------------------------------------

/// A listing row: the stored preview stands in the content field, the
/// preview field is left empty, and no icon is attached yet.
pub open spec fn spec_listing_of(m: RecModel) -> RecModel {
    RecModel { content: m.preview, preview: Seq::empty(), app_icon: Seq::empty(), ..m }
}

/// A search-listing row: as a listing, with the source withheld.
pub open spec fn spec_keyed_listing_of(m: RecModel) -> RecModel {
    RecModel {
        content: m.preview,
        preview: Seq::empty(),
        app_icon: Seq::empty(),
        source: Seq::empty(),
        ..m
    }
}

/// A point-lookup row: the full content, no preview, no icon.
pub open spec fn spec_full_of(m: RecModel) -> RecModel {
    RecModel { preview: Seq::empty(), app_icon: Seq::empty(), ..m }
}

/// Whether a row answers a text search: it is a text row whose content
/// holds the keyword, compared with ASCII letters folded.
pub open spec fn rec_matches_key(m: RecModel, kw: Seq<char>) -> bool {
    m.data_type == "text"@ && crate::string_factory::spec_contains(
        crate::string_factory::spec_lower(m.content),
        crate::string_factory::spec_lower(kw),
    )
}

/// Whether a row answers a content search of any type: the keyword occurs
/// in the stored content or in the stored preview, with ASCII letters
/// folded.
pub open spec fn rec_matches_kw(m: RecModel, kw: Seq<char>) -> bool {
    ||| crate::string_factory::spec_contains(
        crate::string_factory::spec_lower(m.content),
        crate::string_factory::spec_lower(kw),
    )
    ||| crate::string_factory::spec_contains(
        crate::string_factory::spec_lower(m.preview),
        crate::string_factory::spec_lower(kw),
    )
}

/// The empty text holds exactly the empty keyword, folded or not.
pub proof fn lemma_contains_in_empty(preview: Seq<char>, kw: Seq<char>)
    requires
        preview.len() == 0,
    ensures
        crate::string_factory::spec_contains(
            crate::string_factory::spec_lower(preview),
            crate::string_factory::spec_lower(kw),
        ) <==> kw.len() == 0,
{
    let lp = crate::string_factory::spec_lower(preview);
    let lk = crate::string_factory::spec_lower(kw);
    if kw.len() == 0 {
        assert(lp.subrange(0, 0) =~= lk);
        assert(crate::string_factory::spec_matches_at(lp, lk, 0));
    } else {
        assert(forall|i: int| !crate::string_factory::spec_matches_at(lp, lk, i));
    }
}

/// The rows a text search keeps, in their stored order.
pub open spec fn spec_key_filter(rows: Seq<RecModel>, kw: Seq<char>) -> Seq<RecModel>
    decreases rows.len(),
{
    if rows.len() == 0 {
        Seq::empty()
    } else {
        let rest = spec_key_filter(rows.drop_last(), kw);
        if rec_matches_key(rows.last(), kw) {
            rest.push(rows.last())
        } else {
            rest
        }
    }
}

/// The rows a content search keeps, in their stored order.
pub open spec fn spec_kw_filter(rows: Seq<RecModel>, kw: Seq<char>) -> Seq<RecModel>
    decreases rows.len(),
{
    if rows.len() == 0 {
        Seq::empty()
    } else {
        let rest = spec_kw_filter(rows.drop_last(), kw);
        if rec_matches_kw(rows.last(), kw) {
            rest.push(rows.last())
        } else {
            rest
        }
    }
}

/// A sequence cut to at most `n` of its first elements.
pub open spec fn take_at_most<A>(s: Seq<A>, n: int) -> Seq<A> {
    if s.len() <= n {
        s
    } else {
        s.take(n)
    }
}

impl RecordSQL {
    /// The listing form of one stored row.
    fn listing_record(r: &Record) -> (out: Record)
        ensures
            out.model() == spec_listing_of(r.model()),
            out.content_preview is None,
    {
        Record {
            id: r.id,
            content: match &r.content_preview {
                Some(p) => p.clone(),
                None => String::new(),
            },
            content_preview: None,
            data_type: r.data_type.clone(),
            md5: r.md5.clone(),
            create_time: r.create_time,
            app_icon: String::new(),
            source: r.source.clone(),
        }
    }

    /// Every row, newest first, in listing form.
    pub fn find_all(&self) -> (res: Vec<Record>)
        ensures
            res@.len() == self@.len(),
            forall|i: int|
                0 <= i < res@.len() ==> (#[trigger] res@[i]).model() == spec_listing_of(self@[i]),
            forall|i: int| 0 <= i < res@.len() ==> (#[trigger] res@[i]).content_preview is None,
    {
        let n = self.rows.len();
        let mut res: Vec<Record> = Vec::new();
        let mut i: usize = 0;
        while i < n
            invariant
                i <= n,
                n == self.rows@.len(),
                self@.len() == self.rows@.len(),
                res@.len() == i,
                forall|k: int|
                    0 <= k < i ==> (#[trigger] res@[k]).model() == spec_listing_of(self@[k]),
                forall|k: int| 0 <= k < i ==> (#[trigger] res@[k]).content_preview is None,
            decreases n - i,
        {
            assert(self@[i as int] == self.rows@[i as int].model());
            let out = Self::listing_record(&self.rows[i]);
            res.push(out);
            i += 1;
        }
        res
    }

    /// A page of rows: `limit` rows in listing form, newest first, starting
    /// `offset` rows in.
    pub fn find_part(&self, limit: i32, offset: i32) -> (res: Vec<Record>)
        requires
            0 <= limit,
            0 <= offset,
        ensures
            ({
                let start = if offset as int <= self@.len() {
                    offset as int
                } else {
                    self@.len() as int
                };
                let end = if offset as int + limit as int <= self@.len() {
                    offset as int + limit as int
                } else {
                    self@.len() as int
                };
                res@.len() == end - start && forall|k: int|
                    0 <= k < res@.len() ==> (#[trigger] res@[k]).model() == spec_listing_of(
                        self@[start + k],
                    )
            }),
            forall|k: int| 0 <= k < res@.len() ==> (#[trigger] res@[k]).content_preview is None,
    {
        let n = self.rows.len();
        let start: usize = if (offset as usize) <= n {
            offset as usize
        } else {
            n
        };
        let end: usize = if (offset as usize) + (limit as usize) <= n {
            (offset as usize) + (limit as usize)
        } else {
            n
        };
        let mut res: Vec<Record> = Vec::new();
        let mut i: usize = start;
        while i < end
            invariant
                start <= i <= end,
                end <= n,
                n == self.rows@.len(),
                self@.len() == self.rows@.len(),
                res@.len() == i - start,
                forall|k: int|
                    0 <= k < res@.len() ==> (#[trigger] res@[k]).model() == spec_listing_of(
                        self@[start + k],
                    ),
                forall|k: int|
                    0 <= k < res@.len() ==> (#[trigger] res@[k]).content_preview is None,
            decreases end - i,
        {
            assert(self@[i as int] == self.rows@[i as int].model());
            let out = Self::listing_record(&self.rows[i]);
            res.push(out);
            i += 1;
        }
        res
    }

    /// Whether one stored row answers a text search for `kw`.
    fn row_matches_key(r: &Record, kw: &str) -> (b: bool)
        ensures
            b == rec_matches_key(r.model(), kw@),
    {
        if !crate::string_factory::str_eq(r.data_type.as_str(), "text") {
            return false;
        }
        let content_low = crate::string_factory::lower_str(r.content.as_str());
        let kw_low = crate::string_factory::lower_str(kw);
        crate::string_factory::contains_str(content_low.as_str(), kw_low.as_str())
    }

    /// Text search: the newest rows of type text whose content holds the
    /// key (ASCII letters folded), in search-listing form, at most the
    /// requested number of them (300 when unset).
    pub fn find_by_key(&self, req: &QueryReq) -> (res: Vec<Record>)
        ensures
            ({
                let lim = (match req.limit {
                    Some(l) => l as int,
                    None => 300int,
                });
                match req.key {
                    Some(kw) => {
                        let f = take_at_most(spec_key_filter(self@, kw@), lim);
                        res@.len() == f.len() && forall|k: int|
                            0 <= k < res@.len() ==> (#[trigger] res@[k]).model()
                                == spec_keyed_listing_of(f[k])
                    },
                    None => {
                        let f = take_at_most(self@, lim);
                        res@.len() == f.len() && forall|k: int|
                            0 <= k < res@.len() ==> (#[trigger] res@[k]).model()
                                == spec_keyed_listing_of(f[k])
                    },
                }
            }),
            forall|k: int| 0 <= k < res@.len() ==> (#[trigger] res@[k]).content_preview is None,
    {
        let limit: usize = match req.limit {
            Some(l) => l,
            None => 300,
        };
        let n = self.rows.len();
        let mut res: Vec<Record> = Vec::new();
        let mut i: usize = 0;
        match &req.key {
            Some(kw) => {
                while i < n
                    invariant
                        i <= n,
                        n == self.rows@.len(),
                        self@.len() == self.rows@.len(),
                        req.key == Some(*kw),
                        res@.len() == take_at_most(
                            spec_key_filter(self@.take(i as int), kw@),
                            limit as int,
                        ).len(),
                        res@.len() <= limit,
                        forall|k: int|
                            0 <= k < res@.len() ==> (#[trigger] res@[k]).model()
                                == spec_keyed_listing_of(
                                spec_key_filter(self@.take(i as int), kw@)[k],
                            ),
                        forall|k: int|
                            0 <= k < res@.len() ==> (#[trigger] res@[k]).content_preview is None,
                    decreases n - i,
                {
                    assert(self@[i as int] == self.rows@[i as int].model());
                    let ghost f0 = spec_key_filter(self@.take(i as int), kw@);
                    let ghost m = self@[i as int];
                    proof {
                        assert(self@.take(i + 1).drop_last() =~= self@.take(i as int));
                        assert(self@.take(i + 1).last() == m);
                    }
                    let ghost f1 = spec_key_filter(self@.take(i + 1), kw@);
                    if res.len() < limit && Self::row_matches_key(&self.rows[i], kw.as_str()) {
                        assert(f1 == f0.push(m));
                        assert(f0.len() < limit);
                        let out = Self::listing_record(&self.rows[i]);
                        let out = Record { source: String::new(), ..out };
                        assert(out.model() == spec_keyed_listing_of(m));
                        res.push(out);
                        assert(forall|k: int| 0 <= k < f0.len() ==> f1[k] == f0[k]);
                    } else {
                        proof {
                            if rec_matches_key(m, kw@) {
                                assert(f1 == f0.push(m));
                                assert(res@.len() == limit);
                                assert(forall|k: int| 0 <= k < f0.len() ==> f1[k] == f0[k]);
                            } else {
                                assert(f1 == f0);
                            }
                        }
                    }
                    i += 1;
                }
                proof {
                    assert(self@.take(n as int) =~= self@);
                }
            },
            None => {
                while i < n
                    invariant
                        i <= n,
                        n == self.rows@.len(),
                        self@.len() == self.rows@.len(),
                        i <= limit ==> res@.len() == i,
                        i > limit ==> res@.len() == limit,
                        forall|k: int|
                            0 <= k < res@.len() ==> (#[trigger] res@[k]).model()
                                == spec_keyed_listing_of(self@[k]),
                        forall|k: int|
                            0 <= k < res@.len() ==> (#[trigger] res@[k]).content_preview is None,
                    decreases n - i,
                {
                    assert(self@[i as int] == self.rows@[i as int].model());
                    if res.len() < limit {
                        let out = Self::listing_record(&self.rows[i]);
                        let out = Record { source: String::new(), ..out };
                        res.push(out);
                    }
                    i += 1;
                }
            },
        }
        res
    }

    /// Content search across every type: the rows whose stored content or
    /// preview holds the keyword (ASCII letters folded), newest first, in
    /// listing form, thirty to a page.
    pub fn find_by_keyword(&self, keyword: &str, offset: i32) -> (res: Vec<Record>)
        requires
            0 <= offset,
        ensures
            ({
                let f = spec_kw_filter(self@, keyword@);
                let start = if offset as int <= f.len() {
                    offset as int
                } else {
                    f.len() as int
                };
                let end = if offset as int + 30 <= f.len() {
                    offset as int + 30
                } else {
                    f.len() as int
                };
                res@.len() == end - start && forall|k: int|
                    0 <= k < res@.len() ==> (#[trigger] res@[k]).model() == spec_listing_of(
                        f[start + k],
                    )
            }),
            forall|k: int| 0 <= k < res@.len() ==> (#[trigger] res@[k]).content_preview is None,
    {
        let n = self.rows.len();
        let kw_low = crate::string_factory::lower_str(keyword);
        let mut matched: Vec<Record> = Vec::new();
        let mut i: usize = 0;
        while i < n
            invariant
                i <= n,
                n == self.rows@.len(),
                self@.len() == self.rows@.len(),
                kw_low@ == crate::string_factory::spec_lower(keyword@),
                matched@.len() == spec_kw_filter(self@.take(i as int), keyword@).len(),
                forall|k: int|
                    0 <= k < matched@.len() ==> (#[trigger] matched@[k]).model()
                        == spec_listing_of(spec_kw_filter(self@.take(i as int), keyword@)[k]),
                forall|k: int|
                    0 <= k < matched@.len() ==> (#[trigger] matched@[k]).content_preview is None,
            decreases n - i,
        {
            assert(self@[i as int] == self.rows@[i as int].model());
            let ghost f0 = spec_kw_filter(self@.take(i as int), keyword@);
            let ghost m = self@[i as int];
            proof {
                assert(self@.take(i + 1).drop_last() =~= self@.take(i as int));
                assert(self@.take(i + 1).last() == m);
            }
            let ghost f1 = spec_kw_filter(self@.take(i + 1), keyword@);
            let content_low = crate::string_factory::lower_str(self.rows[i].content.as_str());
            let mut hit = crate::string_factory::contains_str(
                content_low.as_str(),
                kw_low.as_str(),
            );
            if !hit {
                hit = match &self.rows[i].content_preview {
                    Some(p) => {
                        let preview_low = crate::string_factory::lower_str(p.as_str());
                        crate::string_factory::contains_str(
                            preview_low.as_str(),
                            kw_low.as_str(),
                        )
                    },
                    None => {
                        proof {
                            lemma_contains_in_empty(m.preview, keyword@);
                        }
                        keyword.unicode_len() == 0
                    },
                };
            }
            assert(hit == rec_matches_kw(m, keyword@));
            if hit {
                assert(f1 == f0.push(m));
                let out = Self::listing_record(&self.rows[i]);
                matched.push(out);
                assert(forall|k: int| 0 <= k < f0.len() ==> f1[k] == f0[k]);
            } else {
                assert(f1 == f0);
            }
            i += 1;
        }
        proof {
            assert(self@.take(n as int) =~= self@);
        }
        let ghost f = spec_kw_filter(self@, keyword@);
        let mlen = matched.len();
        let start: usize = if (offset as usize) <= mlen {
            offset as usize
        } else {
            mlen
        };
        let end: usize = if (offset as usize) + 30 <= mlen {
            (offset as usize) + 30
        } else {
            mlen
        };
        let mut res: Vec<Record> = Vec::new();
        let mut j: usize = start;
        while j < end
            invariant
                start <= j <= end,
                end <= mlen,
                mlen == matched@.len(),
                mlen == f.len(),
                res@.len() == j - start,
                forall|k: int|
                    0 <= k < matched@.len() ==> (#[trigger] matched@[k]).model()
                        == spec_listing_of(f[k]),
                forall|k: int|
                    0 <= k < matched@.len() ==> (#[trigger] matched@[k]).content_preview is None,
                forall|k: int|
                    0 <= k < res@.len() ==> (#[trigger] res@[k]).model() == spec_listing_of(
                        f[start + k],
                    ),
                forall|k: int|
                    0 <= k < res@.len() ==> (#[trigger] res@[k]).content_preview is None,
            decreases end - j,
        {
            let out = Self::clone_listing(&matched[j]);
            res.push(out);
            j += 1;
        }
        res
    }

    /// Copy one already-listing-shaped row.
    fn clone_listing(r: &Record) -> (out: Record)
        ensures
            out.model() == r.model(),
            out.content_preview is None <==> r.content_preview is None,
    {
        Record {
            id: r.id,
            content: r.content.clone(),
            content_preview: match &r.content_preview {
                Some(p) => Some(p.clone()),
                None => None,
            },
            data_type: r.data_type.clone(),
            md5: r.md5.clone(),
            create_time: r.create_time,
            app_icon: r.app_icon.clone(),
            source: r.source.clone(),
        }
    }

    /// Point lookup by id: the full content of the one row with that id.
    pub fn find_by_id(&self, id: u64) -> (res: Option<Record>)
        ensures
            match res {
                Some(rec) => rec.content_preview is None && exists|i: int|
                    0 <= i < self@.len() && (#[trigger] self@[i]).id == id && rec.model()
                        == spec_full_of(self@[i]),
                None => forall|i: int| 0 <= i < self@.len() ==> (#[trigger] self@[i]).id != id,
            },
    {
        let n = self.rows.len();
        let mut i: usize = 0;
        while i < n
            invariant
                i <= n,
                n == self.rows@.len(),
                self@.len() == self.rows@.len(),
                forall|k: int| 0 <= k < i ==> (#[trigger] self@[k]).id != id,
            decreases n - i,
        {
            assert(self@[i as int] == self.rows@[i as int].model());
            if self.rows[i].id == id {
                let r = &self.rows[i];
                let out = Record {
                    id: r.id,
                    content: r.content.clone(),
                    content_preview: None,
                    data_type: r.data_type.clone(),
                    md5: r.md5.clone(),
                    create_time: r.create_time,
                    app_icon: String::new(),
                    source: r.source.clone(),
                };
                assert(out.model() == spec_full_of(self@[i as int]));
                return Some(out);
            }
            i += 1;
        }
        None
    }

    /// The stored rows themselves, complete and newest first, for a caller
    /// that mirrors the table to persistent storage.
    pub fn export_rows(&self) -> (res: Vec<Record>)
        ensures
            res@.len() == self@.len(),
            forall|i: int| 0 <= i < res@.len() ==> (#[trigger] res@[i]).model() == self@[i],
    {
        let n = self.rows.len();
        let mut res: Vec<Record> = Vec::new();
        let mut i: usize = 0;
        while i < n
            invariant
                i <= n,
                n == self.rows@.len(),
                self@.len() == self.rows@.len(),
                res@.len() == i,
                forall|k: int| 0 <= k < i ==> (#[trigger] res@[k]).model() == self@[k],
            decreases n - i,
        {
            assert(self@[i as int] == self.rows@[i as int].model());
            let out = Self::clone_listing(&self.rows[i]);
            res.push(out);
            i += 1;
        }
        res
    }

    /// The retention sweep: nothing happens while the table holds fewer than
    /// `limit` plus ten rows; past that slack, the oldest rows beyond
    /// `limit` are evicted in one batch, leaving exactly the `limit` most
    /// recent. Returns whether an eviction happened.
    pub fn delete_over_limit(&mut self, limit: usize) -> (evicted: bool)
        requires
            old(self).wf(),
        ensures
            final(self).wf(),
            final(self).spec_next_id() == old(self).spec_next_id(),
            old(self)@.len() < limit + 10 ==> !evicted && final(self)@ =~= old(self)@,
            old(self)@.len() >= limit + 10 ==> evicted && final(self)@ =~= old(self)@.take(
                limit as int,
            ),
    {
        let count = self.rows.len();
        if count < limit || count - limit < 10 {
            return false;
        }
        self.rows.truncate(limit);
        proof {
            assert(rec_models(self.rows@) =~= rec_models(old(self).rows@).take(limit as int));
            let out = self@;
            let rows = old(self)@;
            assert forall|a: int| 0 <= a < out.len() implies (#[trigger] out[a])
                == rows[a] by {}
            assert(rec_rows_wf(out, self.spec_next_id()));
        }
        true
    }
}


// ---------------------------------------------------------------------------
// The application/file search index.
// ---------------------------------------------------------------------------

/// One indexed application or file.
#[derive(Debug, PartialEq, Clone)]
pub struct FileIndex {
    pub id: u64,
    pub title: String,
    pub path: String,
    pub desc: String,
    pub icon: String,
    pub pinyin: String,
    pub abb: String,
    pub file_type: String,
    pub md5: String,
    pub create_time: u64,
}

/// The mathematical image of one index row.
pub struct IdxModel {
    pub id: u64,
    pub title: Seq<char>,
    pub path: Seq<char>,
    pub desc: Seq<char>,
    pub icon: Seq<char>,
    pub pinyin: Seq<char>,
    pub abb: Seq<char>,
    pub file_type: Seq<char>,
    pub md5: Seq<char>,
    pub create_time: u64,
}

impl FileIndex {
    /// The view of this index entry.
    pub open spec fn model(self) -> IdxModel {
        IdxModel {
            id: self.id,
            title: self.title@,
            path: self.path@,
            desc: self.desc@,
            icon: self.icon@,
            pinyin: self.pinyin@,
            abb: self.abb@,
            file_type: self.file_type@,
            md5: self.md5@,
            create_time: self.create_time,
        }
    }
}

impl Default for FileIndex {
    /// An empty index entry.
    fn default() -> (r: FileIndex)
        ensures
            r.model() == idx_empty_model(),
    {
        FileIndex {
            id: 0,
            title: String::new(),
            path: String::new(),
            desc: String::new(),
            icon: String::new(),
            pinyin: String::new(),
            abb: String::new(),
            file_type: String::new(),
            md5: String::new(),
            create_time: 0,
        }
    }
}

/// The all-empty index row, which lookups fall back to.
pub open spec fn idx_empty_model() -> IdxModel {
    IdxModel {
        id: 0,
        title: Seq::empty(),
        path: Seq::empty(),
        desc: Seq::empty(),
        icon: Seq::empty(),
        pinyin: Seq::empty(),
        abb: Seq::empty(),
        file_type: Seq::empty(),
        md5: Seq::empty(),
        create_time: 0,
    }
}

/// The views of a sequence of index entries.
pub open spec fn idx_models(rows: Seq<FileIndex>) -> Seq<IdxModel> {
    rows.map_values(|r: FileIndex| r.model())
}

/// Which index table an operation addresses.
#[derive(Debug, PartialEq, Eq, Structural, Clone, Copy)]
pub enum IndexTable {
    App,
    File,
}

/// Whether `a` is strictly more recent than `b`.
pub open spec fn idx_more_recent(a: IdxModel, b: IdxModel) -> bool {
    a.create_time > b.create_time || (a.create_time == b.create_time && a.id > b.id)
}

/// Newest first, strictly.
pub open spec fn idx_sorted(rows: Seq<IdxModel>) -> bool {
    forall|i: int, j: int|
        0 <= i < j < rows.len() ==> idx_more_recent(#[trigger] rows[i], #[trigger] rows[j])
}

/// The position of the first row with the given path.
pub open spec fn idx_find_path(rows: Seq<IdxModel>, path: Seq<char>) -> Option<int>
    decreases rows.len(),
{
    if rows.len() == 0 {
        None
    } else if rows[0].path == path {
        Some(0)
    } else {
        match idx_find_path(rows.drop_first(), path) {
            Some(i) => Some(i + 1),
            None => None,
        }
    }
}

/// The position of the first row with the given fingerprint.
pub open spec fn idx_find_md5(rows: Seq<IdxModel>, md5: Seq<char>) -> Option<int>
    decreases rows.len(),
{
    if rows.len() == 0 {
        None
    } else if rows[0].md5 == md5 {
        Some(0)
    } else {
        match idx_find_md5(rows.drop_first(), md5) {
            Some(i) => Some(i + 1),
            None => None,
        }
    }
}

/// Where an index row lands when inserted by recency.
pub open spec fn idx_sorted_insert(rows: Seq<IdxModel>, r: IdxModel) -> Seq<IdxModel>
    decreases rows.len(),
{
    if rows.len() == 0 {
        seq![r]
    } else if idx_more_recent(r, rows[0]) {
        seq![r] + rows
    } else {
        seq![rows[0]] + idx_sorted_insert(rows.drop_first(), r)
    }
}

/// The index table's invariant: recency-sorted, ids unique and below the
/// counter, paths unique, every fingerprint the hash of its row's path.
pub open spec fn idx_rows_wf(rows: Seq<IdxModel>, next_id: u64) -> bool {
    &&& idx_sorted(rows)
    &&& forall|i: int| 0 <= i < rows.len() ==> (#[trigger] rows[i]).id < next_id
    &&& forall|i: int, j: int|
        0 <= i < j < rows.len() ==> (#[trigger] rows[i]).id != (#[trigger] rows[j]).id
    &&& forall|i: int, j: int|
        0 <= i < j < rows.len() ==> (#[trigger] rows[i]).path != (#[trigger] rows[j]).path
    &&& forall|i: int| 0 <= i < rows.len() ==> (#[trigger] rows[i]).md5 == md5_of(rows[i].path)
}

/// Inserting at the first position whose row the new row outranks is what
/// `idx_sorted_insert` does.
pub proof fn lemma_idx_sorted_insert_at(rows: Seq<IdxModel>, r: IdxModel, p: int)
    requires
        0 <= p <= rows.len(),
        forall|k: int| 0 <= k < p ==> !idx_more_recent(r, #[trigger] rows[k]),
        p == rows.len() || idx_more_recent(r, rows[p as int]),
    ensures
        idx_sorted_insert(rows, r) =~= rows.insert(p, r),
    decreases rows.len(),
{
    if rows.len() == 0 {
    } else if idx_more_recent(r, rows[0]) {
        assert(p == 0);
    } else {
        assert(p >= 1);
        lemma_idx_sorted_insert_at(rows.drop_first(), r, p - 1);
        assert(rows.drop_first().insert(p - 1, r) =~= rows.insert(p, r).drop_first());
    }
}

/// Removing a row keeps an index table well-formed.
pub proof fn lemma_idx_wf_remove(rows: Seq<IdxModel>, next_id: u64, i: int)
    requires
        idx_rows_wf(rows, next_id),
        0 <= i < rows.len(),
    ensures
        idx_rows_wf(rows.remove(i), next_id),
{
    let out = rows.remove(i);
    assert forall|a: int, b: int| 0 <= a < b < out.len() implies idx_more_recent(
        #[trigger] out[a],
        #[trigger] out[b],
    ) && out[a].id != out[b].id && out[a].path != out[b].path by {
        let a0 = if a < i { a } else { a + 1 };
        let b0 = if b < i { b } else { b + 1 };
        assert(out[a] == rows[a0]);
        assert(out[b] == rows[b0]);
    }
    assert forall|a: int| 0 <= a < out.len() implies (#[trigger] out[a]).id < next_id && out[a].md5
        == md5_of(out[a].path) by {
        let a0 = if a < i { a } else { a + 1 };
        assert(out[a] == rows[a0]);
    }
}

/// Inserting a fresh row at its recency position keeps an index table
/// well-formed.
pub proof fn lemma_idx_wf_insert_at(rows: Seq<IdxModel>, next_id: u64, r: IdxModel, p: int)
    requires
        idx_rows_wf(rows, next_id),
        0 <= p <= rows.len(),
        r.id < next_id,
        r.md5 == md5_of(r.path),
        forall|k: int| 0 <= k < rows.len() ==> (#[trigger] rows[k]).id != r.id,
        forall|k: int| 0 <= k < rows.len() ==> (#[trigger] rows[k]).path != r.path,
        forall|k: int| 0 <= k < p ==> !idx_more_recent(r, #[trigger] rows[k]),
        p == rows.len() || idx_more_recent(r, rows[p as int]),
    ensures
        idx_rows_wf(rows.insert(p, r), next_id),
{
    let out = rows.insert(p, r);
    assert forall|a: int| 0 <= a < out.len() implies (#[trigger] out[a]).id < next_id && out[a].md5
        == md5_of(out[a].path) by {
        if a < p {
            assert(out[a] == rows[a]);
        } else if a == p {
            assert(out[a] == r);
        } else {
            assert(out[a] == rows[a - 1]);
        }
    }
    assert forall|a: int, b: int| 0 <= a < b < out.len() implies idx_more_recent(
        #[trigger] out[a],
        #[trigger] out[b],
    ) && out[a].id != out[b].id && out[a].path != out[b].path by {
        if a < p && b < p {
            assert(out[a] == rows[a] && out[b] == rows[b]);
        } else if a < p && b == p {
            assert(out[a] == rows[a] && out[b] == r);
            assert(!idx_more_recent(r, rows[a]));
            assert(rows[a].id != r.id);
            assert(idx_more_recent(rows[a], r));
        } else if a < p && b > p {
            assert(out[a] == rows[a] && out[b] == rows[b - 1]);
        } else if a == p {
            assert(out[a] == r && out[b] == rows[b - 1]);
            assert(b - 1 >= p);
            if b - 1 > p {
                assert(idx_more_recent(rows[p as int], rows[b - 1]));
            }
        } else {
            assert(out[a] == rows[a - 1] && out[b] == rows[b - 1]);
        }
    }
}

/// Where the first path lookup stops.
pub proof fn lemma_idx_find_path_is(rows: Seq<IdxModel>, path: Seq<char>, p: int)
    requires
        0 <= p <= rows.len(),
        forall|k: int| 0 <= k < p ==> (#[trigger] rows[k]).path != path,
        p == rows.len() || rows[p as int].path == path,
    ensures
        idx_find_path(rows, path) == if p == rows.len() {
            Option::<int>::None
        } else {
            Option::<int>::Some(p)
        },
    decreases rows.len(),
{
    if rows.len() == 0 {
    } else if rows[0].path == path {
        assert(p == 0);
    } else {
        assert(p >= 1);
        lemma_idx_find_path_is(rows.drop_first(), path, p - 1);
    }
}

/// A found path index indeed carries the path, and nothing before it does.
pub proof fn lemma_idx_find_path_found(rows: Seq<IdxModel>, path: Seq<char>)
    ensures
        match idx_find_path(rows, path) {
            Some(i) => 0 <= i < rows.len() && rows[i].path == path,
            None => forall|k: int| 0 <= k < rows.len() ==> (#[trigger] rows[k]).path != path,
        },
    decreases rows.len(),
{
    if rows.len() == 0 {
    } else if rows[0].path == path {
    } else {
        let rest = rows.drop_first();
        lemma_idx_find_path_found(rest, path);
        match idx_find_path(rest, path) {
            Some(i) => {
                assert(rows[i + 1] == rest[i]);
            },
            None => {
                assert forall|k: int| 0 <= k < rows.len() implies (#[trigger] rows[k]).path
                    != path by {
                    if k > 0 {
                        assert(rest[k - 1] == rows[k]);
                    }
                }
            },
        }
    }
}

/// Where the first fingerprint lookup stops.
pub proof fn lemma_idx_find_md5_is(rows: Seq<IdxModel>, md5: Seq<char>, p: int)
    requires
        0 <= p <= rows.len(),
        forall|k: int| 0 <= k < p ==> (#[trigger] rows[k]).md5 != md5,
        p == rows.len() || rows[p as int].md5 == md5,
    ensures
        idx_find_md5(rows, md5) == if p == rows.len() {
            Option::<int>::None
        } else {
            Option::<int>::Some(p)
        },
    decreases rows.len(),
{
    if rows.len() == 0 {
    } else if rows[0].md5 == md5 {
        assert(p == 0);
    } else {
        assert(p >= 1);
        lemma_idx_find_md5_is(rows.drop_first(), md5, p - 1);
    }
}

/// A found fingerprint index indeed carries it.
pub proof fn lemma_idx_find_md5_found(rows: Seq<IdxModel>, md5: Seq<char>)
    ensures
        match idx_find_md5(rows, md5) {
            Some(i) => 0 <= i < rows.len() && rows[i].md5 == md5,
            None => forall|k: int| 0 <= k < rows.len() ==> (#[trigger] rows[k]).md5 != md5,
        },
    decreases rows.len(),
{
    if rows.len() == 0 {
    } else if rows[0].md5 == md5 {
    } else {
        let rest = rows.drop_first();
        lemma_idx_find_md5_found(rest, md5);
        match idx_find_md5(rest, md5) {
            Some(i) => {
                assert(rows[i + 1] == rest[i]);
            },
            None => {
                assert forall|k: int| 0 <= k < rows.len() implies (#[trigger] rows[k]).md5
                    != md5 by {
                    if k > 0 {
                        assert(rest[k - 1] == rows[k]);
                    }
                }
            },
        }
    }
}

// ---------------------------------------------------------------------------
// Transitions of the index tables.
// ---------------------------------------------------------------------------

/// An index row after a repeat sighting: only its timestamp moves.
pub open spec fn idx_touched(m: IdxModel, now: u64) -> IdxModel {
    IdxModel { create_time: now, ..m }
}

/// The row a file entry stores: no icon and no romanisation.
pub open spec fn idx_new_file_row(id: u64, r: FileIndex, now: u64) -> IdxModel {
    IdxModel {
        id,
        title: r.title@,
        path: r.path@,
        desc: r.desc@,
        icon: Seq::empty(),
        pinyin: Seq::empty(),
        abb: Seq::empty(),
        file_type: r.file_type@,
        md5: md5_of(r.path@),
        create_time: now,
    }
}

/// The row an application entry stores: icon and romanisation kept, typed
/// as an application.
pub open spec fn idx_new_app_row(id: u64, r: FileIndex, now: u64) -> IdxModel {
    IdxModel {
        id,
        title: r.title@,
        path: r.path@,
        desc: r.desc@,
        icon: r.icon@,
        pinyin: r.pinyin@,
        abb: r.abb@,
        file_type: "app"@,
        md5: md5_of(r.path@),
        create_time: now,
    }
}

/// What storing one entry does to a table: a row with the same path already
/// there leaves it unchanged; otherwise the new row is placed by recency.
pub open spec fn spec_idx_insert(
    rows: Seq<IdxModel>,
    next_id: u64,
    row: IdxModel,
) -> (Seq<IdxModel>, u64) {
    if idx_find_path(rows, row.path) is Some {
        (rows, next_id)
    } else {
        (idx_sorted_insert(rows, row), (next_id + 1) as u64)
    }
}



/// What a repeat sighting does to a table: the row with the entry's path
/// fingerprint is touched to the new timestamp, otherwise the entry is
/// stored.
pub open spec fn spec_idx_insert_if_not_exist(
    rows: Seq<IdxModel>,
    next_id: u64,
    row: IdxModel,
    now: u64,
) -> (Seq<IdxModel>, u64) {
    match idx_find_md5(rows, row.md5) {
        Some(i) => (idx_sorted_insert(rows.remove(i), idx_touched(rows[i], now)), next_id),
        None => spec_idx_insert(rows, next_id, row),
    }
}

/// Storing a list of entries, in order, skipping those whose path is
/// already present.
pub open spec fn spec_idx_insert_all(
    rows: Seq<IdxModel>,
    next_id: u64,
    items: Seq<FileIndex>,
    app: bool,
    now: u64,
) -> (Seq<IdxModel>, u64)
    decreases items.len(),
{
    if items.len() == 0 {
        (rows, next_id)
    } else {
        let prev = spec_idx_insert_all(rows, next_id, items.drop_last(), app, now);
        let row = if app {
            idx_new_app_row(prev.1, items.last(), now)
        } else {
            idx_new_file_row(prev.1, items.last(), now)
        };
        spec_idx_insert(prev.0, prev.1, row)
    }
}

/// Whether an entry answers the application search: its title, pinyin or
/// abbreviation begins with the keyword, or its path points into an
/// Applications directory named by it (all with ASCII letters folded).
pub open spec fn spec_app_path_matches(path: Seq<char>, kw: Seq<char>) -> bool {
    let lp = crate::string_factory::spec_lower(path);
    crate::string_factory::spec_ends_with(lp, ".app"@) && crate::string_factory::spec_contains(
        lp.take(lp.len() - 4),
        crate::string_factory::spec_lower("/Applications/"@) + crate::string_factory::spec_lower(
            kw,
        ),
    )
}

/// The application-search predicate.
pub open spec fn idx_matches_app(m: IdxModel, kw: Seq<char>) -> bool {
    ||| crate::string_factory::spec_starts_with(
        crate::string_factory::spec_lower(m.title),
        crate::string_factory::spec_lower(kw),
    )
    ||| crate::string_factory::spec_starts_with(
        crate::string_factory::spec_lower(m.pinyin),
        crate::string_factory::spec_lower(kw),
    )
    ||| crate::string_factory::spec_starts_with(
        crate::string_factory::spec_lower(m.abb),
        crate::string_factory::spec_lower(kw),
    )
    ||| spec_app_path_matches(m.path, kw)
}

/// The title-search predicate: the keyword occurs in the title, with ASCII
/// letters folded.
pub open spec fn idx_matches_kw(m: IdxModel, kw: Seq<char>) -> bool {
    crate::string_factory::spec_contains(
        crate::string_factory::spec_lower(m.title),
        crate::string_factory::spec_lower(kw),
    )
}

/// The rows the application search keeps, in their stored order.
pub open spec fn spec_app_filter(rows: Seq<IdxModel>, kw: Seq<char>) -> Seq<IdxModel>
    decreases rows.len(),
{
    if rows.len() == 0 {
        Seq::empty()
    } else {
        let rest = spec_app_filter(rows.drop_last(), kw);
        if idx_matches_app(rows.last(), kw) {
            rest.push(rows.last())
        } else {
            rest
        }
    }
}

/// The rows the title search keeps, in their stored order.
pub open spec fn spec_idx_kw_filter(rows: Seq<IdxModel>, kw: Seq<char>) -> Seq<IdxModel>
    decreases rows.len(),
{
    if rows.len() == 0 {
        Seq::empty()
    } else {
        let rest = spec_idx_kw_filter(rows.drop_last(), kw);
        if idx_matches_kw(rows.last(), kw) {
            rest.push(rows.last())
        } else {
            rest
        }
    }
}

/// An application-search listing row: id, title, path, description and
/// icon, typed as an application.
pub open spec fn idx_app_listing(m: IdxModel) -> IdxModel {
    IdxModel {
        pinyin: Seq::empty(),
        abb: Seq::empty(),
        md5: Seq::empty(),
        create_time: 0,
        file_type: "app"@,
        ..m
    }
}

/// A title-search listing row: id, title, path, description, icon and type.
pub open spec fn idx_kw_listing(m: IdxModel) -> IdxModel {
    IdxModel { pinyin: Seq::empty(), abb: Seq::empty(), md5: Seq::empty(), create_time: 0, ..m }
}

/// A point-lookup listing row: id, title, path and type.
pub open spec fn idx_id_listing(m: IdxModel) -> IdxModel {
    IdxModel {
        desc: Seq::empty(),
        icon: Seq::empty(),
        pinyin: Seq::empty(),
        abb: Seq::empty(),
        md5: Seq::empty(),
        create_time: 0,
        ..m
    }
}

/// The position of the first entry with the given path, if any.
fn idx_find_index_by_path(rows: &Vec<FileIndex>, path: &str) -> (r: Option<usize>)
    ensures
        match r {
            Some(i) => idx_find_path(idx_models(rows@), path@) == Some(i as int),
            None => idx_find_path(idx_models(rows@), path@) is None,
        },
{
    let n = rows.len();
    let mut i: usize = 0;
    while i < n
        invariant
            i <= n,
            n == rows@.len(),
            forall|k: int| 0 <= k < i ==> (#[trigger] idx_models(rows@)[k]).path != path@,
        decreases n - i,
    {
        assert(idx_models(rows@)[i as int] == rows@[i as int].model());
        if crate::string_factory::str_eq(rows[i].path.as_str(), path) {
            proof {
                lemma_idx_find_path_is(idx_models(rows@), path@, i as int);
            }
            return Some(i);
        }
        i += 1;
    }
    proof {
        lemma_idx_find_path_is(idx_models(rows@), path@, n as int);
    }
    None
}

/// The position of the first entry with the given fingerprint, if any.
fn idx_find_index_by_md5(rows: &Vec<FileIndex>, md5: &String) -> (r: Option<usize>)
    ensures
        match r {
            Some(i) => idx_find_md5(idx_models(rows@), md5@) == Some(i as int),
            None => idx_find_md5(idx_models(rows@), md5@) is None,
        },
{
    let n = rows.len();
    let mut i: usize = 0;
    while i < n
        invariant
            i <= n,
            n == rows@.len(),
            forall|k: int| 0 <= k < i ==> (#[trigger] idx_models(rows@)[k]).md5 != md5@,
        decreases n - i,
    {
        assert(idx_models(rows@)[i as int] == rows@[i as int].model());
        if crate::string_factory::str_eq(rows[i].md5.as_str(), md5.as_str()) {
            proof {
                lemma_idx_find_md5_is(idx_models(rows@), md5@, i as int);
            }
            return Some(i);
        }
        i += 1;
    }
    proof {
        lemma_idx_find_md5_is(idx_models(rows@), md5@, n as int);
    }
    None
}

/// Place an index row at its recency position.
fn idx_insert_row_sorted(rows: &mut Vec<FileIndex>, rec: FileIndex, Ghost(next_id): Ghost<u64>)
    requires
        idx_rows_wf(idx_models(old(rows)@), next_id),
        rec.model().id < next_id,
        rec.model().md5 == md5_of(rec.model().path),
        forall|k: int|
            0 <= k < old(rows)@.len() ==> (#[trigger] idx_models(old(rows)@)[k]).id
                != rec.model().id,
        forall|k: int|
            0 <= k < old(rows)@.len() ==> (#[trigger] idx_models(old(rows)@)[k]).path
                != rec.model().path,
    ensures
        idx_models(final(rows)@) =~= idx_sorted_insert(idx_models(old(rows)@), rec.model()),
        idx_rows_wf(idx_models(final(rows)@), next_id),
{
    let n = rows.len();
    let mut p: usize = 0;
    while p < n && !(rec.create_time > rows[p].create_time || (rec.create_time
        == rows[p].create_time && rec.id > rows[p].id))
        invariant
            p <= n,
            n == rows@.len(),
            rows == old(rows),
            forall|k: int|
                0 <= k < p ==> !idx_more_recent(rec.model(), #[trigger] idx_models(rows@)[k]),
        decreases n - p,
    {
        proof {
            assert(idx_models(rows@)[p as int] == rows@[p as int].model());
        }
        p += 1;
    }
    proof {
        assert(p < n ==> idx_models(rows@)[p as int] == rows@[p as int].model());
        lemma_idx_sorted_insert_at(idx_models(old(rows)@), rec.model(), p as int);
        lemma_idx_wf_insert_at(idx_models(old(rows)@), next_id, rec.model(), p as int);
    }
    rows.insert(p, rec);
    proof {
        assert(idx_models(rows@) =~= idx_models(old(rows)@).insert(p as int, rec.model()));
    }
}

/// Store one entry into a table held as a vector with its id counter.
fn idx_table_insert(
    rows: &mut Vec<FileIndex>,
    next: &mut u64,
    r: &FileIndex,
    app: bool,
    now: u64,
) -> (id: u64)
    requires
        idx_rows_wf(idx_models(old(rows)@), *old(next)),
        *old(next) < u64::MAX,
    ensures
        idx_rows_wf(idx_models(final(rows)@), *final(next)),
        ({
            let row = if app {
                idx_new_app_row(*old(next), *r, now)
            } else {
                idx_new_file_row(*old(next), *r, now)
            };
            let stepped = spec_idx_insert(idx_models(old(rows)@), *old(next), row);
            idx_models(final(rows)@) =~= stepped.0 && *final(next) == stepped.1 && id == (
            if idx_find_path(idx_models(old(rows)@), r.path@) is Some {
                0
            } else {
                *old(next)
            })
        }),
{
    match idx_find_index_by_path(rows, r.path.as_str()) {
        Some(_) => 0,
        None => {
            proof {
                lemma_idx_find_path_found(idx_models(rows@), r.path@);
            }
            let md5v = crate::string_factory::md5(r.path.as_str());
            let id = *next;
            let rec = if app {
                FileIndex {
                    id,
                    title: r.title.clone(),
                    path: r.path.clone(),
                    desc: r.desc.clone(),
                    icon: r.icon.clone(),
                    pinyin: r.pinyin.clone(),
                    abb: r.abb.clone(),
                    file_type: "app".to_owned(),
                    md5: md5v,
                    create_time: now,
                }
            } else {
                FileIndex {
                    id,
                    title: r.title.clone(),
                    path: r.path.clone(),
                    desc: r.desc.clone(),
                    icon: String::new(),
                    pinyin: String::new(),
                    abb: String::new(),
                    file_type: r.file_type.clone(),
                    md5: md5v,
                    create_time: now,
                }
            };
            proof {
                if app {
                    assert(rec.model() == idx_new_app_row(*old(next), *r, now));
                } else {
                    assert(rec.model() == idx_new_file_row(*old(next), *r, now));
                }
                assert forall|k: int| 0 <= k < rows@.len() implies (#[trigger] idx_models(
                    rows@,
                )[k]).id != rec.model().id by {
                    assert(idx_models(rows@)[k] == rows@[k].model());
                }
            }
            *next = *next + 1;
            idx_insert_row_sorted(rows, rec, Ghost(*next));
            id
        },
    }
}

/// The application/file search index: one table of applications and one of
/// files, each held in recency order.
pub struct IndexSQL {
    app_rows: Vec<FileIndex>,
    file_rows: Vec<FileIndex>,
    next_app_id: u64,
    next_file_id: u64,
}

impl IndexSQL {
    /// The rows of the application table.
    pub closed spec fn app_view(&self) -> Seq<IdxModel> {
        idx_models(self.app_rows@)
    }

    /// The rows of the file table.
    pub closed spec fn file_view(&self) -> Seq<IdxModel> {
        idx_models(self.file_rows@)
    }

    /// The rows of the addressed table.
    pub open spec fn table_view(&self, t: IndexTable) -> Seq<IdxModel> {
        match t {
            IndexTable::App => self.app_view(),
            IndexTable::File => self.file_view(),
        }
    }

    /// The id the next fresh row of the addressed table will take.
    pub closed spec fn spec_next_id(&self, t: IndexTable) -> u64 {
        match t {
            IndexTable::App => self.next_app_id,
            IndexTable::File => self.next_file_id,
        }
    }

    /// The index's invariant.
    pub open spec fn wf(&self) -> bool {
        idx_rows_wf(self.app_view(), self.spec_next_id(IndexTable::App)) && idx_rows_wf(
            self.file_view(),
            self.spec_next_id(IndexTable::File),
        )
    }

    /// An empty index.
    pub fn new() -> (r: Self)
        ensures
            r.wf(),
            r.app_view() =~= Seq::<IdxModel>::empty(),
            r.file_view() =~= Seq::<IdxModel>::empty(),
            r.spec_next_id(IndexTable::App) == 1,
            r.spec_next_id(IndexTable::File) == 1,
    {
        let r = IndexSQL {
            app_rows: Vec::new(),
            file_rows: Vec::new(),
            next_app_id: 1,
            next_file_id: 1,
        };
        proof {
            assert(r.app_view() =~= Seq::<IdxModel>::empty());
            assert(r.file_view() =~= Seq::<IdxModel>::empty());
        }
        r
    }

    /// The id the next fresh file-table row will take; callers check its
    /// headroom before a bulk insert.
    pub fn next_file_id(&self) -> (n: u64)
        ensures
            n == self.spec_next_id(IndexTable::File),
    {
        self.next_file_id
    }

    /// Store one file entry; a path already indexed is left alone. Returns
    /// the id of the new row, or zero when the path was already there.
    pub fn insert_file_index(&mut self, r: &FileIndex, now: u64) -> (id: u64)
        requires
            old(self).wf(),
            old(self).spec_next_id(IndexTable::File) < u64::MAX,
        ensures
            final(self).wf(),
            final(self).app_view() =~= old(self).app_view(),
            final(self).spec_next_id(IndexTable::App) == old(self).spec_next_id(IndexTable::App),
            ({
                let row = idx_new_file_row(old(self).spec_next_id(IndexTable::File), *r, now);
                let stepped = spec_idx_insert(
                    old(self).file_view(),
                    old(self).spec_next_id(IndexTable::File),
                    row,
                );
                final(self).file_view() =~= stepped.0 && final(self).spec_next_id(IndexTable::File)
                    == stepped.1
            }),
    {
        idx_table_insert(&mut self.file_rows, &mut self.next_file_id, r, false, now)
    }

    /// Store one application entry; a path already indexed is left alone.
    pub fn insert_app_index(&mut self, r: &FileIndex, now: u64) -> (id: u64)
        requires
            old(self).wf(),
            old(self).spec_next_id(IndexTable::App) < u64::MAX,
        ensures
            final(self).wf(),
            final(self).file_view() =~= old(self).file_view(),
            final(self).spec_next_id(IndexTable::File) == old(self).spec_next_id(IndexTable::File),
            ({
                let row = idx_new_app_row(old(self).spec_next_id(IndexTable::App), *r, now);
                let stepped = spec_idx_insert(
                    old(self).app_view(),
                    old(self).spec_next_id(IndexTable::App),
                    row,
                );
                final(self).app_view() =~= stepped.0 && final(self).spec_next_id(IndexTable::App)
                    == stepped.1
            }),
    {
        idx_table_insert(&mut self.app_rows, &mut self.next_app_id, r, true, now)
    }

    /// Store a batch of file entries, in order, skipping paths already
    /// indexed.
    pub fn insert_file_indexes(&mut self, paths: Vec<FileIndex>, now: u64)
        requires
            old(self).wf(),
            old(self).spec_next_id(IndexTable::File) + paths@.len() < u64::MAX,
        ensures
            final(self).wf(),
            final(self).app_view() =~= old(self).app_view(),
            final(self).spec_next_id(IndexTable::App) == old(self).spec_next_id(IndexTable::App),
            ({
                let stepped = spec_idx_insert_all(
                    old(self).file_view(),
                    old(self).spec_next_id(IndexTable::File),
                    paths@,
                    false,
                    now,
                );
                final(self).file_view() =~= stepped.0 && final(self).spec_next_id(IndexTable::File)
                    == stepped.1
            }),
    {
        let n = paths.len();
        let mut i: usize = 0;
        while i < n
            invariant
                i <= n,
                n == paths@.len(),
                self.wf(),
                self.app_view() =~= old(self).app_view(),
                self.spec_next_id(IndexTable::App) == old(self).spec_next_id(IndexTable::App),
                self.spec_next_id(IndexTable::File) <= old(self).spec_next_id(IndexTable::File)
                    + i,
                old(self).spec_next_id(IndexTable::File) + paths@.len() < u64::MAX,
                ({
                    let stepped = spec_idx_insert_all(
                        old(self).file_view(),
                        old(self).spec_next_id(IndexTable::File),
                        paths@.take(i as int),
                        false,
                        now,
                    );
                    self.file_view() =~= stepped.0 && self.spec_next_id(IndexTable::File)
                        == stepped.1
                }),
            decreases n - i,
        {
            proof {
                assert(paths@.take(i + 1).drop_last() =~= paths@.take(i as int));
                assert(paths@.take(i + 1).last() == paths@[i as int]);
            }
            self.insert_file_index(&paths[i], now);
            i += 1;
        }
        proof {
            assert(paths@.take(n as int) =~= paths@);
        }
    }

    /// Store a batch of application entries, in order, skipping paths
    /// already indexed.
    pub fn insert_app_indexes(&mut self, paths: Vec<FileIndex>, now: u64)
        requires
            old(self).wf(),
            old(self).spec_next_id(IndexTable::App) + paths@.len() < u64::MAX,
        ensures
            final(self).wf(),
            final(self).file_view() =~= old(self).file_view(),
            final(self).spec_next_id(IndexTable::File) == old(self).spec_next_id(IndexTable::File),
            ({
                let stepped = spec_idx_insert_all(
                    old(self).app_view(),
                    old(self).spec_next_id(IndexTable::App),
                    paths@,
                    true,
                    now,
                );
                final(self).app_view() =~= stepped.0 && final(self).spec_next_id(IndexTable::App)
                    == stepped.1
            }),
    {
        let n = paths.len();
        let mut i: usize = 0;
        while i < n
            invariant
                i <= n,
                n == paths@.len(),
                self.wf(),
                self.file_view() =~= old(self).file_view(),
                self.spec_next_id(IndexTable::File) == old(self).spec_next_id(IndexTable::File),
                self.spec_next_id(IndexTable::App) <= old(self).spec_next_id(IndexTable::App) + i,
                old(self).spec_next_id(IndexTable::App) + paths@.len() < u64::MAX,
                ({
                    let stepped = spec_idx_insert_all(
                        old(self).app_view(),
                        old(self).spec_next_id(IndexTable::App),
                        paths@.take(i as int),
                        true,
                        now,
                    );
                    self.app_view() =~= stepped.0 && self.spec_next_id(IndexTable::App)
                        == stepped.1
                }),
            decreases n - i,
        {
            proof {
                assert(paths@.take(i + 1).drop_last() =~= paths@.take(i as int));
                assert(paths@.take(i + 1).last() == paths@[i as int]);
            }
            self.insert_app_index(&paths[i], now);
            i += 1;
        }
        proof {
            assert(paths@.take(n as int) =~= paths@);
        }
    }
}


/// Refresh the timestamp of the table row at a known position and re-rank
/// it.
fn idx_touch_row(rows: &mut Vec<FileIndex>, i: usize, now: u64, Ghost(next_id): Ghost<u64>)
    requires
        idx_rows_wf(idx_models(old(rows)@), next_id),
        i < old(rows)@.len(),
    ensures
        idx_rows_wf(idx_models(final(rows)@), next_id),
        idx_models(final(rows)@) =~= idx_sorted_insert(
            idx_models(old(rows)@).remove(i as int),
            idx_touched(idx_models(old(rows)@)[i as int], now),
        ),
{
    let mut rec = rows.remove(i);
    proof {
        assert(idx_models(rows@) =~= idx_models(old(rows)@).remove(i as int));
        lemma_idx_wf_remove(idx_models(old(rows)@), next_id, i as int);
    }
    rec.create_time = now;
    proof {
        assert(rec.model() == idx_touched(idx_models(old(rows)@)[i as int], now));
        assert forall|k: int| 0 <= k < rows@.len() implies (#[trigger] idx_models(rows@)[k]).id
            != rec.model().id by {
            let k0 = if k < i { k } else { k + 1 };
            assert(idx_models(rows@)[k] == idx_models(old(rows)@)[k0]);
        }
        assert forall|k: int| 0 <= k < rows@.len() implies (#[trigger] idx_models(rows@)[k]).path
            != rec.model().path by {
            let k0 = if k < i { k } else { k + 1 };
            assert(idx_models(rows@)[k] == idx_models(old(rows)@)[k0]);
        }
    }
    idx_insert_row_sorted(rows, rec, Ghost(next_id));
}

impl IndexSQL {
    /// Record a sighting of an entry in the addressed table: the row already
    /// fingerprinting the entry's path is touched to the new timestamp;
    /// otherwise the entry is stored.
    pub fn insert_if_not_exist(&mut self, table: IndexTable, r: &FileIndex, now: u64)
        requires
            old(self).wf(),
            old(self).spec_next_id(table) < u64::MAX,
        ensures
            final(self).wf(),
            ({
                let row = match table {
                    IndexTable::App => idx_new_app_row(old(self).spec_next_id(table), *r, now),
                    IndexTable::File => idx_new_file_row(old(self).spec_next_id(table), *r, now),
                };
                let stepped = spec_idx_insert_if_not_exist(
                    old(self).table_view(table),
                    old(self).spec_next_id(table),
                    row,
                    now,
                );
                final(self).table_view(table) =~= stepped.0 && final(self).spec_next_id(table)
                    == stepped.1
            }),
            ({
                let other = match table {
                    IndexTable::App => IndexTable::File,
                    IndexTable::File => IndexTable::App,
                };
                final(self).table_view(other) =~= old(self).table_view(other)
                    && final(self).spec_next_id(other) == old(self).spec_next_id(other)
            }),
    {
        let md5v = crate::string_factory::md5(r.path.as_str());
        match table {
            IndexTable::App => {
                match idx_find_index_by_md5(&self.app_rows, &md5v) {
                    Some(i) => {
                        proof {
                            lemma_idx_find_md5_found(self.app_view(), md5v@);
                        }
                        idx_touch_row(&mut self.app_rows, i, now, Ghost(self.next_app_id));
                    },
                    None => {
                        proof {
                            lemma_idx_find_md5_found(self.app_view(), md5_of(r.path@));
                            assert forall|k: int|
                                0 <= k < self.app_view().len() implies (
                            #[trigger] self.app_view()[k]).path != r.path@ by {
                                assert(self.app_view()[k].md5 == md5_of(self.app_view()[k].path));
                            }
                            lemma_idx_find_path_is(self.app_view(), r.path@, self.app_view().len() as int);
                        }
                        idx_table_insert(&mut self.app_rows, &mut self.next_app_id, r, true, now);
                    },
                }
            },
            IndexTable::File => {
                match idx_find_index_by_md5(&self.file_rows, &md5v) {
                    Some(i) => {
                        proof {
                            lemma_idx_find_md5_found(self.file_view(), md5v@);
                        }
                        idx_touch_row(&mut self.file_rows, i, now, Ghost(self.next_file_id));
                    },
                    None => {
                        proof {
                            lemma_idx_find_md5_found(self.file_view(), md5_of(r.path@));
                            assert forall|k: int|
                                0 <= k < self.file_view().len() implies (
                            #[trigger] self.file_view()[k]).path != r.path@ by {
                                assert(self.file_view()[k].md5 == md5_of(self.file_view()[k].path));
                            }
                            lemma_idx_find_path_is(self.file_view(), r.path@, self.file_view().len() as int);
                        }
                        idx_table_insert(
                            &mut self.file_rows,
                            &mut self.next_file_id,
                            r,
                            false,
                            now,
                        );
                    },
                }
            },
        }
    }

    /// Whether one entry answers the application search for `kw`.
    fn row_matches_app(r: &FileIndex, kw: &str) -> (b: bool)
        ensures
            b == idx_matches_app(r.model(), kw@),
    {
        let kw_low = crate::string_factory::lower_str(kw);
        let title_low = crate::string_factory::lower_str(r.title.as_str());
        if crate::string_factory::starts_with_str(title_low.as_str(), kw_low.as_str()) {
            return true;
        }
        let pinyin_low = crate::string_factory::lower_str(r.pinyin.as_str());
        if crate::string_factory::starts_with_str(pinyin_low.as_str(), kw_low.as_str()) {
            return true;
        }
        let abb_low = crate::string_factory::lower_str(r.abb.as_str());
        if crate::string_factory::starts_with_str(abb_low.as_str(), kw_low.as_str()) {
            return true;
        }
        let path_low = crate::string_factory::lower_str(r.path.as_str());
        let n = path_low.unicode_len();
        if !crate::string_factory::ends_with_str(path_low.as_str(), ".app") {
            return false;
        }
        proof {
            reveal_strlit(".app");
            assert(n >= 4);
        }
        let mut pat = String::new();
        pat.append("/Applications/");
        pat.append(kw);
        let pat_low = crate::string_factory::lower_str(pat.as_str());
        proof {
            assert(pat_low@ =~= crate::string_factory::spec_lower("/Applications/"@)
                + crate::string_factory::spec_lower(kw@));
        }
        let head = path_low.as_str().substring_char(0, n - 4);
        proof {
            assert(head@ =~= crate::string_factory::spec_lower(r.path@).take(
                crate::string_factory::spec_lower(r.path@).len() - 4,
            ));
        }
        crate::string_factory::contains_str(head, pat_low.as_str())
    }

    /// The application-listing form of one stored row.
    fn app_listing_record(r: &FileIndex) -> (out: FileIndex)
        ensures
            out.model() == idx_app_listing(r.model()),
    {
        FileIndex {
            id: r.id,
            title: r.title.clone(),
            path: r.path.clone(),
            desc: r.desc.clone(),
            icon: r.icon.clone(),
            pinyin: String::new(),
            abb: String::new(),
            file_type: "app".to_owned(),
            md5: String::new(),
            create_time: 0,
        }
    }

    /// The title-search listing form of one stored row.
    fn kw_listing_record(r: &FileIndex) -> (out: FileIndex)
        ensures
            out.model() == idx_kw_listing(r.model()),
    {
        FileIndex {
            id: r.id,
            title: r.title.clone(),
            path: r.path.clone(),
            desc: r.desc.clone(),
            icon: r.icon.clone(),
            pinyin: String::new(),
            abb: String::new(),
            file_type: r.file_type.clone(),
            md5: String::new(),
            create_time: 0,
        }
    }

    /// Application search: the newest applications whose title, pinyin,
    /// abbreviation or Applications path answers the keyword, thirty to a
    /// page.
    pub fn find_app(&self, keyword: &str, offset: i32) -> (res: Vec<FileIndex>)
        requires
            0 <= offset,
        ensures
            ({
                let f = spec_app_filter(self.app_view(), keyword@);
                let start = if offset as int <= f.len() {
                    offset as int
                } else {
                    f.len() as int
                };
                let end = if offset as int + 30 <= f.len() {
                    offset as int + 30
                } else {
                    f.len() as int
                };
                res@.len() == end - start && forall|k: int|
                    0 <= k < res@.len() ==> (#[trigger] res@[k]).model() == idx_app_listing(
                        f[start + k],
                    )
            }),
    {
        let n = self.app_rows.len();
        let mut matched: Vec<FileIndex> = Vec::new();
        let mut i: usize = 0;
        while i < n
            invariant
                i <= n,
                n == self.app_rows@.len(),
                self.app_view().len() == self.app_rows@.len(),
                matched@.len() == spec_app_filter(self.app_view().take(i as int), keyword@).len(),
                forall|k: int|
                    0 <= k < matched@.len() ==> (#[trigger] matched@[k]).model()
                        == idx_app_listing(
                        spec_app_filter(self.app_view().take(i as int), keyword@)[k],
                    ),
            decreases n - i,
        {
            assert(self.app_view()[i as int] == self.app_rows@[i as int].model());
            let ghost f0 = spec_app_filter(self.app_view().take(i as int), keyword@);
            let ghost m = self.app_view()[i as int];
            proof {
                assert(self.app_view().take(i + 1).drop_last() =~= self.app_view().take(i as int));
                assert(self.app_view().take(i + 1).last() == m);
            }
            let ghost f1 = spec_app_filter(self.app_view().take(i + 1), keyword@);
            if Self::row_matches_app(&self.app_rows[i], keyword) {
                assert(f1 == f0.push(m));
                let out = Self::app_listing_record(&self.app_rows[i]);
                matched.push(out);
                assert(forall|k: int| 0 <= k < f0.len() ==> f1[k] == f0[k]);
            } else {
                assert(f1 == f0);
            }
            i += 1;
        }
        proof {
            assert(self.app_view().take(n as int) =~= self.app_view());
        }
        let ghost f = spec_app_filter(self.app_view(), keyword@);
        let mlen = matched.len();
        let start: usize = if (offset as usize) <= mlen {
            offset as usize
        } else {
            mlen
        };
        let end: usize = if (offset as usize) + 30 <= mlen {
            (offset as usize) + 30
        } else {
            mlen
        };
        let mut res: Vec<FileIndex> = Vec::new();
        let mut j: usize = start;
        while j < end
            invariant
                start <= j <= end,
                end <= mlen,
                mlen == matched@.len(),
                mlen == f.len(),
                res@.len() == j - start,
                forall|k: int|
                    0 <= k < matched@.len() ==> (#[trigger] matched@[k]).model()
                        == idx_app_listing(f[k]),
                forall|k: int|
                    0 <= k < res@.len() ==> (#[trigger] res@[k]).model() == idx_app_listing(
                        f[start + k],
                    ),
            decreases end - j,
        {
            let out = Self::clone_index(&matched[j]);
            res.push(out);
            j += 1;
        }
        res
    }

    /// Copy one index entry, field by field.
    fn clone_index(r: &FileIndex) -> (out: FileIndex)
        ensures
            out.model() == r.model(),
    {
        FileIndex {
            id: r.id,
            title: r.title.clone(),
            path: r.path.clone(),
            desc: r.desc.clone(),
            icon: r.icon.clone(),
            pinyin: r.pinyin.clone(),
            abb: r.abb.clone(),
            file_type: r.file_type.clone(),
            md5: r.md5.clone(),
            create_time: r.create_time,
        }
    }

    /// The icon lookup behind listings: the first application row with
    /// exactly this title gives its id, title and icon; a miss gives the
    /// empty entry.
    pub fn find_app_icon(&self, app_name: &str) -> (res: FileIndex)
        ensures
            res.model() == spec_app_icon_row(self.app_view(), app_name@),
    {
        let n = self.app_rows.len();
        let mut i: usize = 0;
        while i < n
            invariant
                i <= n,
                n == self.app_rows@.len(),
                self.app_view().len() == self.app_rows@.len(),
                forall|k: int| 0 <= k < i ==> (#[trigger] self.app_view()[k]).title != app_name@,
            decreases n - i,
        {
            assert(self.app_view()[i as int] == self.app_rows@[i as int].model());
            if crate::string_factory::str_eq(self.app_rows[i].title.as_str(), app_name) {
                let r = &self.app_rows[i];
                let out = FileIndex {
                    id: r.id,
                    title: r.title.clone(),
                    path: String::new(),
                    desc: String::new(),
                    icon: r.icon.clone(),
                    pinyin: String::new(),
                    abb: String::new(),
                    file_type: String::new(),
                    md5: String::new(),
                    create_time: 0,
                };
                proof {
                    lemma_idx_first_title(self.app_view(), app_name@, i as int);
                }
                return out;
            }
            i += 1;
        }
        proof {
            lemma_idx_first_title(self.app_view(), app_name@, n as int);
        }
        FileIndex::default()
    }
}

/// The position of the first row with the given title.
pub open spec fn idx_find_title(rows: Seq<IdxModel>, title: Seq<char>) -> Option<int>
    decreases rows.len(),
{
    if rows.len() == 0 {
        None
    } else if rows[0].title == title {
        Some(0)
    } else {
        match idx_find_title(rows.drop_first(), title) {
            Some(i) => Some(i + 1),
            None => None,
        }
    }
}

/// What the icon lookup returns: the id, title and icon of the first row
/// with the title, or the empty entry.
pub open spec fn spec_app_icon_row(rows: Seq<IdxModel>, title: Seq<char>) -> IdxModel {
    match idx_find_title(rows, title) {
        Some(i) => IdxModel {
            id: rows[i].id,
            title: rows[i].title,
            icon: rows[i].icon,
            ..idx_empty_model()
        },
        None => idx_empty_model(),
    }
}

/// Where the first title lookup stops.
pub proof fn lemma_idx_first_title(rows: Seq<IdxModel>, title: Seq<char>, p: int)
    requires
        0 <= p <= rows.len(),
        forall|k: int| 0 <= k < p ==> (#[trigger] rows[k]).title != title,
        p == rows.len() || rows[p as int].title == title,
    ensures
        idx_find_title(rows, title) == if p == rows.len() {
            Option::<int>::None
        } else {
            Option::<int>::Some(p)
        },
    decreases rows.len(),
{
    if rows.len() == 0 {
    } else if rows[0].title == title {
        assert(p == 0);
    } else {
        assert(p >= 1);
        lemma_idx_first_title(rows.drop_first(), title, p - 1);
    }
}


impl IndexSQL {
    /// Point lookup by id in the addressed table: id, title, path and type
    /// of the one row with that id.
    pub fn find_by_id(&self, table: IndexTable, id: u64) -> (res: Option<FileIndex>)
        ensures
            match res {
                Some(out) => exists|i: int|
                    0 <= i < self.table_view(table).len() && (#[trigger] self.table_view(table)[
                    i]).id == id && out.model() == idx_id_listing(self.table_view(table)[i]),
                None => forall|i: int|
                    0 <= i < self.table_view(table).len() ==> (#[trigger] self.table_view(table)[
                    i]).id != id,
            },
    {
        let rows = match table {
            IndexTable::App => &self.app_rows,
            IndexTable::File => &self.file_rows,
        };
        let n = rows.len();
        let mut i: usize = 0;
        while i < n
            invariant
                i <= n,
                n == rows@.len(),
                rows@ == (match table {
                    IndexTable::App => self.app_rows@,
                    IndexTable::File => self.file_rows@,
                }),
                self.table_view(table) == idx_models(rows@),
                forall|k: int| 0 <= k < i ==> (#[trigger] idx_models(rows@)[k]).id != id,
            decreases n - i,
        {
            assert(idx_models(rows@)[i as int] == rows@[i as int].model());
            if rows[i].id == id {
                let r = &rows[i];
                let out = FileIndex {
                    id: r.id,
                    title: r.title.clone(),
                    path: r.path.clone(),
                    desc: String::new(),
                    icon: String::new(),
                    pinyin: String::new(),
                    abb: String::new(),
                    file_type: r.file_type.clone(),
                    md5: String::new(),
                    create_time: 0,
                };
                assert(out.model() == idx_id_listing(idx_models(rows@)[i as int]));
                return Some(out);
            }
            i += 1;
        }
        None
    }

    /// Title search in the addressed table: the newest rows whose title
    /// holds the keyword (ASCII letters folded), thirty to a page.
    pub fn find_by_keyword(&self, table: IndexTable, keyword: &str, offset: i32) -> (res: Vec<
        FileIndex,
    >)
        requires
            0 <= offset,
        ensures
            ({
                let f = spec_idx_kw_filter(self.table_view(table), keyword@);
                let start = if offset as int <= f.len() {
                    offset as int
                } else {
                    f.len() as int
                };
                let end = if offset as int + 30 <= f.len() {
                    offset as int + 30
                } else {
                    f.len() as int
                };
                res@.len() == end - start && forall|k: int|
                    0 <= k < res@.len() ==> (#[trigger] res@[k]).model() == idx_kw_listing(
                        f[start + k],
                    )
            }),
    {
        let rows = match table {
            IndexTable::App => &self.app_rows,
            IndexTable::File => &self.file_rows,
        };
        let kw_low = crate::string_factory::lower_str(keyword);
        let n = rows.len();
        let mut matched: Vec<FileIndex> = Vec::new();
        let mut i: usize = 0;
        while i < n
            invariant
                i <= n,
                n == rows@.len(),
                rows@ == (match table {
                    IndexTable::App => self.app_rows@,
                    IndexTable::File => self.file_rows@,
                }),
                self.table_view(table) == idx_models(rows@),
                kw_low@ == crate::string_factory::spec_lower(keyword@),
                matched@.len() == spec_idx_kw_filter(
                    idx_models(rows@).take(i as int),
                    keyword@,
                ).len(),
                forall|k: int|
                    0 <= k < matched@.len() ==> (#[trigger] matched@[k]).model()
                        == idx_kw_listing(
                        spec_idx_kw_filter(idx_models(rows@).take(i as int), keyword@)[k],
                    ),
            decreases n - i,
        {
            assert(idx_models(rows@)[i as int] == rows@[i as int].model());
            let ghost f0 = spec_idx_kw_filter(idx_models(rows@).take(i as int), keyword@);
            let ghost m = idx_models(rows@)[i as int];
            proof {
                assert(idx_models(rows@).take(i + 1).drop_last() =~= idx_models(rows@).take(
                    i as int,
                ));
                assert(idx_models(rows@).take(i + 1).last() == m);
            }
            let ghost f1 = spec_idx_kw_filter(idx_models(rows@).take(i + 1), keyword@);
            let title_low = crate::string_factory::lower_str(rows[i].title.as_str());
            if crate::string_factory::contains_str(title_low.as_str(), kw_low.as_str()) {
                assert(f1 == f0.push(m));
                let out = Self::kw_listing_record(&rows[i]);
                matched.push(out);
                assert(forall|k: int| 0 <= k < f0.len() ==> f1[k] == f0[k]);
            } else {
                assert(f1 == f0);
            }
            i += 1;
        }
        proof {
            assert(idx_models(rows@).take(n as int) =~= idx_models(rows@));
        }
        let ghost f = spec_idx_kw_filter(self.table_view(table), keyword@);
        let mlen = matched.len();
        let start: usize = if (offset as usize) <= mlen {
            offset as usize
        } else {
            mlen
        };
        let end: usize = if (offset as usize) + 30 <= mlen {
            (offset as usize) + 30
        } else {
            mlen
        };
        let mut res: Vec<FileIndex> = Vec::new();
        let mut j: usize = start;
        while j < end
            invariant
                start <= j <= end,
                end <= mlen,
                mlen == matched@.len(),
                mlen == f.len(),
                res@.len() == j - start,
                forall|k: int|
                    0 <= k < matched@.len() ==> (#[trigger] matched@[k]).model()
                        == idx_kw_listing(f[k]),
                forall|k: int|
                    0 <= k < res@.len() ==> (#[trigger] res@[k]).model() == idx_kw_listing(
                        f[start + k],
                    ),
            decreases end - j,
        {
            let out = Self::clone_index(&matched[j]);
            res.push(out);
            j += 1;
        }
        res
    }

    /// Remove the row with the given id from the addressed table, if it is
    /// there.
    pub fn delete_by_id(&mut self, table: IndexTable, id: u64)
        requires
            old(self).wf(),
        ensures
            final(self).wf(),
            ({
                let rows = old(self).table_view(table);
                match spec_idx_find_id(rows, id) {
                    Some(i) => final(self).table_view(table) =~= rows.remove(i),
                    None => final(self).table_view(table) =~= rows,
                }
            }),
            final(self).spec_next_id(table) == old(self).spec_next_id(table),
            ({
                let other = match table {
                    IndexTable::App => IndexTable::File,
                    IndexTable::File => IndexTable::App,
                };
                final(self).table_view(other) =~= old(self).table_view(other)
                    && final(self).spec_next_id(other) == old(self).spec_next_id(other)
            }),
    {
        match table {
            IndexTable::App => {
                let pos = idx_find_index_by_id(&self.app_rows, id);
                if let Some(i) = pos {
                    proof {
                        lemma_idx_find_id_found(self.app_view(), id);
                        lemma_idx_wf_remove(
                            self.app_view(),
                            self.next_app_id,
                            i as int,
                        );
                    }
                    self.app_rows.remove(i);
                    proof {
                        assert(self.app_view() =~= old(self).app_view().remove(
                            spec_idx_find_id(old(self).app_view(), id)->Some_0,
                        ));
                    }
                }
            },
            IndexTable::File => {
                let pos = idx_find_index_by_id(&self.file_rows, id);
                if let Some(i) = pos {
                    proof {
                        lemma_idx_find_id_found(self.file_view(), id);
                        lemma_idx_wf_remove(
                            self.file_view(),
                            self.next_file_id,
                            i as int,
                        );
                    }
                    self.file_rows.remove(i);
                    proof {
                        assert(self.file_view() =~= old(self).file_view().remove(
                            spec_idx_find_id(old(self).file_view(), id)->Some_0,
                        ));
                    }
                }
            },
        }
    }

    /// Whether any row of the addressed table carries the given fingerprint.
    pub fn md5_is_exist(&self, table: IndexTable, md5: &str) -> (r: bool)
        ensures
            r == exists|i: int|
                0 <= i < self.table_view(table).len() && (#[trigger] self.table_view(table)[
                i]).md5 == md5@,
    {
        let rows = match table {
            IndexTable::App => &self.app_rows,
            IndexTable::File => &self.file_rows,
        };
        let n = rows.len();
        let mut i: usize = 0;
        while i < n
            invariant
                i <= n,
                n == rows@.len(),
                rows@ == (match table {
                    IndexTable::App => self.app_rows@,
                    IndexTable::File => self.file_rows@,
                }),
                self.table_view(table) == idx_models(rows@),
                forall|k: int| 0 <= k < i ==> (#[trigger] idx_models(rows@)[k]).md5 != md5@,
            decreases n - i,
        {
            assert(idx_models(rows@)[i as int] == rows@[i as int].model());
            if crate::string_factory::str_eq(rows[i].md5.as_str(), md5) {
                return true;
            }
            i += 1;
        }
        false
    }

    /// Empty the addressed table; its id counter keeps counting.
    pub fn clear_data(&mut self, table: IndexTable)
        requires
            old(self).wf(),
        ensures
            final(self).wf(),
            final(self).table_view(table) =~= Seq::<IdxModel>::empty(),
            final(self).spec_next_id(table) == old(self).spec_next_id(table),
            ({
                let other = match table {
                    IndexTable::App => IndexTable::File,
                    IndexTable::File => IndexTable::App,
                };
                final(self).table_view(other) =~= old(self).table_view(other)
                    && final(self).spec_next_id(other) == old(self).spec_next_id(other)
            }),
    {
        match table {
            IndexTable::App => {
                self.app_rows = Vec::new();
                proof {
                    assert(self.app_view() =~= Seq::<IdxModel>::empty());
                }
            },
            IndexTable::File => {
                self.file_rows = Vec::new();
                proof {
                    assert(self.file_view() =~= Seq::<IdxModel>::empty());
                }
            },
        }
    }
}

/// The position of the first row with the given id.
pub open spec fn spec_idx_find_id(rows: Seq<IdxModel>, id: u64) -> Option<int>
    decreases rows.len(),
{
    if rows.len() == 0 {
        None
    } else if rows[0].id == id {
        Some(0)
    } else {
        match spec_idx_find_id(rows.drop_first(), id) {
            Some(i) => Some(i + 1),
            None => None,
        }
    }
}


/// A found id index is in range and carries the id.
pub proof fn lemma_idx_find_id_found(rows: Seq<IdxModel>, id: u64)
    ensures
        match spec_idx_find_id(rows, id) {
            Some(i) => 0 <= i < rows.len() && rows[i].id == id,
            None => forall|k: int| 0 <= k < rows.len() ==> (#[trigger] rows[k]).id != id,
        },
    decreases rows.len(),
{
    if rows.len() == 0 {
    } else if rows[0].id == id {
    } else {
        let rest = rows.drop_first();
        lemma_idx_find_id_found(rest, id);
        match spec_idx_find_id(rest, id) {
            Some(i) => {
                assert(rows[i + 1] == rest[i]);
            },
            None => {
                assert forall|k: int| 0 <= k < rows.len() implies (#[trigger] rows[k]).id
                    != id by {
                    if k > 0 {
                        assert(rest[k - 1] == rows[k]);
                    }
                }
            },
        }
    }
}

/// Where the first id lookup stops.
pub proof fn lemma_idx_find_id_is(rows: Seq<IdxModel>, id: u64, p: int)
    requires
        0 <= p <= rows.len(),
        forall|k: int| 0 <= k < p ==> (#[trigger] rows[k]).id != id,
        p == rows.len() || rows[p as int].id == id,
    ensures
        spec_idx_find_id(rows, id) == if p == rows.len() {
            Option::<int>::None
        } else {
            Option::<int>::Some(p)
        },
    decreases rows.len(),
{
    if rows.len() == 0 {
    } else if rows[0].id == id {
        assert(p == 0);
    } else {
        assert(p >= 1);
        lemma_idx_find_id_is(rows.drop_first(), id, p - 1);
    }
}

/// The position of the first entry with the given id, if any.
fn idx_find_index_by_id(rows: &Vec<FileIndex>, id: u64) -> (r: Option<usize>)
    ensures
        match r {
            Some(i) => spec_idx_find_id(idx_models(rows@), id) == Some(i as int),
            None => spec_idx_find_id(idx_models(rows@), id) is None,
        },
{
    let n = rows.len();
    let mut i: usize = 0;
    while i < n
        invariant
            i <= n,
            n == rows@.len(),
            forall|k: int| 0 <= k < i ==> (#[trigger] idx_models(rows@)[k]).id != id,
        decreases n - i,
    {
        assert(idx_models(rows@)[i as int] == rows@[i as int].model());
        if rows[i].id == id {
            proof {
                lemma_idx_find_id_is(idx_models(rows@), id, i as int);
            }
            return Some(i);
        }
        i += 1;
    }
    proof {
        lemma_idx_find_id_is(idx_models(rows@), id, n as int);
    }
    None
}

} // verus!
