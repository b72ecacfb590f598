//! The store's governing laws, proved once over the transition functions:
//! observation is idempotent, uniqueness is scoped by type, retention keeps
//! exactly the newest rows, whitespace is never stored, and previews
//! truncate at the threshold.

use vstd::prelude::*;

use crate::database::{
    RecModel, rec_rows_wf, rec_sorted, rec_key_is, rec_more_recent, count_key, spec_find_key,
    spec_sorted_insert, spec_touched, spec_new_row, spec_insert_if_not_exist,
    lemma_sorted_insert_sorted, lemma_sorted_insert_multiset, lemma_sorted_insert_contains,
    lemma_sorted_insert_count, lemma_find_key_found, lemma_wf_remove,
};
use crate::clipboard::{spec_handle_text, spec_text_preview, spec_delete_over_limit};
use crate::string_factory::{md5_of, spec_trim, spec_take_chars};

verus! {

/// Rows without the key leave the count at zero, and a zero count means no
/// row has the key.
pub proof fn lemma_count_key_zero(rows: Seq<RecModel>, fp: Seq<char>, dt: Seq<char>)
    ensures
        (count_key(rows, fp, dt) == 0) <==> (forall|k: int|
            0 <= k < rows.len() ==> !rec_key_is(#[trigger] rows[k], fp, dt)),
        count_key(rows, fp, dt) >= 0,
    decreases rows.len(),
{
    if rows.len() == 0 {
    } else {
        let rest = rows.drop_first();
        lemma_count_key_zero(rest, fp, dt);
        if count_key(rows, fp, dt) == 0 {
            assert forall|k: int| 0 <= k < rows.len() implies !rec_key_is(
                #[trigger] rows[k],
                fp,
                dt,
            ) by {
                if k > 0 {
                    assert(rest[k - 1] == rows[k]);
                }
            }
        }
        if forall|k: int| 0 <= k < rows.len() ==> !rec_key_is(#[trigger] rows[k], fp, dt) {
            assert(forall|k: int| 0 <= k < rest.len() ==> rest[k] == rows[k + 1]);
        }
    }
}

/// In a well-formed table a found key is the only one: every other row
/// lacks it, so the removal leaves none.
pub proof fn lemma_key_unique_at(rows: Seq<RecModel>, next_id: u64, fp: Seq<char>, dt: Seq<char>)
    requires
        rec_rows_wf(rows, next_id),
        spec_find_key(rows, fp, dt) is Some,
    ensures
        ({
            let i = spec_find_key(rows, fp, dt)->Some_0;
            forall|k: int|
                0 <= k < rows.len() && k != i ==> !rec_key_is(#[trigger] rows[k], fp, dt)
        }),
{
    let i = spec_find_key(rows, fp, dt)->Some_0;
    lemma_find_key_found(rows, fp, dt);
    assert forall|k: int| 0 <= k < rows.len() && k != i implies !rec_key_is(
        #[trigger] rows[k],
        fp,
        dt,
    ) by {
        if rec_key_is(rows[k], fp, dt) {
            if k < i {
                assert(!(rows[k].md5 == rows[i].md5 && rows[k].data_type == rows[i].data_type));
            } else {
                assert(!(rows[i].md5 == rows[k].md5 && rows[i].data_type == rows[k].data_type));
            }
        }
    }
}

/// A sorted insert of a row whose id and key are fresh, whose fingerprint
/// is its content's, and which carries no icon, keeps the table well-formed.
pub proof fn lemma_sorted_insert_wf(rows: Seq<RecModel>, next_id: u64, r: RecModel)
    requires
        rec_rows_wf(rows, next_id),
        r.id < next_id,
        r.md5 == md5_of(r.content),
        r.app_icon == Seq::<char>::empty(),
        forall|k: int| 0 <= k < rows.len() ==> (#[trigger] rows[k]).id != r.id,
        forall|k: int| 0 <= k < rows.len() ==> !rec_key_is(#[trigger] rows[k], r.md5, r.data_type),
    ensures
        rec_rows_wf(spec_sorted_insert(rows, r), next_id),
{
    let out = spec_sorted_insert(rows, r);
    lemma_sorted_insert_sorted(rows, r);
    lemma_sorted_insert_contains(rows, r);
    lemma_sorted_insert_multiset(rows, r);
    assert forall|a: int| 0 <= a < out.len() implies (#[trigger] out[a]).id < next_id && out[a].md5
        == md5_of(out[a].content) && out[a].app_icon == Seq::<char>::empty() by {
        assert(out.contains(out[a]));
        if out[a] != r {
            let w = choose|w: int| 0 <= w < rows.len() && rows[w] == out[a];
        }
    }
    assert forall|a: int, b: int| 0 <= a < b < out.len() implies (#[trigger] out[a]).id != (
    #[trigger] out[b]).id && !(out[a].md5 == out[b].md5 && out[a].data_type
        == out[b].data_type) by {
        assert(rec_more_recent(out[a], out[b]));
        assert(out[a] != out[b]);
        assert(out.contains(out[a]));
        assert(out.contains(out[b]));
        if out[a] == r {
            let w = choose|w: int| 0 <= w < rows.len() && rows[w] == out[b];
            assert(rows[w].id != r.id);
            assert(!rec_key_is(rows[w], r.md5, r.data_type));
        } else if out[b] == r {
            let w = choose|w: int| 0 <= w < rows.len() && rows[w] == out[a];
            assert(rows[w].id != r.id);
            assert(!rec_key_is(rows[w], r.md5, r.data_type));
        } else {
            let wa = choose|w: int| 0 <= w < rows.len() && rows[w] == out[a];
            let wb = choose|w: int| 0 <= w < rows.len() && rows[w] == out[b];
            assert(wa != wb) by {
                assert(out[a] != out[b]);
            }
            if wa < wb {
                assert(rows[wa].id != rows[wb].id);
                assert(!(rows[wa].md5 == rows[wb].md5 && rows[wa].data_type
                    == rows[wb].data_type));
            } else {
                assert(rows[wb].id != rows[wa].id);
                assert(!(rows[wb].md5 == rows[wa].md5 && rows[wb].data_type
                    == rows[wa].data_type));
            }
        }
    }
}

/// The observation transition keeps the table well-formed, under the id
/// counter it leaves behind.
pub proof fn lemma_insert_if_not_exist_wf(
    rows: Seq<RecModel>,
    next_id: u64,
    content: Seq<char>,
    preview: Seq<char>,
    dt: Seq<char>,
    source: Seq<char>,
    now: u64,
)
    requires
        rec_rows_wf(rows, next_id),
        next_id < u64::MAX,
    ensures
        ({
            let stepped = spec_insert_if_not_exist(rows, next_id, content, preview, dt, source, now);
            let next2 = if stepped.1 {
                (next_id + 1) as u64
            } else {
                next_id
            };
            rec_rows_wf(stepped.0, next2)
        }),
{
    let fp = md5_of(content);
    lemma_find_key_found(rows, fp, dt);
    match spec_find_key(rows, fp, dt) {
        Some(i) => {
            lemma_key_unique_at(rows, next_id, fp, dt);
            lemma_wf_remove(rows, next_id, i);
            let rest = rows.remove(i);
            let touched = spec_touched(rows[i], now);
            assert forall|k: int| 0 <= k < rest.len() implies (#[trigger] rest[k]).id
                != touched.id && !rec_key_is(rest[k], touched.md5, touched.data_type) by {
                let k0 = if k < i {
                    k
                } else {
                    k + 1
                };
                assert(rest[k] == rows[k0]);
            }
            assert(touched.md5 == md5_of(touched.content));
            lemma_sorted_insert_wf(rest, next_id, touched);
        },
        None => {
            let fresh = spec_new_row(next_id, content, preview, dt, source, now);
            assert(rec_rows_wf(rows, (next_id + 1) as u64));
            assert forall|k: int| 0 <= k < rows.len() implies (#[trigger] rows[k]).id
                != fresh.id by {}
            lemma_sorted_insert_wf(rows, (next_id + 1) as u64, fresh);
        },
    }
}

/// After one observation, exactly one row carries the observation's
/// (fingerprint, type) key, and it is stamped with the observation's time.
pub proof fn lemma_observation_settles(
    rows: Seq<RecModel>,
    next_id: u64,
    content: Seq<char>,
    preview: Seq<char>,
    dt: Seq<char>,
    source: Seq<char>,
    now: u64,
)
    requires
        rec_rows_wf(rows, next_id),
        next_id < u64::MAX,
    ensures
        ({
            let out = spec_insert_if_not_exist(rows, next_id, content, preview, dt, source, now).0;
            count_key(out, md5_of(content), dt) == 1 && exists|i: int|
                0 <= i < out.len() && rec_key_is(#[trigger] out[i], md5_of(content), dt)
                    && out[i].create_time == now
        }),
{
    let fp = md5_of(content);
    lemma_find_key_found(rows, fp, dt);
    match spec_find_key(rows, fp, dt) {
        Some(i) => {
            lemma_key_unique_at(rows, next_id, fp, dt);
            let rest = rows.remove(i);
            let touched = spec_touched(rows[i], now);
            let out = spec_sorted_insert(rest, touched);
            assert forall|k: int| 0 <= k < rest.len() implies !rec_key_is(
                #[trigger] rest[k],
                fp,
                dt,
            ) by {
                let k0 = if k < i {
                    k
                } else {
                    k + 1
                };
                assert(rest[k] == rows[k0]);
            }
            lemma_count_key_zero(rest, fp, dt);
            lemma_sorted_insert_count(rest, touched, fp, dt);
            lemma_sorted_insert_contains(rest, touched);
            assert(out.contains(touched));
            let w = choose|w: int| 0 <= w < out.len() && out[w] == touched;
            assert(rec_key_is(out[w], fp, dt) && out[w].create_time == now);
        },
        None => {
            let fresh = spec_new_row(next_id, content, preview, dt, source, now);
            let out = spec_sorted_insert(rows, fresh);
            lemma_count_key_zero(rows, fp, dt);
            lemma_sorted_insert_count(rows, fresh, fp, dt);
            lemma_sorted_insert_contains(rows, fresh);
            assert(out.contains(fresh));
            let w = choose|w: int| 0 <= w < out.len() && out[w] == fresh;
            assert(rec_key_is(out[w], fp, dt) && out[w].create_time == now);
        },
    }
}

/// The table after a second observation of the same content and type.
pub open spec fn spec_observe_twice(
    rows: Seq<RecModel>,
    next_id: u64,
    content: Seq<char>,
    preview: Seq<char>,
    dt: Seq<char>,
    source: Seq<char>,
    now1: u64,
    now2: u64,
) -> (Seq<RecModel>, bool) {
    let s1 = spec_insert_if_not_exist(rows, next_id, content, preview, dt, source, now1);
    let n1 = if s1.1 {
        (next_id + 1) as u64
    } else {
        next_id
    };
    spec_insert_if_not_exist(s1.0, n1, content, preview, dt, source, now2)
}

/// Idempotent observation: recording the same content under the same type
/// twice leaves exactly one row carrying its key, stamped with the later
/// observation's time, which is no earlier than the first; the second
/// observation adds no row.
pub proof fn lemma_idempotent_observation(
    rows: Seq<RecModel>,
    next_id: u64,
    content: Seq<char>,
    preview: Seq<char>,
    dt: Seq<char>,
    source: Seq<char>,
    now1: u64,
    now2: u64,
)
    requires
        rec_rows_wf(rows, next_id),
        next_id + 1 < u64::MAX,
        now1 <= now2,
    ensures
        count_key(
            spec_observe_twice(rows, next_id, content, preview, dt, source, now1, now2).0,
            md5_of(content),
            dt,
        ) == 1,
        !spec_observe_twice(rows, next_id, content, preview, dt, source, now1, now2).1,
        exists|i: int|
            0 <= i < spec_observe_twice(rows, next_id, content, preview, dt, source, now1, now2).0.len()
                && rec_key_is(
                #[trigger] spec_observe_twice(
                    rows,
                    next_id,
                    content,
                    preview,
                    dt,
                    source,
                    now1,
                    now2,
                ).0[i],
                md5_of(content),
                dt,
            ) && spec_observe_twice(rows, next_id, content, preview, dt, source, now1, now2).0[i].create_time
                == now2 && spec_observe_twice(
                rows,
                next_id,
                content,
                preview,
                dt,
                source,
                now1,
                now2,
            ).0[i].create_time >= now1,
{
    let fp = md5_of(content);
    let s1 = spec_insert_if_not_exist(rows, next_id, content, preview, dt, source, now1);
    let n1 = if s1.1 {
        (next_id + 1) as u64
    } else {
        next_id
    };
    lemma_insert_if_not_exist_wf(rows, next_id, content, preview, dt, source, now1);
    lemma_observation_settles(rows, next_id, content, preview, dt, source, now1);
    lemma_find_key_found(s1.0, fp, dt);
    lemma_count_key_zero(s1.0, fp, dt);
    assert(spec_find_key(s1.0, fp, dt) is Some);
    lemma_observation_settles(s1.0, n1, content, preview, dt, source, now2);
    let s2 = spec_observe_twice(rows, next_id, content, preview, dt, source, now1, now2);
    assert(count_key(s2.0, fp, dt) == 1);
    assert(!s2.1);
    let w = choose|i: int|
        0 <= i < s2.0.len() && rec_key_is(#[trigger] s2.0[i], fp, dt) && s2.0[i].create_time
            == now2;
    assert(0 <= w < s2.0.len() && rec_key_is(s2.0[w], fp, dt) && s2.0[w].create_time == now2
        && s2.0[w].create_time >= now1);
}

/// Type-scoped uniqueness: one content recorded under two different types
/// gives two rows, one per (fingerprint, type) key, even though the
/// fingerprints agree.
pub proof fn lemma_type_scoped_uniqueness(
    rows: Seq<RecModel>,
    next_id: u64,
    content: Seq<char>,
    preview: Seq<char>,
    dt1: Seq<char>,
    dt2: Seq<char>,
    source: Seq<char>,
    now1: u64,
    now2: u64,
)
    requires
        rec_rows_wf(rows, next_id),
        next_id + 2 < u64::MAX,
        dt1 != dt2,
        forall|k: int| 0 <= k < rows.len() ==> !rec_key_is(#[trigger] rows[k], md5_of(content), dt1),
        forall|k: int| 0 <= k < rows.len() ==> !rec_key_is(#[trigger] rows[k], md5_of(content), dt2),
    ensures
        ({
            let s1 = spec_insert_if_not_exist(rows, next_id, content, preview, dt1, source, now1);
            let s2 = spec_insert_if_not_exist(
                s1.0,
                (next_id + 1) as u64,
                content,
                preview,
                dt2,
                source,
                now2,
            );
            s1.1 && s2.1 && s2.0.len() == rows.len() + 2 && count_key(s2.0, md5_of(content), dt1)
                == 1 && count_key(s2.0, md5_of(content), dt2) == 1
        }),
{
    let fp = md5_of(content);
    lemma_count_key_zero(rows, fp, dt1);
    lemma_count_key_zero(rows, fp, dt2);
    lemma_find_key_found(rows, fp, dt1);
    assert(spec_find_key(rows, fp, dt1) is None) by {
        if spec_find_key(rows, fp, dt1) is Some {
            let i = spec_find_key(rows, fp, dt1)->Some_0;
            assert(rec_key_is(rows[i], fp, dt1));
        }
    }
    let fresh1 = spec_new_row(next_id, content, preview, dt1, source, now1);
    let s1rows = spec_sorted_insert(rows, fresh1);
    lemma_sorted_insert_multiset(rows, fresh1);
    lemma_sorted_insert_count(rows, fresh1, fp, dt1);
    lemma_sorted_insert_count(rows, fresh1, fp, dt2);
    lemma_find_key_found(s1rows, fp, dt2);
    lemma_count_key_zero(s1rows, fp, dt2);
    assert(spec_find_key(s1rows, fp, dt2) is None) by {
        if spec_find_key(s1rows, fp, dt2) is Some {
            let i = spec_find_key(s1rows, fp, dt2)->Some_0;
            assert(rec_key_is(s1rows[i], fp, dt2));
            assert(count_key(s1rows, fp, dt2) == 0);
        }
    }
    let fresh2 = spec_new_row((next_id + 1) as u64, content, preview, dt2, source, now2);
    lemma_sorted_insert_multiset(s1rows, fresh2);
    lemma_sorted_insert_count(s1rows, fresh2, fp, dt1);
    lemma_sorted_insert_count(s1rows, fresh2, fp, dt2);
}

/// Retention: under the slack of ten rows past the limit nothing is
/// evicted; past it exactly the `limit` most recent rows remain, and every
/// surviving row is at least as recent as every evicted one.
pub proof fn lemma_retention(rows: Seq<RecModel>, limit: int)
    requires
        rec_sorted(rows),
        0 <= limit,
    ensures
        ({
            let swept = spec_delete_over_limit(rows, limit);
            &&& rows.len() < limit + 10 ==> swept.0 == rows && !swept.1
            &&& rows.len() >= limit + 10 ==> swept.1 && swept.0 =~= rows.take(limit)
                && swept.0.len() == limit && forall|i: int, j: int|
                0 <= i < limit <= j < rows.len() ==> rec_more_recent(
                    #[trigger] rows[i],
                    #[trigger] rows[j],
                )
        }),
{
}

/// Whitespace-only text is never stored: a text reading whose trimmed form
/// is empty leaves the store, the counter and the novelty state untouched
/// and raises no signal.
pub proof fn lemma_whitespace_never_stored(
    rows: Seq<RecModel>,
    next_id: u64,
    last_md5: Seq<char>,
    text: Seq<char>,
    source: Seq<char>,
    now: u64,
)
    requires
        spec_trim(text).len() == 0,
    ensures
        spec_handle_text(rows, next_id, last_md5, text, source, now) == (
            rows,
            next_id,
            last_md5,
            false,
        ),
{
}

/// Preview truncation: a text whose trimmed form is longer than a thousand
/// characters is recorded with a preview of exactly its first thousand
/// characters, while the text itself is what the transition stores in full.
pub proof fn lemma_preview_truncation(text: Seq<char>)
    requires
        spec_trim(text).len() > 1000,
    ensures
        spec_text_preview(text) == spec_trim(text).take(1000),
        spec_text_preview(text).len() == 1000,
{
    assert(spec_take_chars(spec_trim(text), 1000) == spec_trim(text).take(1000));
}

} // verus!
