//! The search surface over the application/file index, the romanisation of
//! titles, the file-scan filter rules, and the keyword dispatch the UI
//! calls. Walking directories and reading application metadata is the
//! caller's I/O; the decisions live here.

use vstd::prelude::*;

use crate::database::{FileIndex, IndexSQL, IndexTable, spec_idx_kw_filter, spec_app_filter,
    idx_kw_listing, idx_app_listing};
use crate::string_factory::{pinyin_of, char_pinyin, spec_starts_with, starts_with_str,
    spec_contains, contains_str, spec_lower, lower_str, str_eq};

verus! {

/// A launchable application, as the UI lists one.
pub struct AppInfo {
    pub name: String,
    pub icon: String,
    pub start: String,
}

/// The plain pinyin syllables of a text: one for each character the
/// romanisation tables know, in order; other characters contribute nothing.
pub open spec fn spec_to_pinyin(s: Seq<char>) -> Seq<Seq<char>>
    decreases s.len(),
{
    if s.len() == 0 {
        Seq::empty()
    } else {
        let rest = spec_to_pinyin(s.drop_last());
        match pinyin_of(s.last()) {
            Some(p) => rest.push(p.0),
            None => rest,
        }
    }
}

/// Romanise a text into its plain pinyin syllables.
pub fn to_pinyin(hans: &str) -> (r: Vec<String>)
    ensures
        r@.len() == spec_to_pinyin(hans@).len(),
        forall|i: int| 0 <= i < r@.len() ==> (#[trigger] r@[i])@ == spec_to_pinyin(hans@)[i],
{
    let n = hans.unicode_len();
    let mut ret: Vec<String> = Vec::new();
    let mut i: usize = 0;
    while i < n
        invariant
            i <= n,
            n == hans@.len(),
            ret@.len() == spec_to_pinyin(hans@.take(i as int)).len(),
            forall|k: int|
                0 <= k < ret@.len() ==> (#[trigger] ret@[k])@ == spec_to_pinyin(
                    hans@.take(i as int),
                )[k],
        decreases n - i,
    {
        let ghost f0 = spec_to_pinyin(hans@.take(i as int));
        proof {
            assert(hans@.take(i + 1).drop_last() =~= hans@.take(i as int));
            assert(hans@.take(i + 1).last() == hans@[i as int]);
        }
        let ghost f1 = spec_to_pinyin(hans@.take(i + 1));
        match char_pinyin(hans.get_char(i)) {
            Some(p) => {
                ret.push(p.0);
                assert(forall|k: int| 0 <= k < f0.len() ==> f1[k] == f0[k]);
            },
            None => {
                assert(f1 == f0);
            },
        }
        i += 1;
    }
    proof {
        assert(hans@.take(n as int) =~= hans@);
    }
    ret
}

/// File search against the index: rows of the file table whose title holds
/// the keyword, newest first, thirty to a page.
pub fn search_file_index(db: &IndexSQL, keyword: &str, offset: i32) -> (res: Vec<FileIndex>)
    requires
        0 <= offset,
    ensures
        ({
            let f = spec_idx_kw_filter(db.table_view(IndexTable::File), keyword@);
            let start = if offset as int <= f.len() {
                offset as int
            } else {
                f.len() as int
            };
            let end = if offset as int + 30 <= f.len() {
                offset as int + 30
            } else {
                f.len() as int
            };
            res@.len() == end - start && forall|k: int|
                0 <= k < res@.len() ==> (#[trigger] res@[k]).model() == idx_kw_listing(
                    f[start + k],
                )
        }),
{
    db.find_by_keyword(IndexTable::File, keyword, offset)
}

/// Application search against the index: rows of the application table
/// answering the keyword, newest first, thirty to a page.
pub fn search_app_index(db: &IndexSQL, keyword: &str, offset: i32) -> (res: Vec<FileIndex>)
    requires
        0 <= offset,
    ensures
        ({
            let f = spec_app_filter(db.table_view(IndexTable::App), keyword@);
            let start = if offset as int <= f.len() {
                offset as int
            } else {
                f.len() as int
            };
            let end = if offset as int + 30 <= f.len() {
                offset as int + 30
            } else {
                f.len() as int
            };
            res@.len() == end - start && forall|k: int|
                0 <= k < res@.len() ==> (#[trigger] res@[k]).model() == idx_app_listing(
                    f[start + k],
                )
        }),
{
    db.find_app(keyword, offset)
}

// ---------------------------------------------------------------------------
// The file-scan filter rules.
// ---------------------------------------------------------------------------

/// A hidden entry: its name begins with a dot.
pub open spec fn spec_is_hidden(name: Seq<char>) -> bool {
    spec_starts_with(name, "."@)
}

/// Whether an entry is hidden.
pub fn is_hidden(name: &str) -> (r: bool)
    ensures
        r == spec_is_hidden(name@),
{
    starts_with_str(name, ".")
}

/// A file the scan skips: its extension, lowercased, is one of the
/// configured excluded types.
pub open spec fn spec_should_skip_file(ext: Seq<char>, skip_extensions: Seq<String>) -> bool {
    exists|i: int|
        0 <= i < skip_extensions.len() && (#[trigger] skip_extensions[i])@ == spec_lower(ext)
}

/// Whether a file's extension is excluded from the index.
pub fn should_skip_file(ext: &str, skip_extensions: &Vec<String>) -> (r: bool)
    ensures
        r == spec_should_skip_file(ext@, skip_extensions@),
{
    let low = lower_str(ext);
    let n = skip_extensions.len();
    let mut i: usize = 0;
    while i < n
        invariant
            i <= n,
            n == skip_extensions@.len(),
            low@ == spec_lower(ext@),
            forall|k: int| 0 <= k < i ==> (#[trigger] skip_extensions@[k])@ != spec_lower(ext@),
        decreases n - i,
    {
        if str_eq(skip_extensions[i].as_str(), low.as_str()) {
            return true;
        }
        i += 1;
    }
    false
}

/// A directory the scan skips: its path begins with an excluded directory,
/// its name begins with a dollar sign, or its name holds the tail of a
/// wildcard exclude (one written `*/tail`).
pub open spec fn spec_should_skip_dir(
    path: Seq<char>,
    name: Seq<char>,
    skip_dirs: Seq<String>,
) -> bool {
    ||| exists|i: int|
        0 <= i < skip_dirs.len() && spec_starts_with(path, (#[trigger] skip_dirs[i])@)
    ||| spec_starts_with(name, "$"@)
    ||| exists|i: int|
        0 <= i < skip_dirs.len() && spec_starts_with((#[trigger] skip_dirs[i])@, "*/"@)
            && spec_contains(name, skip_dirs[i]@.skip(2))
}

/// Whether a directory is excluded from the scan.
pub fn should_skip_dir(path: &str, name: &str, skip_dirs: &Vec<String>) -> (r: bool)
    ensures
        r == spec_should_skip_dir(path@, name@, skip_dirs@),
{
    let n = skip_dirs.len();
    let mut i: usize = 0;
    while i < n
        invariant
            i <= n,
            n == skip_dirs@.len(),
            forall|k: int|
                0 <= k < i ==> !spec_starts_with(path@, (#[trigger] skip_dirs@[k])@),
        decreases n - i,
    {
        if starts_with_str(path, skip_dirs[i].as_str()) {
            return true;
        }
        i += 1;
    }
    if starts_with_str(name, "$") {
        return true;
    }
    let mut j: usize = 0;
    while j < n
        invariant
            j <= n,
            n == skip_dirs@.len(),
            forall|k: int|
                0 <= k < n ==> !spec_starts_with(path@, (#[trigger] skip_dirs@[k])@),
            !spec_starts_with(name@, "$"@),
            forall|k: int|
                0 <= k < j ==> !(spec_starts_with((#[trigger] skip_dirs@[k])@, "*/"@)
                    && spec_contains(name@, skip_dirs@[k]@.skip(2))),
        decreases n - j,
    {
        let d = &skip_dirs[j];
        if starts_with_str(d.as_str(), "*/") {
            let d_len = d.as_str().unicode_len();
            proof {
                reveal_strlit("*/");
            }
            let tail = d.as_str().substring_char(2, d_len);
            if contains_str(name, tail) {
                return true;
            }
        }
        proof {
            assert(skip_dirs@[j as int]@.skip(2) =~= skip_dirs@[j as int]@.subrange(
                2,
                skip_dirs@[j as int]@.len() as int,
            ));
        }
        j += 1;
    }
    false
}

// ---------------------------------------------------------------------------
// The keyword dispatch behind the UI's search box.
// ---------------------------------------------------------------------------

/// One search hit: a free-form entry of (key, value) pairs, or an index
/// row.
pub enum SearchResult {
    Entry(Vec<(String, String)>),
    File(FileIndex),
}

/// Dispatch a search: an empty component name searches the application
/// index, the file-search component searches the file index, and anything
/// else finds nothing.
pub fn search_keyword(db: &IndexSQL, component_name: &str, input_value: &str, offset: i32) -> (res:
    Vec<SearchResult>)
    requires
        0 <= offset,
    ensures
        component_name@ == ""@ ==> ({
            let f = spec_app_filter(db.table_view(IndexTable::App), input_value@);
            let start = if offset as int <= f.len() {
                offset as int
            } else {
                f.len() as int
            };
            let end = if offset as int + 30 <= f.len() {
                offset as int + 30
            } else {
                f.len() as int
            };
            res@.len() == end - start && forall|k: int|
                0 <= k < res@.len() ==> ((#[trigger] res@[k]) matches SearchResult::File(fi)
                    && fi.model() == idx_app_listing(f[start + k]))
        }),
        component_name@ == "\u{6587}\u{4EF6}\u{641C}\u{7D22}"@ ==> ({
            let f = spec_idx_kw_filter(db.table_view(IndexTable::File), input_value@);
            let start = if offset as int <= f.len() {
                offset as int
            } else {
                f.len() as int
            };
            let end = if offset as int + 30 <= f.len() {
                offset as int + 30
            } else {
                f.len() as int
            };
            res@.len() == end - start && forall|k: int|
                0 <= k < res@.len() ==> ((#[trigger] res@[k]) matches SearchResult::File(fi)
                    && fi.model() == idx_kw_listing(f[start + k]))
        }),
        component_name@ != ""@ && component_name@ != "\u{6587}\u{4EF6}\u{641C}\u{7D22}"@ ==> res@
            =~= Seq::<SearchResult>::empty(),
{
    proof {
        reveal_strlit("");
        reveal_strlit("\u{6587}\u{4EF6}\u{641C}\u{7D22}");
        assert(""@.len() == 0);
        assert("\u{6587}\u{4EF6}\u{641C}\u{7D22}"@.len() == 4);
        assert(""@ != "\u{6587}\u{4EF6}\u{641C}\u{7D22}"@);
    }
    if str_eq(component_name, "") {
        let hits = search_app_index(db, input_value, offset);
        return wrap_hits(hits);
    }
    if str_eq(component_name, "\u{6587}\u{4EF6}\u{641C}\u{7D22}") {
        let hits = search_file_index(db, input_value, offset);
        return wrap_hits(hits);
    }
    Vec::new()
}

/// Wrap index rows as search hits, keeping their order.
fn wrap_hits(hits: Vec<FileIndex>) -> (res: Vec<SearchResult>)
    ensures
        res@.len() == hits@.len(),
        forall|k: int|
            0 <= k < res@.len() ==> ((#[trigger] res@[k]) matches SearchResult::File(fi) && fi
                == hits@[k]),
{
    let n = hits.len();
    let mut rest = hits;
    let mut res: Vec<SearchResult> = Vec::new();
    let mut i: usize = 0;
    proof {
        assert(rest@ =~= hits@.skip(0));
    }
    while i < n
        invariant
            i <= n,
            n == hits@.len(),
            rest@ =~= hits@.skip(i as int),
            res@.len() == i,
            forall|k: int|
                0 <= k < i ==> ((#[trigger] res@[k]) matches SearchResult::File(fi) && fi
                    == hits@[k]),
        decreases n - i,
    {
        let fi = rest.remove(0);
        proof {
            assert(hits@.skip(i as int)[0] == hits@[i as int]);
            assert(hits@.skip(i as int).remove(0) =~= hits@.skip(i + 1));
        }
        res.push(SearchResult::File(fi));
        i += 1;
    }
    res
}

} // verus!
