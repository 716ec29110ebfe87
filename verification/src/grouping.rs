//! Ordering the results to replace within one file, and gathering the
//! selected results by file.

use vstd::prelude::*;

use crate::model::{MatchLocation, ResultView, SearchResult, results_view};

verus! {

/// The key results are replaced in ascending order of: the start character
/// for buffer matches, `line * 1_000_000 + start byte` for file matches.
pub open spec fn sort_key(loc: MatchLocation) -> int {
    match loc {
        MatchLocation::BufferChars { char_start, .. } => char_start as int,
        MatchLocation::FileBytes { line_num, line_byte_start, .. } => line_num * 1000000
            + line_byte_start,
    }
}

/// `s` with `x` inserted just after the last element whose key is not
/// greater than `x`'s (so equal keys keep their order).
pub open spec fn insert_by_key(s: Seq<ResultView>, x: ResultView) -> Seq<ResultView>
    decreases s.len(),
{
    if s.len() > 0 && sort_key(x.location) < sort_key(s.last().location) {
        insert_by_key(s.drop_last(), x).push(s.last())
    } else {
        s.push(x)
    }
}

/// `s` ordered by key, equal keys in the order they came in.
pub open spec fn sorted_by_key(s: Seq<ResultView>) -> Seq<ResultView>
    decreases s.len(),
{
    if s.len() == 0 {
        s
    } else {
        insert_by_key(sorted_by_key(s.drop_last()), s.last())
    }
}

pub open spec fn key_sorted(s: Seq<ResultView>) -> bool {
    forall|i: int, j: int|
        0 <= i <= j < s.len() ==> sort_key(#[trigger] s[i].location) <= sort_key(
            #[trigger] s[j].location,
        )
}

/// Where `insert_by_key` puts `x`.
pub open spec fn insert_pos(s: Seq<ResultView>, x: ResultView) -> int
    decreases s.len(),
{
    if s.len() > 0 && sort_key(x.location) < sort_key(s.last().location) {
        insert_pos(s.drop_last(), x)
    } else {
        s.len() as int
    }
}

proof fn lemma_insert_pos(s: Seq<ResultView>, x: ResultView)
    ensures
        0 <= insert_pos(s, x) <= s.len(),
        insert_by_key(s, x) == s.insert(insert_pos(s, x), x),
    decreases s.len(),
{
    if s.len() > 0 && sort_key(x.location) < sort_key(s.last().location) {
        let t = s.drop_last();
        lemma_insert_pos(t, x);
        let p = insert_pos(t, x);
        assert(insert_pos(s, x) == p);
        assert(insert_by_key(s, x) == insert_by_key(t, x).push(s.last()));
        assert(t.insert(p, x).push(s.last()) =~= s.insert(p, x));
    } else {
        assert(s.push(x) =~= s.insert(s.len() as int, x));
    }
}

proof fn lemma_insert_bounded(s: Seq<ResultView>, x: ResultView, bound: int)
    requires
        forall|i: int| 0 <= i < s.len() ==> sort_key(#[trigger] s[i].location) <= bound,
        sort_key(x.location) <= bound,
    ensures
        forall|i: int|
            0 <= i < insert_by_key(s, x).len() ==> sort_key(
                #[trigger] insert_by_key(s, x)[i].location,
            ) <= bound,
        insert_by_key(s, x).len() == s.len() + 1,
    decreases s.len(),
{
    if s.len() > 0 && sort_key(x.location) < sort_key(s.last().location) {
        lemma_insert_bounded(s.drop_last(), x, bound);
    }
}

proof fn lemma_insert_sorted(s: Seq<ResultView>, x: ResultView)
    requires
        key_sorted(s),
    ensures
        key_sorted(insert_by_key(s, x)),
        insert_by_key(s, x).to_multiset() == s.to_multiset().insert(x),
    decreases s.len(),
{
    if s.len() > 0 && sort_key(x.location) < sort_key(s.last().location) {
        let t = s.drop_last();
        lemma_insert_sorted(t, x);
        let last = s.last();
        assert forall|i: int| 0 <= i < t.len() implies sort_key(#[trigger] t[i].location)
            <= sort_key(last.location) by {
            assert(t[i] == s[i]);
        }
        lemma_insert_bounded(t, x, sort_key(last.location));
        let r = insert_by_key(t, x);
        assert forall|i: int, j: int| 0 <= i <= j < r.push(last).len() implies sort_key(
            #[trigger] r.push(last)[i].location,
        ) <= sort_key(#[trigger] r.push(last)[j].location) by {
            if j == r.len() {
                if i < r.len() {
                    assert(r.push(last)[i] == r[i]);
                }
            } else {
                assert(r.push(last)[i] == r[i]);
                assert(r.push(last)[j] == r[j]);
            }
        }
        vstd::seq_lib::to_multiset_build(r, last);
        vstd::seq_lib::to_multiset_build(t, last);
        vstd::seq_lib::to_multiset_build(t, x);
        assert(t.push(last) =~= s);
        assert(s.to_multiset().insert(x) =~= t.to_multiset().insert(last).insert(x));
        assert(r.push(last).to_multiset() =~= t.to_multiset().insert(x).insert(last));
    } else {
        vstd::seq_lib::to_multiset_build(s, x);
        assert forall|i: int, j: int| 0 <= i <= j < s.push(x).len() implies sort_key(
            #[trigger] s.push(x)[i].location,
        ) <= sort_key(#[trigger] s.push(x)[j].location) by {
            if j == s.len() {
                if i < s.len() {
                    assert(s[i] == s.push(x)[i]);
                    assert(sort_key(s[i].location) <= sort_key(s.last().location));
                }
            } else {
                assert(s[i] == s.push(x)[i]);
                assert(s[j] == s.push(x)[j]);
            }
        }
    }
}

/// Sorting by key gives a list in ascending key order.
pub proof fn lemma_sorted_by_key_is_sorted(s: Seq<ResultView>)
    ensures
        key_sorted(sorted_by_key(s)),
    decreases s.len(),
{
    if s.len() > 0 {
        lemma_sorted_by_key_is_sorted(s.drop_last());
        lemma_insert_sorted(sorted_by_key(s.drop_last()), s.last());
    }
}

/// Sorting by key keeps every result, each as often as it occurs.
pub proof fn lemma_sorted_by_key_permutes(s: Seq<ResultView>)
    ensures
        sorted_by_key(s).to_multiset() == s.to_multiset(),
    decreases s.len(),
{
    if s.len() > 0 {
        lemma_sorted_by_key_permutes(s.drop_last());
        lemma_sorted_by_key_is_sorted(s.drop_last());
        lemma_insert_sorted(sorted_by_key(s.drop_last()), s.last());
        vstd::seq_lib::to_multiset_build(s.drop_last(), s.last());
        assert(s.drop_last().push(s.last()) =~= s);
    }
}

/// The keys of file matches fit in a `usize` (beyond that, computing the key
/// overflows).
pub open spec fn key_fits(loc: MatchLocation) -> bool {
    sort_key(loc) <= usize::MAX
}

fn location_key(loc: &MatchLocation) -> (k: usize)
    requires
        key_fits(*loc),
    ensures
        k == sort_key(*loc),
{
    match loc {
        MatchLocation::BufferChars { char_start, .. } => *char_start,
        MatchLocation::FileBytes { line_num, line_byte_start, .. } => {
            assert(*line_num * 1000000 <= usize::MAX);
            *line_num * 1000000 + *line_byte_start
        },
    }
}

/// The keys that ordering one file's results computes fit in a `usize`.  A
/// list of fewer than two results is never compared, so no key of it is
/// computed.
pub open spec fn group_keys_fit(g: Seq<ResultView>) -> bool {
    g.len() >= 2 ==> forall|i: int| 0 <= i < g.len() ==> key_fits(#[trigger] g[i].location)
}

/// `rs` ordered by key (a stable insertion sort).
pub fn sort_by_key(rs: &Vec<SearchResult>) -> (out: Vec<SearchResult>)
    requires
        group_keys_fit(results_view(rs@)),
    ensures
        results_view(out@) == sorted_by_key(results_view(rs@)),
{
    let ghost v = results_view(rs@);
    let mut out: Vec<SearchResult> = Vec::new();
    if rs.len() < 2 {
        if rs.len() == 1 {
            out.push(rs[0].clone());
        }
        proof {
            if v.len() == 1 {
                assert(v.drop_last() =~= Seq::<ResultView>::empty());
                assert(sorted_by_key(v.drop_last()) == Seq::<ResultView>::empty());
                assert(insert_by_key(Seq::<ResultView>::empty(), v.last()) == Seq::<
                    ResultView,
                >::empty().push(v.last()));
            }
            assert(results_view(out@) =~= v);
        }
        return out;
    }
    assert forall|k: int| 0 <= k < rs@.len() implies key_fits(#[trigger] rs@[k].location) by {
        assert(v.len() == rs@.len());
        assert(v[k] == rs@[k]@);
        assert(key_fits(v[k].location));
    }
    let mut i: usize = 0;
    while i < rs.len()
        invariant
            i <= rs@.len(),
            v == results_view(rs@),
            forall|k: int| 0 <= k < rs@.len() ==> key_fits(#[trigger] rs@[k].location),
            results_view(out@) == sorted_by_key(v.take(i as int)),
            forall|k: int| 0 <= k < out@.len() ==> key_fits(#[trigger] out@[k].location),
        decreases rs@.len() - i,
    {
        let x = rs[i].clone();
        let kx = location_key(&x.location);
        let ghost s = results_view(out@);
        let mut j: usize = out.len();
        assert(s.take(j as int) =~= s);
        while j > 0 && kx < location_key(&out[j - 1].location)
            invariant
                j <= out@.len(),
                s == results_view(out@),
                kx == sort_key(x.location),
                i < rs@.len(),
                v == results_view(rs@),
                x@ == v[i as int],
                forall|k: int| 0 <= k < out@.len() ==> key_fits(#[trigger] out@[k].location),
                insert_pos(s, x@) == insert_pos(s.take(j as int), x@),
            decreases j,
        {
            assert(s.take(j as int).drop_last() =~= s.take(j - 1));
            assert(s.take(j as int).last() == s[j - 1]);
            j = j - 1;
        }
        proof {
            if j > 0 {
                assert(s.take(j as int).last() == s[j - 1]);
            }
            assert(s.take(0) =~= Seq::<ResultView>::empty());
            lemma_insert_pos(s, x@);
            assert(v.take(i + 1).drop_last() =~= v.take(i as int));
        }
        let ghost before = out@;
        out.insert(j, x);
        proof {
            assert(results_view(out@) =~= results_view(before).insert(j as int, x@));
            assert forall|k: int| 0 <= k < out@.len() implies key_fits(#[trigger] out@[k].location) by {
                if k < j {
                    assert(out@[k] == before[k]);
                } else if k > j {
                    assert(out@[k] == before[k - 1]);
                }
            }
        }
        i = i + 1;
    }
    proof {
        assert(v.take(rs@.len() as int) =~= v);
    }
    out
}

/// The distinct paths of the selected results, in order of first appearance.
pub open spec fn selected_paths(rs: Seq<ResultView>) -> Seq<Seq<char>>
    decreases rs.len(),
{
    if rs.len() == 0 {
        Seq::<Seq<char>>::empty()
    } else {
        let ps = selected_paths(rs.drop_last());
        let x = rs.last();
        if x.selected && !ps.contains(x.path) {
            ps.push(x.path)
        } else {
            ps
        }
    }
}

/// The selected results in the file at `path`, in list order.
pub open spec fn members_of(rs: Seq<ResultView>, path: Seq<char>) -> Seq<ResultView> {
    rs.filter(|r: ResultView| r.selected && r.path == path)
}

/// The results to replace in one file, and that file.
pub struct FileGroup {
    pub path: String,
    pub results: Vec<SearchResult>,
}

pub struct GroupView {
    pub path: Seq<char>,
    pub results: Seq<ResultView>,
}

impl View for FileGroup {
    type V = GroupView;

    open spec fn view(&self) -> GroupView {
        GroupView { path: self.path@, results: results_view(self.results@) }
    }
}

/// The selected results, one group per file in order of first appearance,
/// each group ordered by key.
pub open spec fn groups_of(rs: Seq<ResultView>) -> Seq<GroupView> {
    selected_paths(rs).map_values(
        |p: Seq<char>| GroupView { path: p, results: sorted_by_key(members_of(rs, p)) },
    )
}

/// Whether `path` is among the strings of `ps`.
fn contains_path(ps: &Vec<String>, path: &String) -> (b: bool)
    ensures
        b == ps@.map_values(|s: String| s@).contains(path@),
{
    let ghost pv = ps@.map_values(|s: String| s@);
    let mut i: usize = 0;
    while i < ps.len()
        invariant
            i <= ps@.len(),
            pv == ps@.map_values(|s: String| s@),
            forall|k: int| 0 <= k < i ==> pv[k] != path@,
        decreases ps@.len() - i,
    {
        if ps[i] == *path {
            assert(pv[i as int] == path@);
            return true;
        }
        i = i + 1;
    }
    false
}

fn paths_of_selected(rs: &Vec<SearchResult>) -> (ps: Vec<String>)
    ensures
        ps@.map_values(|s: String| s@) == selected_paths(results_view(rs@)),
{
    let ghost v = results_view(rs@);
    let mut ps: Vec<String> = Vec::new();
    let mut i: usize = 0;
    while i < rs.len()
        invariant
            i <= rs@.len(),
            v == results_view(rs@),
            ps@.map_values(|s: String| s@) == selected_paths(v.take(i as int)),
        decreases rs@.len() - i,
    {
        proof {
            assert(v.take(i + 1).drop_last() =~= v.take(i as int));
            assert(v.take(i + 1).last() == rs@[i as int]@);
        }
        if rs[i].selected && !contains_path(&ps, &rs[i].path) {
            let ghost before = ps@;
            ps.push(rs[i].path.clone());
            proof {
                assert(ps@.map_values(|s: String| s@) =~= before.map_values(|s: String| s@).push(
                    rs@[i as int].path@,
                ));
            }
        }
        i = i + 1;
    }
    proof {
        assert(v.take(rs@.len() as int) =~= v);
    }
    ps
}

fn members_on(rs: &Vec<SearchResult>, path: &String) -> (ms: Vec<SearchResult>)
    ensures
        results_view(ms@) == members_of(results_view(rs@), path@),
{
    let ghost v = results_view(rs@);
    let ghost pred = |r: ResultView| r.selected && r.path == path@;
    let mut ms: Vec<SearchResult> = Vec::new();
    let mut i: usize = 0;
    while i < rs.len()
        invariant
            i <= rs@.len(),
            v == results_view(rs@),
            pred == (|r: ResultView| r.selected && r.path == path@),
            results_view(ms@) == v.take(i as int).filter(pred),
        decreases rs@.len() - i,
    {
        proof {
            assert(v.take(i + 1) =~= v.take(i as int).push(v[i as int]));
            v.take(i as int).lemma_filter_push(v[i as int], pred);
        }
        if rs[i].selected && rs[i].path == *path {
            let ghost before = ms@;
            ms.push(rs[i].clone());
            proof {
                assert(results_view(ms@) =~= results_view(before).push(rs@[i as int]@));
            }
        }
        i = i + 1;
    }
    proof {
        assert(v.take(rs@.len() as int) =~= v);
    }
    ms
}

/// The keys that ordering every file's selected results computes fit in a
/// `usize`.
pub open spec fn keys_fit(rs: Seq<ResultView>) -> bool {
    forall|k: int|
        0 <= k < selected_paths(rs).len() ==> group_keys_fit(
            members_of(rs, #[trigger] selected_paths(rs)[k]),
        )
}

fn group_fits(ms: &Vec<SearchResult>) -> (b: bool)
    ensures
        b == group_keys_fit(results_view(ms@)),
{
    if ms.len() < 2 {
        return true;
    }
    let mut i: usize = 0;
    while i < ms.len()
        invariant
            2 <= ms@.len(),
            i <= ms@.len(),
            results_view(ms@).len() == ms@.len(),
            forall|k: int| 0 <= k < i ==> key_fits(#[trigger] results_view(ms@)[k].location),
        decreases ms@.len() - i,
    {
        assert(results_view(ms@)[i as int] == ms@[i as int]@);
        match ms[i].location {
            MatchLocation::FileBytes { line_num, line_byte_start, .. } => {
                match line_num.checked_mul(1000000) {
                    Some(m) => {
                        if m.checked_add(line_byte_start).is_none() {
                            assert(!key_fits(results_view(ms@)[i as int].location));
                            return false;
                        }
                    },
                    None => {
                        assert(line_num * 1000000 > usize::MAX);
                        assert(!key_fits(results_view(ms@)[i as int].location));
                        return false;
                    },
                }
            },
            _ => {},
        }
        i = i + 1;
    }
    true
}

/// Whether the keys that ordering each file's selected results computes fit.
pub(crate) fn all_keys_fit(rs: &Vec<SearchResult>) -> (b: bool)
    ensures
        b == keys_fit(results_view(rs@)),
{
    let ghost v = results_view(rs@);
    let paths = paths_of_selected(rs);
    let ghost pv = paths@.map_values(|s: String| s@);
    let mut i: usize = 0;
    while i < paths.len()
        invariant
            i <= paths@.len(),
            v == results_view(rs@),
            pv == paths@.map_values(|s: String| s@),
            pv == selected_paths(v),
            forall|k: int| 0 <= k < i ==> group_keys_fit(members_of(v, #[trigger] pv[k])),
        decreases paths@.len() - i,
    {
        let members = members_on(rs, &paths[i]);
        assert(pv[i as int] == paths@[i as int]@);
        if !group_fits(&members) {
            return false;
        }
        i = i + 1;
    }
    true
}

/// The selected results of `rs` grouped by file and ordered by key within
/// each file.
pub fn group_selected(rs: &Vec<SearchResult>) -> (gs: Vec<FileGroup>)
    requires
        keys_fit(results_view(rs@)),
    ensures
        gs@.map_values(|g: FileGroup| g@) == groups_of(results_view(rs@)),
{
    let ghost v = results_view(rs@);
    let paths = paths_of_selected(rs);
    let ghost pv = paths@.map_values(|s: String| s@);
    let mut gs: Vec<FileGroup> = Vec::new();
    let mut i: usize = 0;
    while i < paths.len()
        invariant
            i <= paths@.len(),
            v == results_view(rs@),
            pv == paths@.map_values(|s: String| s@),
            pv == selected_paths(v),
            keys_fit(v),
            gs@.len() == i,
            forall|k: int|
                0 <= k < i ==> #[trigger] gs@[k]@ == (GroupView {
                    path: pv[k],
                    results: sorted_by_key(members_of(v, pv[k])),
                }),
        decreases paths@.len() - i,
    {
        let members = members_on(rs, &paths[i]);
        assert(pv[i as int] == paths@[i as int]@);
        let sorted = sort_by_key(&members);
        gs.push(FileGroup { path: paths[i].clone(), results: sorted });
        i = i + 1;
    }
    proof {
        assert(gs@.map_values(|g: FileGroup| g@) =~= groups_of(v));
    }
    gs
}

} // verus!
