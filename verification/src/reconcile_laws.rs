//! What holds of the alignment rules on every input.

use crate::emby::ItemKind;
use crate::reconcile::{
    begins_after, comparable, consults_seasons, dan_sum, em_sum, encoded, ends_after,
    first_begin, last_season, listed, merge_case, merge_scan, resolved_id, resolved_pick,
    shifted_pick, tv_pick, Anime, ResolveError,
};
use vstd::prelude::*;

verus! {

/// Where the catalog has one entry for each season of a library that
/// starts at season one, and both count the same episodes up to every
/// season, each season `s` is found in entry `s - 1`, with the episode
/// number unchanged.
pub proof fn lemma_aligned_seasons_pick_own_entry(
    a: Seq<Anime>,
    b: Seq<(u64, u64)>,
    s: int,
    e: int,
)
    requires
        b.len() > 0,
        b[0].0 == 1,
        a.len() == b.len(),
        forall|k: int| 0 <= k <= a.len() ==> dan_sum(a, k) == em_sum(b, k),
        1 <= s <= a.len(),
    ensures
        tv_pick(a, b, s, e) == Ok::<(int, int), ResolveError>((s - 1, e)),
        resolved_id(ItemKind::TvSeries, s, e, a, b) == encoded(a[s - 1].anime_id as int, e),
        0 <= e < 10000 && a[s - 1].anime_id * 10000 + e <= usize::MAX ==> resolved_id(
            ItemKind::TvSeries,
            s,
            e,
            a,
            b,
        ) == Ok::<usize, ResolveError>((a[s - 1].anime_id * 10000 + e) as usize),
{
}

/// Where the library's list does not start at season one, the season
/// asked for is the last one listed and the catalog has entries beyond
/// `s`, the season is found in entry `s` if that entry has the season's
/// number of episodes, unless one of the rules before applies.
pub proof fn lemma_shifted_season_is_next_entry(
    a: Seq<Anime>,
    b: Seq<(u64, u64)>,
    s: int,
    e: int,
)
    requires
        b.len() > 0,
        b[0].0 != 1,
        s == last_season(b).0,
        a.len() > s,
        !(comparable(a, b, s) && dan_sum(a, s) == em_sum(b, s)),
        a[s].episode_count == last_season(b).1,
    ensures
        tv_pick(a, b, s, e) == Ok::<(int, int), ResolveError>((s, e)),
        resolved_id(ItemKind::TvSeries, s, e, a, b) == encoded(a[s].anime_id as int, e),
        0 <= e < 10000 && a[s].anime_id * 10000 + e <= usize::MAX ==> resolved_id(
            ItemKind::TvSeries,
            s,
            e,
            a,
            b,
        ) == Ok::<usize, ResolveError>((a[s].anime_id * 10000 + e) as usize),
{
}

/// Under the same conditions, where entry `s` and the entry before it
/// have the season's number of episodes between them, the episode is found
/// in the first of the two, or, counted on, in the second.
pub proof fn lemma_shifted_season_in_two_entries(
    a: Seq<Anime>,
    b: Seq<(u64, u64)>,
    s: int,
    e: int,
)
    requires
        b.len() > 0,
        b[0].0 != 1,
        s == last_season(b).0,
        a.len() > s,
        !(comparable(a, b, s) && dan_sum(a, s) == em_sum(b, s)),
        a[s].episode_count != last_season(b).1,
        a[s].episode_count + a[s - 1].episode_count == last_season(b).1,
    ensures
        tv_pick(a, b, s, e) == if e <= a[s - 1].episode_count {
            Ok::<(int, int), ResolveError>((s - 1, e))
        } else {
            Ok::<(int, int), ResolveError>((s, e - a[s - 1].episode_count))
        },
{
}

/// Where the library's list does not start at season one, a season other
/// than the last one listed cannot be told, unless one of the rules before
/// applies.
pub proof fn lemma_shifted_library_needs_last_season(
    a: Seq<Anime>,
    b: Seq<(u64, u64)>,
    s: int,
    e: int,
)
    requires
        b.len() > 0,
        b[0].0 != 1,
        a.len() != last_season(b).0,
        !(comparable(a, b, s) && dan_sum(a, s) == em_sum(b, s)),
        s != last_season(b).0 || a.len() < last_season(b).0,
    ensures
        tv_pick(a, b, s, e) == Err::<(int, int), ResolveError>(ResolveError::NeedMoreInfo),
{
}

/// The first beginning found from `x0` on is no later than any beginning
/// `x` in that range, and is itself a beginning.
pub proof fn lemma_first_begin_least(
    a: Seq<Anime>,
    b: Seq<(u64, u64)>,
    s: int,
    i: int,
    x0: int,
    x: int,
)
    requires
        0 <= x0 <= x <= i,
        begins_after(a, b, s, x),
    ensures
        x0 <= first_begin(a, b, s, i, x0) <= x,
        begins_after(a, b, s, first_begin(a, b, s, i, x0)),
        forall|y: int| x0 <= y < first_begin(a, b, s, i, x0) ==> !begins_after(a, b, s, y),
    decreases x - x0,
{
    if !begins_after(a, b, s, x0) {
        lemma_first_begin_least(a, b, s, i, x0 + 1, x);
    }
}

/// Where no beginning lies between `x0` and `i`, none is found.
pub proof fn lemma_first_begin_none(a: Seq<Anime>, b: Seq<(u64, u64)>, s: int, i: int, x0: int)
    requires
        0 <= x0,
        forall|y: int| x0 <= y <= i ==> !begins_after(a, b, s, y),
    ensures
        first_begin(a, b, s, i, x0) > i,
    decreases i + 1 - x0,
{
    if x0 <= i {
        lemma_first_begin_none(a, b, s, i, x0 + 1);
    }
}

/// Whether season `s` can be read as the entries from `s - 1 + x` to
/// `s - 1 + i`.
pub open spec fn boundary_pair(a: Seq<Anime>, b: Seq<(u64, u64)>, s: int, i: int, x: int) -> bool {
    0 <= x <= i && ends_after(a, b, s, i) && begins_after(a, b, s, x)
}

/// The scan decides by the boundary pair with the least end and, for that
/// end, the least beginning.
pub proof fn lemma_merge_scan_takes_first_pair(
    a: Seq<Anime>,
    b: Seq<(u64, u64)>,
    s: int,
    e: int,
    i0: int,
    offset: int,
    i: int,
    x: int,
)
    requires
        0 <= i0 <= i <= offset,
        boundary_pair(a, b, s, i, x),
        forall|j: int, y: int| i0 <= j < i ==> !boundary_pair(a, b, s, j, y),
        forall|y: int| 0 <= y < x ==> !begins_after(a, b, s, y),
    ensures
        merge_scan(a, b, s, e, i0, offset) == merge_case(a, s, e, i, x),
    decreases i - i0,
{
    if i0 < i {
        if ends_after(a, b, s, i0) {
            assert forall|y: int| 0 <= y <= i0 implies !begins_after(a, b, s, y) by {
                assert(!boundary_pair(a, b, s, i0, y));
            }
            lemma_first_begin_none(a, b, s, i0, 0);
        }
        lemma_merge_scan_takes_first_pair(a, b, s, e, i0 + 1, offset, i, x);
    } else {
        lemma_first_begin_least(a, b, s, i, 0, x);
    }
}

/// Without a boundary pair the scan finds nothing.
pub proof fn lemma_merge_scan_without_pair(
    a: Seq<Anime>,
    b: Seq<(u64, u64)>,
    s: int,
    e: int,
    i0: int,
    offset: int,
)
    requires
        0 <= i0,
        forall|j: int, y: int| i0 <= j <= offset ==> !boundary_pair(a, b, s, j, y),
    ensures
        merge_scan(a, b, s, e, i0, offset) == Err::<(int, int), ResolveError>(
            ResolveError::NoMatch,
        ),
    decreases offset + 1 - i0,
{
    if i0 <= offset {
        if ends_after(a, b, s, i0) {
            assert forall|y: int| 0 <= y <= i0 implies !begins_after(a, b, s, y) by {
                assert(!boundary_pair(a, b, s, i0, y));
            }
            lemma_first_begin_none(a, b, s, i0, 0);
        }
        lemma_merge_scan_without_pair(a, b, s, e, i0 + 1, offset);
    }
}

/// Two catalogs with the same first `n` entries count the same episodes in
/// every prefix of at most `n` entries.
pub proof fn lemma_dan_sum_of_common_prefix(a1: Seq<Anime>, a2: Seq<Anime>, n: int, k: int)
    requires
        forall|j: int| 0 <= j < n ==> a1[j] == a2[j],
        k <= n,
    ensures
        dan_sum(a1, k) == dan_sum(a2, k),
    decreases k,
{
    if k > 0 {
        lemma_dan_sum_of_common_prefix(a1, a2, n, k - 1);
    }
}

proof fn lemma_first_begin_of_common_prefix(
    a1: Seq<Anime>,
    a2: Seq<Anime>,
    b: Seq<(u64, u64)>,
    s: int,
    n: int,
    i: int,
    x: int,
)
    requires
        forall|j: int| 0 <= j < n ==> a1[j] == a2[j],
        s + i <= n,
    ensures
        first_begin(a1, b, s, i, x) == first_begin(a2, b, s, i, x),
    decreases i + 1 - x,
{
    if x <= i {
        lemma_dan_sum_of_common_prefix(a1, a2, n, s - 1 + x);
        lemma_first_begin_of_common_prefix(a1, a2, b, s, n, i, x + 1);
    }
}

proof fn lemma_merge_scan_of_common_prefix(
    a1: Seq<Anime>,
    a2: Seq<Anime>,
    b: Seq<(u64, u64)>,
    s: int,
    e: int,
    i0: int,
    offset: int,
    i: int,
    x: int,
)
    requires
        a1.len() == a2.len(),
        1 <= s,
        0 <= i0 <= i <= offset,
        boundary_pair(a1, b, s, i, x),
        s + i <= a1.len(),
        forall|j: int| 0 <= j < s + i ==> a1[j] == a2[j],
    ensures
        merge_scan(a1, b, s, e, i0, offset) == merge_scan(a2, b, s, e, i0, offset),
        match merge_scan(a1, b, s, e, i0, offset) {
            Ok((index, _)) => 0 <= index < s + i,
            Err(_) => true,
        },
    decreases i - i0,
{
    let n = s + i;
    lemma_dan_sum_of_common_prefix(a1, a2, n, s + i0);
    lemma_first_begin_of_common_prefix(a1, a2, b, s, n, i0, 0);
    let found = first_begin(a1, b, s, i0, 0);
    if ends_after(a1, b, s, i0) && found <= i0 {
        lemma_first_begin_nonneg(a1, b, s, i0, 0);
    } else if i0 == i {
        lemma_first_begin_least(a1, b, s, i, 0, x);
    } else {
        lemma_merge_scan_of_common_prefix(a1, a2, b, s, e, i0 + 1, offset, i, x);
    }
}

proof fn lemma_first_begin_nonneg(a: Seq<Anime>, b: Seq<(u64, u64)>, s: int, i: int, x0: int)
    requires
        0 <= x0 <= i + 1,
    ensures
        first_begin(a, b, s, i, x0) >= x0,
    decreases i + 1 - x0,
{
    if x0 <= i && !begins_after(a, b, s, x0) {
        lemma_first_begin_nonneg(a, b, s, i, x0 + 1);
    }
}

/// Where season `s` can be read off the first `s + i` catalog entries as a
/// boundary pair, the identifier depends on the catalog only through those
/// entries, its length and its total number of episodes.
pub proof fn lemma_merge_depends_on_scanned_prefix(
    kind: ItemKind,
    a1: Seq<Anime>,
    a2: Seq<Anime>,
    b: Seq<(u64, u64)>,
    s: int,
    e: int,
    i: int,
    x: int,
)
    requires
        consults_seasons(kind, a1),
        a1.len() > b.len(),
        listed(b, s),
        i <= a1.len() - b.len(),
        boundary_pair(a1, b, s, i, x),
        a2.len() == a1.len(),
        forall|j: int| 0 <= j < s + i ==> a1[j] == a2[j],
        dan_sum(a1, a1.len() as int) == dan_sum(a2, a2.len() as int),
    ensures
        resolved_pick(kind, s, e, a1, b) == resolved_pick(kind, s, e, a2, b),
        resolved_id(kind, s, e, a1, b) == resolved_id(kind, s, e, a2, b),
{
    let n = s + i;
    lemma_dan_sum_of_common_prefix(a1, a2, n, s);
    if dan_sum(a1, s) != em_sum(b, s) {
        assert(i >= 1);
        lemma_merge_scan_of_common_prefix(a1, a2, b, s, e, 0, a1.len() - b.len(), i, x);
    }
}

/// Leaving out entry `j` lowers the sum of every prefix that holds it by
/// that entry's count, and leaves the shorter prefixes as they are.
pub proof fn lemma_dan_sum_remove(list: Seq<Anime>, j: int, k: int)
    requires
        0 <= j < list.len(),
        0 <= k <= list.len(),
    ensures
        k <= j ==> dan_sum(list, k) == dan_sum(list.remove(j), k),
        k > j ==> dan_sum(list, k) == dan_sum(list.remove(j), k - 1) + list[j].episode_count,
    decreases k,
{
    if k > 0 {
        lemma_dan_sum_remove(list, j, k - 1);
    }
}

/// The total number of episodes does not depend on the order of the entries.
pub proof fn lemma_dan_sum_of_reordering(p: Seq<Anime>, q: Seq<Anime>)
    requires
        p.to_multiset() == q.to_multiset(),
    ensures
        p.len() == q.len(),
        dan_sum(p, p.len() as int) == dan_sum(q, q.len() as int),
    decreases p.len(),
{
    vstd::seq_lib::to_multiset_len(p);
    vstd::seq_lib::to_multiset_len(q);
    if p.len() > 0 {
        let last = p.len() - 1;
        let v = p[last];
        assert(p.contains(v));
        vstd::seq_lib::to_multiset_contains(p, v);
        vstd::seq_lib::to_multiset_contains(q, v);
        let j = choose|j: int| 0 <= j < q.len() && q[j] == v;
        vstd::seq_lib::to_multiset_remove(p, last);
        vstd::seq_lib::to_multiset_remove(q, j);
        lemma_dan_sum_of_reordering(p.remove(last), q.remove(j));
        lemma_dan_sum_remove(p, last, p.len() as int);
        lemma_dan_sum_remove(q, j, q.len() as int);
    }
}

/// A prefix sum that reaches past `n` is the sum up to `n` and the sum of
/// what follows.
pub proof fn lemma_dan_sum_split(list: Seq<Anime>, n: int, k: int)
    requires
        0 <= n,
        0 <= k,
        n + k <= list.len(),
    ensures
        dan_sum(list, n + k) == dan_sum(list, n) + dan_sum(list.skip(n), k),
    decreases k,
{
    if k > 0 {
        lemma_dan_sum_split(list, n, k - 1);
    }
}

/// Where season `s` can be read off the first `s + i` catalog entries as a
/// boundary pair, putting the entries after them in another order changes
/// neither the entry picked nor the identifier.
pub proof fn lemma_merge_ignores_order_of_later_entries(
    kind: ItemKind,
    a1: Seq<Anime>,
    a2: Seq<Anime>,
    b: Seq<(u64, u64)>,
    s: int,
    e: int,
    i: int,
    x: int,
)
    requires
        consults_seasons(kind, a1),
        a1.len() > b.len(),
        listed(b, s),
        i <= a1.len() - b.len(),
        boundary_pair(a1, b, s, i, x),
        a2.len() == a1.len(),
        a1.take(s + i) == a2.take(s + i),
        a1.skip(s + i).to_multiset() == a2.skip(s + i).to_multiset(),
    ensures
        resolved_pick(kind, s, e, a1, b) == resolved_pick(kind, s, e, a2, b),
        resolved_id(kind, s, e, a1, b) == resolved_id(kind, s, e, a2, b),
{
    let n = s + i;
    assert forall|j: int| 0 <= j < n implies a1[j] == a2[j] by {
        assert(a1.take(n)[j] == a2.take(n)[j]);
    }
    lemma_dan_sum_of_common_prefix(a1, a2, n, n);
    lemma_dan_sum_of_reordering(a1.skip(n), a2.skip(n));
    lemma_dan_sum_split(a1, n, a1.len() - n);
    lemma_dan_sum_split(a2, n, a2.len() - n);
    lemma_merge_depends_on_scanned_prefix(kind, a1, a2, b, s, e, i, x);
}


/// Where the rules do not consult the library's seasons, the seasons do
/// not matter.
pub proof fn lemma_seasons_matter_only_where_consulted(
    kind: ItemKind,
    s: int,
    e: int,
    a: Seq<Anime>,
    b1: Seq<(u64, u64)>,
    b2: Seq<(u64, u64)>,
)
    requires
        !consults_seasons(kind, a),
    ensures
        resolved_id(kind, s, e, a, b1) == resolved_id(kind, s, e, a, b2),
{
}

/// A movie is the first episode of the first catalog entry.
pub proof fn lemma_movie_is_first_entry(s: int, e: int, a: Seq<Anime>, b: Seq<(u64, u64)>)
    requires
        a.len() > 0,
    ensures
        resolved_id(ItemKind::Movie, s, e, a, b) == encoded(a[0].anime_id as int, 1),
{
}

/// A special with number `e` is episode `e` of catalog entry `e - 1`,
/// where the catalog has that many entries.
pub proof fn lemma_special_is_entry_by_number(s: int, e: int, a: Seq<Anime>, b: Seq<(u64, u64)>)
    requires
        1 <= e <= a.len(),
    ensures
        resolved_id(ItemKind::Ova, s, e, a, b) == encoded(a[e - 1].anime_id as int, e),
{
}


/// Where the rules for a library that does not start at season one are
/// reached, the entries they look at exist.
pub proof fn lemma_shifted_rules_stay_within_catalog(
    a: Seq<Anime>,
    b: Seq<(u64, u64)>,
    s: int,
    e: int,
)
    requires
        b.len() > 0,
        a.len() != last_season(b).0,
        !(comparable(a, b, s) && dan_sum(a, s) == em_sum(b, s)),
    ensures
        shifted_pick(a, b, s, e) != Err::<(int, int), ResolveError>(ResolveError::BeyondBound),
{
}

} // verus!
