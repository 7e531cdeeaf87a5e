//! Aligning catalog entries with library seasons.

use crate::emby::{EpInfo, ItemKind};
use vstd::prelude::*;

verus! {

/// One catalog entry as the search returns it.
#[derive(Debug)]
pub struct Anime {
    pub anime_id: u64,
    pub episode_count: u64,
    pub anime_title: String,
}

/// The catalog's answer to a search, in the order it was given.
#[derive(Debug)]
pub struct SearchRes {
    pub animes: Vec<Anime>,
}

/// Why no episode identifier could be determined.
#[derive(Clone, Copy, Debug, PartialEq, Eq, Structural)]
pub enum ResolveError {
    /// The search returned no catalog entry.
    EmptyCatalog,
    /// There are fewer catalog entries than the special's number.
    NoMatchingOva,
    /// The library lists no season for the series.
    SeriesInfoEmpty,
    /// A season or entry position lies outside its list.
    BeyondBound,
    /// A sum of episode counts does not fit in 64 bits.
    SumOverflow,
    /// The two segmentations cannot be told apart with what is known.
    NeedMoreInfo,
    /// A boundary pair was found that spans more than three entries.
    TooManyResults,
    /// No rule applies.
    NoMatch,
    /// The identifier does not fit in a machine word.
    IdOverflow,
}

/// Number of episodes in the first `k` catalog entries.
pub open spec fn dan_sum(list: Seq<Anime>, k: int) -> int
    decreases k,
{
    if k <= 0 {
        0
    } else {
        dan_sum(list, k - 1) + list[k - 1].episode_count
    }
}

/// Number of episodes in the first `k` library seasons.
pub open spec fn em_sum(list: Seq<(u64, u64)>, k: int) -> int
    decreases k,
{
    if k <= 0 {
        0
    } else {
        em_sum(list, k - 1) + list[k - 1].1
    }
}

/// A sum of `k` counts is at most `k` times the largest count.
pub proof fn lemma_dan_sum_bound(list: Seq<Anime>, k: int)
    requires
        0 <= k <= list.len(),
    ensures
        0 <= dan_sum(list, k) <= k * u64::MAX,
    decreases k,
{
    if k > 0 {
        lemma_dan_sum_bound(list, k - 1);
        assert((k - 1) * u64::MAX + u64::MAX == k * u64::MAX) by (nonlinear_arith);
    }
}

/// A sum of `k` counts is at most `k` times the largest count.
pub proof fn lemma_em_sum_bound(list: Seq<(u64, u64)>, k: int)
    requires
        0 <= k <= list.len(),
    ensures
        0 <= em_sum(list, k) <= k * u64::MAX,
    decreases k,
{
    if k > 0 {
        lemma_em_sum_bound(list, k - 1);
        assert((k - 1) * u64::MAX + u64::MAX == k * u64::MAX) by (nonlinear_arith);
    }
}

/// Episodes in the first `k` catalog entries, without a width limit.
fn dan_total(list: &[Anime], k: usize) -> (total: u128)
    requires
        k <= list@.len(),
    ensures
        total == dan_sum(list@, k as int),
{
    let mut total: u128 = 0;
    let mut i: usize = 0;
    while i < k
        invariant
            i <= k <= list@.len(),
            total == dan_sum(list@, i as int),
        decreases k - i,
    {
        proof {
            lemma_dan_sum_bound(list@, i as int);
            assert(i * u64::MAX + u64::MAX <= u128::MAX) by (nonlinear_arith)
                requires
                    i <= u64::MAX,
            ;
        }
        total = total + list[i].episode_count as u128;
        i = i + 1;
    }
    total
}

/// Episodes in the first `k` library seasons, without a width limit.
fn em_total(list: &[(u64, u64)], k: usize) -> (total: u128)
    requires
        k <= list@.len(),
    ensures
        total == em_sum(list@, k as int),
{
    let mut total: u128 = 0;
    let mut i: usize = 0;
    while i < k
        invariant
            i <= k <= list@.len(),
            total == em_sum(list@, i as int),
        decreases k - i,
    {
        proof {
            lemma_em_sum_bound(list@, i as int);
            assert(i * u64::MAX + u64::MAX <= u128::MAX) by (nonlinear_arith)
                requires
                    i <= u64::MAX,
            ;
        }
        total = total + list[i].1 as u128;
        i = i + 1;
    }
    total
}

/// What a sum over the first `index` items comes to, given their total.
pub open spec fn checked_sum(len: nat, index: int, total: int) -> Result<u64, ResolveError> {
    if index < 0 || index > len {
        Err(ResolveError::BeyondBound)
    } else if total > u64::MAX {
        Err(ResolveError::SumOverflow)
    } else {
        Ok(total as u64)
    }
}

/// Sum of the episode counts of the first `index` catalog entries.
pub fn get_dan_sum(list: &[Anime], index: i64) -> (sum: Result<u64, ResolveError>)
    ensures
        sum == checked_sum(list@.len(), index as int, dan_sum(list@, index as int)),
{
    if index < 0 || index as u64 > list.len() as u64 {
        return Err(ResolveError::BeyondBound);
    }
    let total: u128 = dan_total(list, index as usize);
    if total > u64::MAX as u128 {
        Err(ResolveError::SumOverflow)
    } else {
        Ok(total as u64)
    }
}

/// Sum of the episode counts of the first `index` library seasons.
pub fn get_em_sum(list: &[(u64, u64)], index: i64) -> (sum: Result<u64, ResolveError>)
    ensures
        sum == checked_sum(list@.len(), index as int, em_sum(list@, index as int)),
{
    if index < 0 || index as u64 > list.len() as u64 {
        return Err(ResolveError::BeyondBound);
    }
    let total: u128 = em_total(list, index as usize);
    if total > u64::MAX as u128 {
        Err(ResolveError::SumOverflow)
    } else {
        Ok(total as u64)
    }
}


/// The power of ten by which a catalog id is shifted to make room for a
/// local episode number: four digits, or as many as the number has.
pub open spec fn pad_base(local: int) -> int
    decreases local,
{
    if local < 10000 {
        10000
    } else {
        10 * pad_base(local / 10)
    }
}

/// The decimal digits of `anime_id` followed by those of `local`, the latter
/// padded with zeros to four digits, read as one number.
pub open spec fn episode_code(anime_id: int, local: int) -> int {
    anime_id * pad_base(local) + local
}

/// The identifier of episode `local` of entry `anime_id`, where it fits.
pub open spec fn encoded(anime_id: int, local: int) -> Result<usize, ResolveError> {
    if episode_code(anime_id, local) <= usize::MAX {
        Ok(episode_code(anime_id, local) as usize)
    } else {
        Err(ResolveError::IdOverflow)
    }
}

/// Below ten thousand the shift is exactly four digits.
pub proof fn lemma_episode_code_small(anime_id: int, local: int)
    requires
        0 <= local < 10000,
    ensures
        episode_code(anime_id, local) == anime_id * 10000 + local,
{
}

/// The shift is a positive power of ten, larger than the number it makes room for.
pub proof fn lemma_pad_base_bounds(local: int)
    requires
        0 <= local,
    ensures
        pad_base(local) >= 10000,
        local < pad_base(local),
    decreases local,
{
    if local >= 10000 {
        lemma_pad_base_bounds(local / 10);
    }
}

fn encode_wide(anime_id: u64, local: u128) -> (id: Result<usize, ResolveError>)
    ensures
        id == encoded(anime_id as int, local as int),
{
    proof {
        lemma_pad_base_bounds(local as int);
        assert(anime_id * pad_base(local as int) >= 0) by (nonlinear_arith)
            requires
                anime_id >= 0,
                pad_base(local as int) >= 0,
        ;
    }
    if local > usize::MAX as u128 {
        return Err(ResolveError::IdOverflow);
    }
    let mut rest: u128 = local;
    let mut base: u128 = 10000;
    let ghost mut scale: int = 1;
    while rest >= 10000
        invariant
            base == 10000 * scale,
            scale >= 1,
            scale * rest <= local,
            local <= usize::MAX,
            pad_base(local as int) == scale * pad_base(rest as int),
        decreases rest,
    {
        proof {
            assert(10 * scale * (rest / 10) <= scale * rest) by (nonlinear_arith)
                requires
                    scale >= 1,
                    rest >= 0,
            ;
            assert(scale * (10 * pad_base(rest as int / 10)) == (10 * scale) * pad_base(
                rest as int / 10,
            )) by (nonlinear_arith);
            assert(10000 * scale <= local) by (nonlinear_arith)
                requires
                    scale * rest <= local,
                    rest >= 10000,
                    scale >= 1,
            ;
        }
        rest = rest / 10;
        base = base * 10;
        proof {
            scale = scale * 10;
        }
    }
    assert(base == pad_base(local as int));
    let room: u128 = (usize::MAX as u128 - local) / base;
    proof {
        let m = usize::MAX as int - local as int;
        assert(anime_id <= m / (base as int) <==> anime_id * base <= m) by (nonlinear_arith)
            requires
                base > 0,
                m >= 0,
                anime_id >= 0,
        ;
        assert(anime_id <= room ==> anime_id * base <= m);
    }
    if anime_id as u128 > room {
        Err(ResolveError::IdOverflow)
    } else {
        Ok((anime_id as u128 * base + local) as usize)
    }
}

/// The number under which the catalog knows episode `local` of entry
/// `anime_id`.
pub fn encode_episode_id(anime_id: u64, local: u64) -> (id: Result<usize, ResolveError>)
    ensures
        id == encoded(anime_id as int, local as int),
        local < 10000 && anime_id * 10000 + local <= usize::MAX ==> id == Ok::<usize, ResolveError>(
            (anime_id * 10000 + local) as usize,
        ),
{
    encode_wide(anime_id, local as u128)
}


/// A choice of catalog entry and of an episode number within it, as
/// `(position, local episode)`, or the reason why none was made.
pub type Choice = Result<(int, int), ResolveError>;

/// Entry `index` with local episode `local`, where the catalog has such an entry.
pub open spec fn pick(a: Seq<Anime>, index: int, local: int) -> Choice {
    if 0 <= index < a.len() {
        Ok((index, local))
    } else {
        Err(ResolveError::BeyondBound)
    }
}

/// The season the library lists last.
pub open spec fn last_season(b: Seq<(u64, u64)>) -> (u64, u64) {
    b[b.len() - 1]
}

/// The library's numbering does not start at season one: the season asked
/// for must be the last one listed, and is looked for one entry further on,
/// alone or together with the entry before it.
pub open spec fn shifted_pick(a: Seq<Anime>, b: Seq<(u64, u64)>, s: int, e: int) -> Choice {
    let last = last_season(b);
    if s != last.0 || a.len() < last.0 {
        Err(ResolveError::NeedMoreInfo)
    } else if s < 1 || s >= a.len() {
        Err(ResolveError::BeyondBound)
    } else if a[s].episode_count == last.1 {
        pick(a, s, e)
    } else if a[s].episode_count + a[s - 1].episode_count == last.1 {
        if e <= a[s - 1].episode_count {
            pick(a, s - 1, e)
        } else {
            pick(a, s, e - a[s - 1].episode_count)
        }
    } else {
        Err(ResolveError::NeedMoreInfo)
    }
}

/// Season `s` ends after `s + i` catalog entries.
pub open spec fn ends_after(a: Seq<Anime>, b: Seq<(u64, u64)>, s: int, i: int) -> bool {
    dan_sum(a, s + i) == em_sum(b, s)
}

/// Season `s` begins after `s - 1 + x` catalog entries.
pub open spec fn begins_after(a: Seq<Anime>, b: Seq<(u64, u64)>, s: int, x: int) -> bool {
    dan_sum(a, s - 1 + x) == em_sum(b, s - 1)
}

/// The least `x' >= x` up to `i` at which season `s` begins, or `i + 1`.
pub open spec fn first_begin(a: Seq<Anime>, b: Seq<(u64, u64)>, s: int, i: int, x: int) -> int
    decreases i + 1 - x,
{
    if x > i {
        i + 1
    } else if begins_after(a, b, s, x) {
        x
    } else {
        first_begin(a, b, s, i, x + 1)
    }
}

/// Season `s` spans the entries from `s - 1 + x` to `s - 1 + i`: one, two or
/// three of them, among which the episode is found by counting.
pub open spec fn merge_case(a: Seq<Anime>, s: int, e: int, i: int, x: int) -> Choice {
    let first = a[s - 1 + x].episode_count;
    let second = a[s + x].episode_count;
    if i == x {
        pick(a, s - 1 + i, e)
    } else if i == x + 1 {
        if e <= first {
            pick(a, s - 1 + x, e)
        } else {
            pick(a, s + x, e - first)
        }
    } else if i == x + 2 {
        if e <= first {
            pick(a, s - 1 + x, e)
        } else if e <= first + second {
            pick(a, s + x, e - first)
        } else {
            pick(a, s + x + 1, e - first - second)
        }
    } else {
        Err(ResolveError::TooManyResults)
    }
}

/// The catalog has more entries than the library has seasons: the first
/// end `i' >= i` of season `s`, up to `offset`, for which a beginning is
/// found decides.
pub open spec fn merge_scan(
    a: Seq<Anime>,
    b: Seq<(u64, u64)>,
    s: int,
    e: int,
    i: int,
    offset: int,
) -> Choice
    decreases offset + 1 - i,
{
    if i > offset {
        Err(ResolveError::NoMatch)
    } else if ends_after(a, b, s, i) && first_begin(a, b, s, i, 0) <= i {
        merge_case(a, s, e, i, first_begin(a, b, s, i, 0))
    } else {
        merge_scan(a, b, s, e, i + 1, offset)
    }
}

/// What the first `i` catalog entries say when the catalog has fewer
/// entries than the library has seasons, if they say anything.
pub open spec fn split_step(a: Seq<Anime>, b: Seq<(u64, u64)>, s: int, e: int, i: int) -> Option<
    Choice,
> {
    if dan_sum(a, i) == em_sum(b, s) {
        if dan_sum(a, i - 1) == em_sum(b, s - 1) {
            Some(pick(a, i, e))
        } else if s < 2 {
            Some(Err(ResolveError::BeyondBound))
        } else if dan_sum(a, i - 1) == em_sum(b, s - 2) {
            Some(pick(a, i, e + b[s - 2].1))
        } else {
            None
        }
    } else if dan_sum(a, i - 1) == em_sum(b, s - 1) {
        if s + 1 > b.len() {
            Some(Err(ResolveError::BeyondBound))
        } else if em_sum(b, s + 1) == dan_sum(a, i) {
            Some(pick(a, i, e))
        } else {
            None
        }
    } else {
        None
    }
}

/// The first prefix length from `i` on that says anything decides.
pub open spec fn split_scan(a: Seq<Anime>, b: Seq<(u64, u64)>, s: int, e: int, i: int) -> Choice
    decreases a.len() + 1 - i,
{
    if i > a.len() {
        Err(ResolveError::NoMatch)
    } else {
        match split_step(a, b, s, e, i) {
            Some(choice) => choice,
            None => split_scan(a, b, s, e, i + 1),
        }
    }
}

/// Whether both lists have `s` items or more, so that the episodes of
/// their first `s` items can be compared.
pub open spec fn comparable(a: Seq<Anime>, b: Seq<(u64, u64)>, s: int) -> bool {
    0 <= s <= a.len() && s <= b.len()
}

/// Whether the library lists a season `s`: the scans for the boundaries
/// of a season ask for the episodes of its first `s` seasons.
pub open spec fn listed(b: Seq<(u64, u64)>, s: int) -> bool {
    1 <= s <= b.len()
}

/// The rules for an episode `e` of season `s` of a series, in their
/// order: as many entries as the last season's index; the same episodes in
/// the first `s` items of both lists; a library that does not start at
/// season one; and, where both lists hold the same episodes in all, a
/// season spread over several entries or several seasons in one entry.
pub open spec fn tv_pick(a: Seq<Anime>, b: Seq<(u64, u64)>, s: int, e: int) -> Choice {
    if b.len() == 0 {
        Err(ResolveError::SeriesInfoEmpty)
    } else if a.len() == last_season(b).0 {
        pick(a, s - 1, e)
    } else if comparable(a, b, s) && dan_sum(a, s) == em_sum(b, s) {
        pick(a, s - 1, e)
    } else if b[0].0 != 1 {
        shifted_pick(a, b, s, e)
    } else if dan_sum(a, a.len() as int) != em_sum(b, b.len() as int) {
        Err(ResolveError::NeedMoreInfo)
    } else if a.len() > b.len() {
        if listed(b, s) {
            merge_scan(a, b, s, e, 0, a.len() - b.len())
        } else {
            Err(ResolveError::BeyondBound)
        }
    } else if a.len() < b.len() {
        if listed(b, s) {
            split_scan(a, b, s, e, 1)
        } else {
            Err(ResolveError::BeyondBound)
        }
    } else {
        Err(ResolveError::NoMatch)
    }
}

/// Whether the rules for `kind` consult the library's seasons.
pub open spec fn consults_seasons(kind: ItemKind, a: Seq<Anime>) -> bool {
    a.len() > 0 && kind != ItemKind::Ova && kind != ItemKind::Movie
}

/// The catalog entry and local episode that stand for episode `e` of
/// season `s` of an item of kind `kind`.
pub open spec fn resolved_pick(
    kind: ItemKind,
    s: int,
    e: int,
    a: Seq<Anime>,
    b: Seq<(u64, u64)>,
) -> Choice {
    if a.len() == 0 {
        Err(ResolveError::EmptyCatalog)
    } else if kind == ItemKind::Ova {
        if a.len() < e {
            Err(ResolveError::NoMatchingOva)
        } else {
            pick(a, e - 1, e)
        }
    } else if kind == ItemKind::Movie {
        Ok((0, 1))
    } else {
        tv_pick(a, b, s, e)
    }
}

/// The identifier of the episode, or why there is none.
pub open spec fn resolved_id(
    kind: ItemKind,
    s: int,
    e: int,
    a: Seq<Anime>,
    b: Seq<(u64, u64)>,
) -> Result<usize, ResolveError> {
    match resolved_pick(kind, s, e, a, b) {
        Ok((index, local)) => encoded(a[index].anime_id as int, local),
        Err(err) => Err(err),
    }
}


/// The choice that a computed position and local episode stand for.
spec fn choice_of(c: Result<(usize, u128), ResolveError>) -> Choice {
    match c {
        Ok((index, local)) => Ok((index as int, local as int)),
        Err(err) => Err(err),
    }
}

/// Whether a computed position, if there is one, lies within the catalog.
spec fn within(c: Result<(usize, u128), ResolveError>, len: nat) -> bool {
    match c {
        Ok((index, _)) => index < len,
        Err(_) => true,
    }
}

fn take(animes: &Vec<Anime>, index: usize, local: u128) -> (c: Result<(usize, u128), ResolveError>)
    ensures
        choice_of(c) == pick(animes@, index as int, local as int),
        within(c, animes@.len()),
{
    if index < animes.len() {
        Ok((index, local))
    } else {
        Err(ResolveError::BeyondBound)
    }
}

fn shifted(animes: &Vec<Anime>, seasons: &Vec<(u64, u64)>, season: i64, e: u64) -> (c: Result<
    (usize, u128),
    ResolveError,
>)
    requires
        seasons@.len() > 0,
    ensures
        choice_of(c) == shifted_pick(animes@, seasons@, season as int, e as int),
        within(c, animes@.len()),
{
    let last: (u64, u64) = seasons[seasons.len() - 1];
    if season < 0 || season as u64 != last.0 || (animes.len() as u64) < last.0 {
        return Err(ResolveError::NeedMoreInfo);
    }
    if season < 1 || season as u64 >= animes.len() as u64 {
        return Err(ResolveError::BeyondBound);
    }
    let s: usize = season as usize;
    let here: u64 = animes[s].episode_count;
    let before: u64 = animes[s - 1].episode_count;
    if here == last.1 {
        take(animes, s, e as u128)
    } else if here as u128 + before as u128 == last.1 as u128 {
        if e <= before {
            take(animes, s - 1, e as u128)
        } else {
            take(animes, s, (e - before) as u128)
        }
    } else {
        Err(ResolveError::NeedMoreInfo)
    }
}

fn merge_choice(animes: &Vec<Anime>, s: usize, e: u64, i: usize, x: usize) -> (c: Result<
    (usize, u128),
    ResolveError,
>)
    requires
        1 <= s,
        x <= i,
        s + i <= animes@.len(),
    ensures
        choice_of(c) == merge_case(animes@, s as int, e as int, i as int, x as int),
        within(c, animes@.len()),
{
    assert(s + i <= animes.len());
    if i == x {
        return take(animes, s - 1 + i, e as u128);
    }
    let first: u64 = animes[s - 1 + x].episode_count;
    let second: u64 = animes[s + x].episode_count;
    if i == x + 1 {
        if e <= first {
            take(animes, s - 1 + x, e as u128)
        } else {
            take(animes, s + x, (e - first) as u128)
        }
    } else if i == x + 2 {
        if e <= first {
            take(animes, s - 1 + x, e as u128)
        } else if e as u128 <= first as u128 + second as u128 {
            take(animes, s + x, (e - first) as u128)
        } else {
            take(animes, s + x + 1, (e - first - second) as u128)
        }
    } else {
        Err(ResolveError::TooManyResults)
    }
}

fn merged(animes: &Vec<Anime>, seasons: &Vec<(u64, u64)>, s: usize, e: u64) -> (c: Result<
    (usize, u128),
    ResolveError,
>)
    requires
        1 <= s <= seasons@.len(),
        seasons@.len() < animes@.len(),
    ensures
        choice_of(c) == merge_scan(
            animes@,
            seasons@,
            s as int,
            e as int,
            0,
            animes@.len() - seasons@.len(),
        ),
        within(c, animes@.len()),
{
    let offset: usize = animes.len() - seasons.len();
    let end: u128 = em_total(seasons.as_slice(), s);
    let begin: u128 = em_total(seasons.as_slice(), s - 1);
    let mut i: usize = 0;
    while i <= offset
        invariant
            i <= offset + 1,
            animes@.len() <= usize::MAX,
            offset == animes@.len() - seasons@.len(),
            1 <= s <= seasons@.len(),
            end == em_sum(seasons@, s as int),
            begin == em_sum(seasons@, s - 1),
            merge_scan(animes@, seasons@, s as int, e as int, 0, offset as int) == merge_scan(
                animes@,
                seasons@,
                s as int,
                e as int,
                i as int,
                offset as int,
            ),
        decreases offset + 1 - i,
    {
        if dan_total(animes.as_slice(), s + i) == end {
            let mut x: usize = 0;
            while x <= i
                invariant
                    x <= i + 1,
                    i <= offset,
                    animes@.len() <= usize::MAX,
                    offset == animes@.len() - seasons@.len(),
                    1 <= s <= seasons@.len(),
                    begin == em_sum(seasons@, s - 1),
                    ends_after(animes@, seasons@, s as int, i as int),
                    merge_scan(animes@, seasons@, s as int, e as int, 0, offset as int)
                        == merge_scan(
                        animes@,
                        seasons@,
                        s as int,
                        e as int,
                        i as int,
                        offset as int,
                    ),
                    first_begin(animes@, seasons@, s as int, i as int, 0) == first_begin(
                        animes@,
                        seasons@,
                        s as int,
                        i as int,
                        x as int,
                    ),
                decreases i + 1 - x,
            {
                if dan_total(animes.as_slice(), s - 1 + x) == begin {
                    return merge_choice(animes, s, e, i, x);
                }
                x = x + 1;
            }
        }
        i = i + 1;
    }
    Err(ResolveError::NoMatch)
}

fn split_choice(
    animes: &Vec<Anime>,
    seasons: &Vec<(u64, u64)>,
    s: usize,
    e: u64,
    i: usize,
) -> (c: Option<Result<(usize, u128), ResolveError>>)
    requires
        1 <= s <= seasons@.len(),
        1 <= i <= animes@.len(),
    ensures
        match c {
            Some(found) => split_step(animes@, seasons@, s as int, e as int, i as int) == Some(
                choice_of(found),
            ) && within(found, animes@.len()),
            None => split_step(animes@, seasons@, s as int, e as int, i as int) is None,
        },
{
    let upto: u128 = dan_total(animes.as_slice(), i);
    let before: u128 = dan_total(animes.as_slice(), i - 1);
    if upto == em_total(seasons.as_slice(), s) {
        if before == em_total(seasons.as_slice(), s - 1) {
            Some(take(animes, i, e as u128))
        } else if s < 2 {
            Some(Err(ResolveError::BeyondBound))
        } else if before == em_total(seasons.as_slice(), s - 2) {
            Some(take(animes, i, e as u128 + seasons[s - 2].1 as u128))
        } else {
            None
        }
    } else if before == em_total(seasons.as_slice(), s - 1) {
        if s >= seasons.len() {
            Some(Err(ResolveError::BeyondBound))
        } else if em_total(seasons.as_slice(), s + 1) == upto {
            Some(take(animes, i, e as u128))
        } else {
            None
        }
    } else {
        None
    }
}

fn split(animes: &Vec<Anime>, seasons: &Vec<(u64, u64)>, s: usize, e: u64) -> (c: Result<
    (usize, u128),
    ResolveError,
>)
    requires
        1 <= s <= seasons@.len(),
        animes@.len() < seasons@.len(),
    ensures
        choice_of(c) == split_scan(animes@, seasons@, s as int, e as int, 1),
        within(c, animes@.len()),
{
    assert(seasons@.len() == seasons.len());
    let mut i: usize = 1;
    while i <= animes.len()
        invariant
            1 <= i <= animes@.len() + 1,
            1 <= s <= seasons@.len(),
            animes@.len() < seasons@.len() <= usize::MAX,
            split_scan(animes@, seasons@, s as int, e as int, 1) == split_scan(
                animes@,
                seasons@,
                s as int,
                e as int,
                i as int,
            ),
        decreases animes@.len() + 1 - i,
    {
        match split_choice(animes, seasons, s, e, i) {
            Some(found) => {
                return found;
            },
            None => {},
        }
        i = i + 1;
    }
    Err(ResolveError::NoMatch)
}

fn tv_choice(animes: &Vec<Anime>, seasons: &Vec<(u64, u64)>, s: i64, e: u64) -> (c: Result<
    (usize, u128),
    ResolveError,
>)
    ensures
        choice_of(c) == tv_pick(animes@, seasons@, s as int, e as int),
        within(c, animes@.len()),
{
    if seasons.len() == 0 {
        return Err(ResolveError::SeriesInfoEmpty);
    }
    let last: (u64, u64) = seasons[seasons.len() - 1];
    if animes.len() as u64 == last.0 {
        if s < 1 || s as u64 > animes.len() as u64 {
            return Err(ResolveError::BeyondBound);
        }
        return take(animes, s as usize - 1, e as u128);
    }
    if s >= 0 && s as u64 <= animes.len() as u64 && s as u64 <= seasons.len() as u64 {
        let upto: usize = s as usize;
        if dan_total(animes.as_slice(), upto) == em_total(seasons.as_slice(), upto) {
            if upto == 0 {
                return Err(ResolveError::BeyondBound);
            }
            return take(animes, upto - 1, e as u128);
        }
    }
    if seasons[0].0 != 1 {
        return shifted(animes, seasons, s, e);
    }
    if dan_total(animes.as_slice(), animes.len()) != em_total(seasons.as_slice(), seasons.len()) {
        return Err(ResolveError::NeedMoreInfo);
    }
    if animes.len() == seasons.len() {
        return Err(ResolveError::NoMatch);
    }
    if s < 1 || s as u64 > seasons.len() as u64 {
        return Err(ResolveError::BeyondBound);
    }
    if animes.len() > seasons.len() {
        merged(animes, seasons, s as usize, e)
    } else {
        split(animes, seasons, s as usize, e)
    }
}

/// Whether resolving the item needs the library's list of seasons.
pub fn needs_series_info(ep_info: &EpInfo, animes: &Vec<Anime>) -> (needed: bool)
    ensures
        needed == consults_seasons(ep_info.kind, animes@),
{
    if animes.len() == 0 {
        return false;
    }
    match ep_info.kind {
        ItemKind::Ova => false,
        ItemKind::Movie => false,
        _ => true,
    }
}

/// Resolves the item that `ep_info` describes against the catalog entries
/// `animes`, consulting `seasons` where the rules ask for the library's
/// seasons.
pub fn get_episode_id_by_info(
    ep_info: &EpInfo,
    animes: &Vec<Anime>,
    seasons: &Vec<(u64, u64)>,
) -> (id: Result<usize, ResolveError>)
    ensures
        id == resolved_id(
            ep_info.kind,
            ep_info.item_info.sn_index as int,
            ep_info.item_info.ep_index as int,
            animes@,
            seasons@,
        ),
{
    let e: u64 = ep_info.item_info.ep_index;
    if animes.len() == 0 {
        return Err(ResolveError::EmptyCatalog);
    }
    let choice: Result<(usize, u128), ResolveError> = match ep_info.kind {
        ItemKind::Ova => {
            if (animes.len() as u64) < e {
                Err(ResolveError::NoMatchingOva)
            } else if e == 0 {
                Err(ResolveError::BeyondBound)
            } else {
                take(animes, (e - 1) as usize, e as u128)
            }
        },
        ItemKind::Movie => take(animes, 0, 1),
        _ => tv_choice(animes, seasons, ep_info.item_info.sn_index, e),
    };
    match choice {
        Ok((index, local)) => encode_wide(animes[index].anime_id, local),
        Err(err) => Err(err),
    }
}

} // verus!
