use danmaku::emby::{EpInfo, ItemInfo, ItemKind};
use danmaku::reconcile::{
    encode_episode_id, get_dan_sum, get_em_sum, get_episode_id_by_info, needs_series_info, Anime,
    ResolveError,
};

fn entry(anime_id: u64, episode_count: u64) -> Anime {
    Anime { anime_id, episode_count, anime_title: format!("title {}", anime_id) }
}

fn catalog(entries: &[(u64, u64)]) -> Vec<Anime> {
    entries.iter().map(|&(id, count)| entry(id, count)).collect()
}

fn item(kind: ItemKind, season: i64, episode: u64) -> EpInfo {
    EpInfo {
        kind,
        host: "http://media.example".to_string(),
        api_key: "key".to_string(),
        item_info: ItemInfo {
            name: "name".to_string(),
            ss_name: "series".to_string(),
            ep_index: episode,
            sn_index: season,
            ss_id: "1".to_string(),
            se_id: "2".to_string(),
            item_id: "3".to_string(),
        },
        status: true,
    }
}

fn tv(season: i64, episode: u64, a: &[(u64, u64)], b: &[(u64, u64)]) -> Result<usize, ResolveError> {
    get_episode_id_by_info(&item(ItemKind::TvSeries, season, episode), &catalog(a), &b.to_vec())
}

#[test]
fn two_seasons_two_entries_resolve_to_second_entry() {
    assert_eq!(tv(2, 5, &[(100, 12), (101, 13)], &[(1, 12), (2, 13)]), Ok(1010005));
}

#[test]
fn sums_of_prefixes() {
    let a = catalog(&[(1, 12), (2, 13), (3, 24)]);
    assert_eq!(get_dan_sum(&a, 0), Ok(0));
    assert_eq!(get_dan_sum(&a, 2), Ok(25));
    assert_eq!(get_dan_sum(&a, 3), Ok(49));
    assert_eq!(get_dan_sum(&a, 4), Err(ResolveError::BeyondBound));
    assert_eq!(get_dan_sum(&a, -1), Err(ResolveError::BeyondBound));
    let b = vec![(1u64, 12u64), (2, 13)];
    assert_eq!(get_em_sum(&b, 1), Ok(12));
    assert_eq!(get_em_sum(&b, 2), Ok(25));
    assert_eq!(get_em_sum(&b, 3), Err(ResolveError::BeyondBound));
    assert_eq!(get_em_sum(&b, -7), Err(ResolveError::BeyondBound));
}

#[test]
fn sums_that_do_not_fit() {
    let a = catalog(&[(1, u64::MAX), (2, 1)]);
    assert_eq!(get_dan_sum(&a, 1), Ok(u64::MAX));
    assert_eq!(get_dan_sum(&a, 2), Err(ResolveError::SumOverflow));
    let b = vec![(1u64, u64::MAX), (2, u64::MAX)];
    assert_eq!(get_em_sum(&b, 2), Err(ResolveError::SumOverflow));
}

#[test]
fn identifier_is_id_then_four_digits() {
    assert_eq!(encode_episode_id(101, 5), Ok(1010005));
    assert_eq!(encode_episode_id(0, 5), Ok(5));
    assert_eq!(encode_episode_id(7, 0), Ok(70000));
    assert_eq!(encode_episode_id(12, 9999), Ok(129999));
}

#[test]
fn identifier_of_long_episode_number_takes_its_digits() {
    assert_eq!(encode_episode_id(1, 12345), Ok(112345));
    assert_eq!(encode_episode_id(3, 10000), Ok(310000));
    assert_eq!(encode_episode_id(3, 100000), Ok(3100000));
}

#[test]
fn identifier_too_large() {
    assert_eq!(encode_episode_id(u64::MAX, 1), Err(ResolveError::IdOverflow));
    assert_eq!(encode_episode_id(1, u64::MAX), Err(ResolveError::IdOverflow));
}

#[test]
fn empty_catalog() {
    assert_eq!(tv(1, 1, &[], &[(1, 12)]), Err(ResolveError::EmptyCatalog));
    assert!(!needs_series_info(&item(ItemKind::TvSeries, 1, 1), &catalog(&[])));
}

#[test]
fn movie_takes_first_entry() {
    let a = catalog(&[(55, 1), (56, 1)]);
    let info = item(ItemKind::Movie, -1, 0);
    assert!(!needs_series_info(&info, &a));
    assert_eq!(get_episode_id_by_info(&info, &a, &vec![]), Ok(550001));
}

#[test]
fn ova_takes_entry_by_number() {
    let a = catalog(&[(55, 1), (56, 1), (57, 3)]);
    let info = item(ItemKind::Ova, 0, 3);
    assert!(!needs_series_info(&info, &a));
    assert_eq!(get_episode_id_by_info(&info, &a, &vec![]), Ok(570003));
    assert_eq!(
        get_episode_id_by_info(&item(ItemKind::Ova, 0, 4), &a, &vec![]),
        Err(ResolveError::NoMatchingOva)
    );
    assert_eq!(
        get_episode_id_by_info(&item(ItemKind::Ova, 0, 0), &a, &vec![]),
        Err(ResolveError::BeyondBound)
    );
}

#[test]
fn series_needs_seasons() {
    let a = catalog(&[(55, 12)]);
    assert!(needs_series_info(&item(ItemKind::TvSeries, 1, 1), &a));
    assert_eq!(tv(1, 1, &[(55, 12)], &[]), Err(ResolveError::SeriesInfoEmpty));
}

#[test]
fn equal_prefix_sums_pick_season_entry() {
    // three entries, library lists four seasons, the first two alike
    assert_eq!(
        tv(2, 3, &[(10, 12), (11, 13), (12, 30)], &[(1, 12), (2, 13), (3, 10), (4, 20)]),
        Ok(110003)
    );
}

#[test]
fn season_out_of_range() {
    assert_eq!(
        tv(5, 1, &[(10, 12), (11, 13), (12, 30)], &[(1, 12), (2, 13), (3, 10), (4, 20)]),
        Err(ResolveError::BeyondBound)
    );
    assert_eq!(
        tv(-1, 1, &[(10, 12), (11, 13), (12, 30)], &[(1, 12), (2, 13), (3, 10), (4, 20)]),
        Err(ResolveError::BeyondBound)
    );
    assert_eq!(tv(0, 1, &[(10, 12), (11, 13)], &[(1, 12), (2, 13)]), Err(ResolveError::BeyondBound));
}

#[test]
fn library_not_starting_at_one_needs_last_season() {
    // library lists seasons 2 and 3 only, asked for season 1 of 2 listed
    assert_eq!(
        tv(1, 1, &[(10, 12), (11, 13), (12, 24), (13, 1)], &[(2, 13), (3, 24)]),
        Err(ResolveError::NeedMoreInfo)
    );
}

#[test]
fn library_not_starting_at_one_takes_next_entry() {
    // the library lists season 2 alone, with 12 episodes, which entry 2 holds
    assert_eq!(tv(2, 5, &[(10, 5), (11, 7), (12, 12)], &[(2, 12)]), Ok(120005));
    // the last season listed is season 3 with 24 episodes, which entry 3 holds
    assert_eq!(
        tv(3, 7, &[(10, 12), (11, 13), (12, 7), (13, 24), (14, 1)], &[(2, 13), (3, 24)]),
        Ok(130007)
    );
}

#[test]
fn library_not_starting_at_one_season_in_two_entries() {
    // season 3 has 24 episodes, entries 2 and 3 hold 11 and 13
    let a = [(10, 12), (11, 13), (12, 11), (13, 13), (14, 1)];
    let b = [(2, 13), (3, 24)];
    assert_eq!(tv(3, 11, &a, &b), Ok(120011));
    assert_eq!(tv(3, 12, &a, &b), Ok(130001));
    assert_eq!(tv(3, 24, &a, &b), Ok(130013));
}

#[test]
fn library_not_starting_at_one_without_fit() {
    let a = [(10, 12), (11, 13), (12, 10), (13, 5), (14, 1)];
    let b = [(2, 13), (3, 24)];
    assert_eq!(tv(3, 1, &a, &b), Err(ResolveError::NeedMoreInfo));
}

#[test]
fn library_not_starting_at_one_with_too_few_entries() {
    assert_eq!(
        tv(3, 1, &[(10, 12), (11, 13)], &[(2, 13), (3, 24)]),
        Err(ResolveError::NeedMoreInfo)
    );
    assert_eq!(
        tv(5, 1, &[(10, 12), (11, 13), (12, 1), (13, 1)], &[(2, 13), (5, 24)]),
        Err(ResolveError::NeedMoreInfo)
    );
}

#[test]
fn library_not_starting_at_one_with_equal_prefixes() {
    // the first two items of both lists hold the same episodes
    assert_eq!(
        tv(2, 4, &[(10, 13), (11, 24), (12, 1)], &[(2, 13), (4, 24)]),
        Ok(110004)
    );
}

#[test]
fn season_beyond_both_lists_with_other_totals() {
    assert_eq!(
        tv(9, 1, &[(10, 12), (11, 6), (12, 6)], &[(1, 12), (2, 13)]),
        Err(ResolveError::NeedMoreInfo)
    );
    assert_eq!(
        tv(9, 1, &[(10, 12), (11, 13)], &[(1, 12), (3, 13)]),
        Err(ResolveError::NoMatch)
    );
}

#[test]
fn totals_must_agree() {
    assert_eq!(
        tv(2, 1, &[(10, 12), (11, 6), (12, 6)], &[(1, 12), (2, 13)]),
        Err(ResolveError::NeedMoreInfo)
    );
}

#[test]
fn season_spread_over_two_entries() {
    // season 2 (13 episodes) is entries 1 and 2 (6 and 7 episodes)
    let a = [(10, 12), (11, 6), (12, 7)];
    let b = [(1, 12), (2, 13)];
    assert_eq!(tv(2, 6, &a, &b), Ok(110006));
    assert_eq!(tv(2, 7, &a, &b), Ok(120001));
    assert_eq!(tv(2, 13, &a, &b), Ok(120007));
}

#[test]
fn season_spread_over_three_entries() {
    let a = [(10, 12), (11, 4), (12, 4), (13, 5)];
    let b = [(1, 12), (2, 13)];
    assert_eq!(tv(2, 4, &a, &b), Ok(110004));
    assert_eq!(tv(2, 8, &a, &b), Ok(120004));
    assert_eq!(tv(2, 9, &a, &b), Ok(130001));
}

#[test]
fn season_after_a_spread_one() {
    // season 1 is entries 0 and 1, season 2 is entry 2
    let a = [(10, 6), (11, 6), (12, 13)];
    let b = [(1, 12), (2, 13)];
    assert_eq!(tv(2, 5, &a, &b), Ok(120005));
}

#[test]
fn season_spread_over_four_entries_is_too_much() {
    let a = [(10, 12), (11, 3), (12, 3), (13, 3), (14, 4)];
    let b = [(1, 12), (2, 13)];
    assert_eq!(tv(2, 1, &a, &b), Err(ResolveError::TooManyResults));
}

#[test]
fn merged_scan_without_boundary() {
    let a = [(10, 5), (11, 7), (12, 13)];
    let b = [(1, 12), (2, 13)];
    // season 1: the first entry does not end it, asked for season 1
    assert_eq!(tv(1, 3, &a, &b), Ok(100003));
    let a = [(10, 11), (11, 9), (12, 5)];
    assert_eq!(tv(2, 3, &a, &b), Err(ResolveError::NoMatch));
}

#[test]
fn entry_zero_with_episode_zero_is_a_result() {
    let a = [(10, 12), (0, 6), (12, 7)];
    let b = [(1, 12), (2, 13)];
    assert_eq!(tv(2, 0, &a, &b), Ok(0));
    assert_eq!(tv(2, 1, &a, &b), Ok(1));
}

#[test]
fn catalog_with_fewer_entries_than_seasons() {
    // seasons 1 and 2 are one entry of 25 episodes, season 3 the next
    let a = [(10, 25), (11, 10), (12, 4)];
    let b = [(1, 12), (2, 13), (3, 10), (4, 4)];
    // season 2 ends after one entry, season 1 began at its start
    assert_eq!(tv(2, 3, &a, &b), Ok(110015));
    // season 3 ends after two entries and begins after one
    assert_eq!(tv(3, 2, &a, &b), Ok(120002));
}

#[test]
fn catalog_with_fewer_entries_runs_off_the_list() {
    let a = [(10, 12), (11, 23)];
    let b = [(1, 12), (2, 13), (3, 10)];
    // season 3 ends after both entries: the entry after them does not exist
    assert_eq!(tv(3, 1, &a, &b), Err(ResolveError::BeyondBound));
}

#[test]
fn catalog_with_fewer_entries_without_fit() {
    let a = [(10, 20), (11, 15)];
    let b = [(1, 12), (2, 13), (3, 10)];
    assert_eq!(tv(2, 1, &a, &b), Err(ResolveError::NoMatch));
}

#[test]
fn unknown_kind_follows_the_series_rules() {
    let a = catalog(&[(100, 12), (101, 13)]);
    let info = item(ItemKind::Unknown, 2, 5);
    assert!(needs_series_info(&info, &a));
    assert_eq!(get_episode_id_by_info(&info, &a, &vec![(1, 12), (2, 13)]), Ok(1010005));
}

#[test]
fn later_entries_in_another_order_change_nothing() {
    let b = [(1, 12), (2, 13)];
    let one = tv(1, 3, &[(10, 6), (11, 6), (12, 5), (13, 8)], &b);
    let other = tv(1, 3, &[(10, 6), (11, 6), (13, 8), (12, 5)], &b);
    assert_eq!(one, other);
    assert_eq!(one, Ok(100003));
}

#[test]
fn aligned_catalog_picks_own_entry_for_every_season() {
    let a = [(10, 12), (11, 13), (12, 24)];
    let b = [(1, 12), (2, 13), (3, 24)];
    for s in 1..=3u64 {
        assert_eq!(tv(s as i64, 2, &a, &b), Ok(((9 + s) * 10000 + 2) as usize));
    }
}
