use danmaku::emby::{EpInfo, ItemInfo, ItemKind, MediaIdentity};
use danmaku::requests::{
    comment_url, episodes_url, item_url, match_url, search_url, seasons_url,
};
use danmaku::text::{push_decimal, push_signed};

fn described(kind: ItemKind, series: &str, name: &str) -> EpInfo {
    EpInfo {
        kind,
        host: "http://media:8096".to_string(),
        api_key: "k".to_string(),
        item_info: ItemInfo {
            name: name.to_string(),
            ss_name: series.to_string(),
            ep_index: 1,
            sn_index: 1,
            ss_id: "900".to_string(),
            se_id: "901".to_string(),
            item_id: "902".to_string(),
        },
        status: true,
    }
}

#[test]
fn search_address_of_a_series() {
    assert_eq!(
        search_url(&described(ItemKind::TvSeries, "Cowboy Bebop", "Asteroid Blues")),
        "https://api.dandanplay.net/api/v2/search/anime?keyword=Cowboy+Bebop&type=tvseries"
    );
    assert_eq!(
        search_url(&described(ItemKind::Ova, "a&b=c/d", "x")),
        "https://api.dandanplay.net/api/v2/search/anime?keyword=a%26b%3Dc%2Fd&type=ova"
    );
}

#[test]
fn search_address_of_a_movie() {
    assert_eq!(
        search_url(&described(ItemKind::Movie, "unknown", "君の名は。")),
        "https://api.dandanplay.net/api/v2/search/anime?keyword=%E5%90%9B%E3%81%AE%E5%90%8D%E3%81%AF%E3%80%82&type=movie"
    );
}

#[test]
fn search_keyword_keeps_what_stands_for_itself() {
    assert_eq!(
        search_url(&described(ItemKind::TvSeries, "A-z_0.9*~!", "")),
        "https://api.dandanplay.net/api/v2/search/anime?keyword=A-z_0.9*%7E%21&type=tvseries"
    );
    assert_eq!(
        search_url(&described(ItemKind::TvSeries, "", "")),
        "https://api.dandanplay.net/api/v2/search/anime?keyword=&type=tvseries"
    );
}

#[test]
fn address_of_comments() {
    assert_eq!(
        comment_url(1010005),
        "https://api.dandanplay.net/api/v2/comment/1010005?withRelated=true"
    );
    assert_eq!(comment_url(0), "https://api.dandanplay.net/api/v2/comment/0?withRelated=true");
    assert_eq!(
        comment_url(usize::MAX),
        format!("https://api.dandanplay.net/api/v2/comment/{}?withRelated=true", usize::MAX)
    );
}

#[test]
fn address_of_a_match() {
    assert_eq!(match_url(), "https://api.dandanplay.net/api/v2/match");
}

#[test]
fn addresses_of_the_library() {
    let params =
        MediaIdentity { host: "https://h".to_string(), item_id: "77".to_string(), api_key: "K".to_string() };
    assert_eq!(item_url(&params), "https://h/emby/Items?Ids=77&reqformat=json");
    let info = described(ItemKind::TvSeries, "s", "n");
    assert_eq!(seasons_url(&info), "http://media:8096/emby/Shows/900/Seasons?reqformat=json");
    assert_eq!(
        episodes_url(&info, "4321"),
        "http://media:8096/emby/Shows/900/Episodes?SeasonId=4321&reqformat=json"
    );
}

#[test]
fn numbers_in_decimal_notation() {
    for n in [0u64, 7, 10, 99, 100, 1010005, 4294967295, u64::MAX] {
        let mut out = vec!['#'];
        push_decimal(&mut out, n);
        assert_eq!(out.into_iter().collect::<String>(), format!("#{}", n));
    }
}

#[test]
fn signed_numbers_in_decimal_notation() {
    for n in [0i64, -1, 1, -10, 42, i64::MAX, i64::MIN, -9223372036854775807] {
        let mut out = vec![];
        push_signed(&mut out, n);
        assert_eq!(out.into_iter().collect::<String>(), n.to_string());
    }
}
