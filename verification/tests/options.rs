use danmaku::danmaku::{Filter, Source};
use danmaku::options::{add_rules, read_line, BilibiliFilterRule, Setting};
use danmaku::text::split_all;

fn empty() -> Filter {
    Filter { keywords: vec![], sources: vec![] }
}

fn letters(s: &str) -> Vec<char> {
    s.chars().collect()
}

#[test]
fn values_split_at_every_comma() {
    for text in ["a,b,c", "", ",", "a", "a,,b,", ",,,", "一,二"] {
        let expected: Vec<Vec<char>> = text.split(',').map(letters).collect();
        assert_eq!(split_all(&letters(text)), expected);
    }
}

#[test]
fn blocked_words_are_added() {
    let mut filter = empty();
    assert!(matches!(read_line(&mut filter, "filter=spoiler,剧透"), Setting::Filtered));
    assert_eq!(filter.keywords, vec!["spoiler".to_string(), "剧透".to_string()]);
    assert!(matches!(read_line(&mut filter, "filter=more,,x=y"), Setting::Filtered));
    assert_eq!(
        filter.keywords,
        vec![
            "spoiler".to_string(),
            "剧透".to_string(),
            "more".to_string(),
            "".to_string(),
            "x=y".to_string()
        ]
    );
    assert!(filter.sources.is_empty());
}

#[test]
fn blocked_sources_are_added_once() {
    let mut filter = empty();
    assert!(matches!(
        read_line(&mut filter, "filter_source=bilibili,Gamer,nowhere,BILIBILI,,dandan"),
        Setting::Filtered
    ));
    assert_eq!(filter.sources, vec![Source::Bilibili, Source::Gamer, Source::Dandan]);
    assert!(matches!(read_line(&mut filter, "filter_source=gamer,qq"), Setting::Filtered));
    assert_eq!(filter.sources, vec![Source::Bilibili, Source::Gamer, Source::Dandan, Source::QQ]);
    assert!(filter.keywords.is_empty());
}

#[test]
fn empty_values_add_nothing() {
    let mut filter = empty();
    assert!(matches!(read_line(&mut filter, "filter="), Setting::Nothing));
    assert!(matches!(read_line(&mut filter, "filter_source="), Setting::Nothing));
    assert!(matches!(read_line(&mut filter, "filter_bilibili="), Setting::Nothing));
    assert!(filter.keywords.is_empty());
    assert!(filter.sources.is_empty());
}

#[test]
fn lines_that_set_nothing() {
    let mut filter = empty();
    assert!(matches!(read_line(&mut filter, "# filter=a"), Setting::Nothing));
    assert!(matches!(read_line(&mut filter, "#filter=a"), Setting::Nothing));
    assert!(matches!(read_line(&mut filter, ""), Setting::Nothing));
    assert!(matches!(read_line(&mut filter, "filter"), Setting::Nothing));
    assert!(matches!(read_line(&mut filter, " filter=a"), Setting::Nothing));
    assert!(matches!(read_line(&mut filter, "Filter=a"), Setting::Nothing));
    assert!(matches!(read_line(&mut filter, "=a"), Setting::Nothing));
    assert!(matches!(read_line(&mut filter, "other=a"), Setting::Nothing));
    assert!(filter.keywords.is_empty());
    assert!(filter.sources.is_empty());
}

#[test]
fn other_settings_are_handed_back() {
    let mut filter = empty();
    match read_line(&mut filter, "font_size=42.5") {
        Setting::FontSize(text) => assert_eq!(text, "42.5"),
        other => panic!("{:?}", other),
    }
    match read_line(&mut filter, "reserved_space=0.25") {
        Setting::ReservedSpace(text) => assert_eq!(text, "0.25"),
        other => panic!("{:?}", other),
    }
    match read_line(&mut filter, "font_size=") {
        Setting::FontSize(text) => assert_eq!(text, ""),
        other => panic!("{:?}", other),
    }
    match read_line(&mut filter, "filter_bilibili=~~/rules.json") {
        Setting::RulesFile(path) => assert_eq!(path, "~~/rules.json"),
        other => panic!("{:?}", other),
    }
    match read_line(&mut filter, "filter_bilibili=a=b") {
        Setting::RulesFile(path) => assert_eq!(path, "a=b"),
        other => panic!("{:?}", other),
    }
    assert!(filter.keywords.is_empty());
}

#[test]
fn transparency_is_a_byte() {
    let mut filter = empty();
    assert!(matches!(read_line(&mut filter, "transparency=48"), Setting::Transparency(48)));
    assert!(matches!(read_line(&mut filter, "transparency=0"), Setting::Transparency(0)));
    assert!(matches!(read_line(&mut filter, "transparency=255"), Setting::Transparency(255)));
    assert!(matches!(read_line(&mut filter, "transparency=+7"), Setting::Transparency(7)));
    assert!(matches!(read_line(&mut filter, "transparency=256"), Setting::Nothing));
    assert!(matches!(read_line(&mut filter, "transparency=-1"), Setting::Nothing));
    assert!(matches!(read_line(&mut filter, "transparency=0x30"), Setting::Nothing));
    assert!(matches!(read_line(&mut filter, "transparency="), Setting::Nothing));
    for text in ["48", "255", "256", "+7", "", "a"] {
        let ours = match read_line(&mut filter, &format!("transparency={}", text)) {
            Setting::Transparency(value) => Some(value),
            _ => None,
        };
        assert_eq!(ours, text.parse::<u8>().ok());
    }
}

fn rule(kind: usize, filter: &str, opened: bool) -> BilibiliFilterRule {
    BilibiliFilterRule { kind, filter: filter.to_string(), opened }
}

#[test]
fn rules_on_words_that_are_switched_on_are_added() {
    let mut filter = Filter { keywords: vec!["first".to_string()], sources: vec![Source::D] };
    add_rules(
        &mut filter,
        &vec![
            rule(0, "word", true),
            rule(1, "regex.*", true),
            rule(0, "off", false),
            rule(2, "user", true),
            rule(0, "other", true),
        ],
    );
    assert_eq!(
        filter.keywords,
        vec!["first".to_string(), "word".to_string(), "other".to_string()]
    );
    assert_eq!(filter.sources, vec![Source::D]);
    add_rules(&mut filter, &vec![]);
    assert_eq!(filter.keywords.len(), 3);
}
