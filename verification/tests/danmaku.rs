use danmaku::danmaku::{
    classify_user, escape_line_feeds, holds_source, insert_by_time, make_event,
    normalize_comments, time_field, unpack_color, Comment, CommentError, Danmaku, Filter, Source,
};

/// An integer that orders as the time does.
fn key(seconds: f64) -> i64 {
    let bits = seconds.to_bits() as i64;
    bits ^ ((((bits >> 63) as u64) >> 1) as i64)
}

fn seconds(key: i64) -> f64 {
    f64::from_bits((key ^ ((((key >> 63) as u64) >> 1) as i64)) as u64)
}

fn comment(p: &str, m: &str) -> Comment {
    let time = time_field(p).parse::<f64>().ok().filter(|t| !t.is_nan()).map(key);
    Comment { p: p.to_string(), m: m.to_string(), time }
}

fn no_filter() -> Filter {
    Filter { keywords: vec![], sources: vec![] }
}

fn chars(s: &str) -> Vec<char> {
    s.chars().collect()
}

#[test]
fn time_keys_order_as_times() {
    let times = [-3.5, -0.0, 0.0, 0.25, 1.0, 12.5, 1e9];
    for pair in times.windows(2) {
        assert!(key(pair[0]) <= key(pair[1]));
    }
    assert_eq!(seconds(key(12.5)), 12.5);
}

#[test]
fn bilibili_comment_is_classified() {
    let made = make_event(&comment("12.5,1,16711680,[bilibili]user1", "hello"), &no_filter(), &None)
        .unwrap();
    assert_eq!(seconds(made.time), 12.5);
    assert_eq!((made.r, made.g, made.b), (255, 0, 0));
    assert_eq!(made.source, Source::Bilibili);
    assert_eq!(made.message, "hello");
    assert_eq!(made.count, 5);
    assert!(!made.blocked);
}

#[test]
fn numeric_user_is_the_provider_itself() {
    let made =
        make_event(&comment("3.0,1,255,1234567", "hi"), &no_filter(), &None).unwrap();
    assert_eq!(made.source, Source::Dandan);
    assert_eq!((made.r, made.g, made.b), (0, 0, 255));
    assert_eq!(seconds(made.time), 3.0);
}

#[test]
fn time_field_is_what_precedes_the_first_comma() {
    assert_eq!(time_field("12.5,1,16711680,[bilibili]user1"), "12.5");
    assert_eq!(time_field("no comma"), "no comma");
    assert_eq!(time_field(",1,2,3"), "");
    assert_eq!(time_field(""), "");
}

#[test]
fn extra_fields_are_ignored() {
    let made = make_event(&comment("3.0,1,255,1234567,99", "hi"), &no_filter(), &None).unwrap();
    assert_eq!(made.source, Source::Dandan);
    assert_eq!(seconds(made.time), 3.0);
    assert_eq!((made.r, made.g, made.b), (0, 0, 255));
    let made = make_event(&comment("1,1,0,[Gamer]a,b,c", "x"), &no_filter(), &None).unwrap();
    assert_eq!(made.source, Source::Gamer);
    let made = make_event(&comment("1,1,0,12,[bilibili]x", "x"), &no_filter(), &None).unwrap();
    assert_eq!(made.source, Source::Dandan);
    let made = make_event(&comment("1,1,0,,[bilibili]x", "x"), &no_filter(), &None).unwrap();
    assert_eq!(made.source, Source::Dandan);
    let made = make_event(&comment("1,1,0,[qq,]x", "x"), &no_filter(), &None).unwrap();
    assert_eq!(made.source, Source::Unknown);
}

#[test]
fn comments_of_one_event_whatever_follows_the_fourth_field() {
    let short = make_event(&comment("7.5,1,65280,[acfun]u", "x"), &no_filter(), &None).unwrap();
    let long =
        make_event(&comment("7.5,1,65280,[acfun]u,more,,fields", "x"), &no_filter(), &None)
            .unwrap();
    assert_eq!(short.time, long.time);
    assert_eq!((short.r, short.g, short.b), (long.r, long.g, long.b));
    assert_eq!(short.source, long.source);
    assert_eq!(short.message, long.message);
}

#[test]
fn colour_is_unpacked_into_bytes() {
    assert_eq!(unpack_color(0), Some((0, 0, 0)));
    assert_eq!(unpack_color(16777215), Some((255, 255, 255)));
    assert_eq!(unpack_color(0x123456), Some((0x12, 0x34, 0x56)));
    assert_eq!(unpack_color(65536), Some((1, 0, 0)));
    assert_eq!(unpack_color(256), Some((0, 1, 0)));
    assert_eq!(unpack_color(16777216), None);
    assert_eq!(unpack_color(u32::MAX), None);
}

#[test]
fn sources_by_name_whatever_the_case() {
    assert_eq!(Source::from("bilibili"), Source::Bilibili);
    assert_eq!(Source::from("BiliBili"), Source::Bilibili);
    assert_eq!(Source::from("Gamer"), Source::Gamer);
    assert_eq!(Source::from("ACFUN"), Source::AcFun);
    assert_eq!(Source::from("qq"), Source::QQ);
    assert_eq!(Source::from("iQiyi"), Source::IQIYI);
    assert_eq!(Source::from("D"), Source::D);
    assert_eq!(Source::from("dandan"), Source::Dandan);
    assert_eq!(Source::from("youtube"), Source::Unknown);
    assert_eq!(Source::from(""), Source::Unknown);
    assert_eq!(Source::from("bilibili "), Source::Unknown);
    assert_eq!(Source::named(&chars("AcFun")), Source::AcFun);
}

#[test]
fn user_tags_are_classified() {
    assert_eq!(classify_user(&chars("1234567")), Source::Dandan);
    assert_eq!(classify_user(&chars("")), Source::Dandan);
    assert_eq!(classify_user(&chars("[bilibili]user1")), Source::Bilibili);
    assert_eq!(classify_user(&chars("[BiliBili]")), Source::Bilibili);
    assert_eq!(classify_user(&chars("[acfun]12")), Source::AcFun);
    assert_eq!(classify_user(&chars("[nowhere]12")), Source::Unknown);
    assert_eq!(classify_user(&chars("[bilibili")), Source::Unknown);
    assert_eq!(classify_user(&chars("bilibili]x")), Source::Unknown);
    assert_eq!(classify_user(&chars("user")), Source::Unknown);
    assert_eq!(classify_user(&chars("x[qq]")), Source::Unknown);
    assert_eq!(classify_user(&chars("[]x")), Source::Unknown);
    assert_eq!(classify_user(&chars("[d]]x")), Source::D);
}

#[test]
fn numeric_characters_beyond_ascii_count_as_numeric() {
    assert_eq!(classify_user(&chars("１２３")), Source::Dandan);
    assert_eq!(classify_user(&chars("12a")), Source::Unknown);
}

#[test]
fn line_feeds_are_marked() {
    assert_eq!(escape_line_feeds(&chars("a\nb")), chars("a\\Nb"));
    assert_eq!(escape_line_feeds(&chars("\n\n")), chars("\\N\\N"));
    assert_eq!(escape_line_feeds(&chars("plain")), chars("plain"));
    assert_eq!(escape_line_feeds(&chars("")), chars(""));
    let made = make_event(&comment("1,1,0,1", "two\nlines"), &no_filter(), &None).unwrap();
    assert_eq!(made.message, "two\\Nlines");
    assert_eq!(made.message, "two\nlines".replace('\n', "\\N"));
}

#[test]
fn width_counts_user_perceived_characters() {
    let made = make_event(&comment("1,1,0,1", "e\u{301}x"), &no_filter(), &None).unwrap();
    assert_eq!(made.count, 2);
    let made = make_event(&comment("1,1,0,1", "弹幕"), &no_filter(), &None).unwrap();
    assert_eq!(made.count, 2);
    let made = make_event(&comment("1,1,0,1", "two\nlines"), &no_filter(), &None).unwrap();
    assert_eq!(made.count, 9);
    let made = make_event(&comment("1,1,0,1", ""), &no_filter(), &None).unwrap();
    assert_eq!(made.count, 0);
}

#[test]
fn comments_that_cannot_be_made_ready() {
    let filter = no_filter();
    assert_eq!(
        make_event(&comment("soon,1,0,1", "x"), &filter, &None).unwrap_err(),
        CommentError::BadTime
    );
    assert_eq!(
        make_event(&comment("NaN,1,0,1", "x"), &filter, &None).unwrap_err(),
        CommentError::BadTime
    );
    assert_eq!(
        make_event(&comment("1.0", "x"), &filter, &None).unwrap_err(),
        CommentError::MissingField
    );
    assert_eq!(
        make_event(&comment("1.0,1", "x"), &filter, &None).unwrap_err(),
        CommentError::MissingField
    );
    assert_eq!(
        make_event(&comment("1.0,1,255", "x"), &filter, &None).unwrap_err(),
        CommentError::MissingField
    );
    assert_eq!(
        make_event(&comment("1.0,1,red,1", "x"), &filter, &None).unwrap_err(),
        CommentError::BadColor
    );
    assert_eq!(
        make_event(&comment("1.0,1,red", "x"), &filter, &None).unwrap_err(),
        CommentError::BadColor
    );
    assert_eq!(
        make_event(&comment("1.0,1,-1,1", "x"), &filter, &None).unwrap_err(),
        CommentError::BadColor
    );
    assert_eq!(
        make_event(&comment("1.0,1,16777216,1", "x"), &filter, &None).unwrap_err(),
        CommentError::BadColor
    );
    assert_eq!(
        make_event(&comment("1.0,1,4294967296,1", "x"), &filter, &None).unwrap_err(),
        CommentError::BadColor
    );
    assert_eq!(
        make_event(&comment("1.0,1,,1", "x"), &filter, &None).unwrap_err(),
        CommentError::BadColor
    );
}

#[test]
fn configured_sources_are_marked_as_hidden() {
    let filter = Filter { keywords: vec![], sources: vec![Source::Bilibili, Source::Gamer] };
    let hidden = make_event(&comment("1,1,0,[bilibili]u", "x"), &filter, &None).unwrap();
    assert!(hidden.blocked);
    let shown = make_event(&comment("1,1,0,[acfun]u", "x"), &filter, &None).unwrap();
    assert!(!shown.blocked);
}

#[test]
fn live_choice_of_sources_overrides_the_configured_one() {
    let filter = Filter { keywords: vec![], sources: vec![Source::Bilibili] };
    let live = Some(vec![Source::AcFun]);
    let bilibili = make_event(&comment("1,1,0,[bilibili]u", "x"), &filter, &live).unwrap();
    assert!(!bilibili.blocked);
    let acfun = make_event(&comment("1,1,0,[acfun]u", "x"), &filter, &live).unwrap();
    assert!(acfun.blocked);
    let none = Some(vec![]);
    let bilibili = make_event(&comment("1,1,0,[bilibili]u", "x"), &filter, &none).unwrap();
    assert!(!bilibili.blocked);
}

#[test]
fn list_of_sources_holds_what_was_put_in() {
    let list = vec![Source::QQ, Source::D];
    assert!(holds_source(&list, Source::QQ));
    assert!(holds_source(&list, Source::D));
    assert!(!holds_source(&list, Source::Dandan));
    assert!(!holds_source(&vec![], Source::Unknown));
}

#[test]
fn comment_with_blocked_word_is_absent() {
    let filter = Filter { keywords: vec!["spoiler".to_string(), "剧透".to_string()], sources: vec![] };
    let comments = vec![
        comment("3,1,255,1", "fine"),
        comment("1,1,255,[bilibili]u", "a spoiler here"),
        comment("2,1,255,[acfun]u", "前方剧透"),
        comment("0.5,1,255,[gamer]u", "Spoiler with a capital"),
    ];
    let events = normalize_comments(&comments, &filter, &None).unwrap();
    let texts: Vec<&str> = events.iter().map(|e| e.message.as_str()).collect();
    assert_eq!(texts, vec!["Spoiler with a capital", "fine"]);
}

#[test]
fn comment_with_blocked_word_is_absent_whatever_its_parameters() {
    let filter = Filter { keywords: vec!["bad".to_string()], sources: vec![] };
    let comments = vec![comment("not even parameters", "bad"), comment("1,1,255,1", "good")];
    let events = normalize_comments(&comments, &filter, &None).unwrap();
    assert_eq!(events.len(), 1);
    assert_eq!(events[0].message, "good");
}

#[test]
fn empty_blocked_word_drops_every_comment() {
    let filter = Filter { keywords: vec!["".to_string()], sources: vec![] };
    let comments = vec![comment("1,1,255,1", "good"), comment("2,1,255,1", "")];
    assert_eq!(normalize_comments(&comments, &filter, &None).unwrap().len(), 0);
}

#[test]
fn events_come_in_ascending_order_of_time() {
    let comments = vec![
        comment("12.5,1,255,1", "c"),
        comment("0.1,1,255,1", "a"),
        comment("100,1,255,1", "d"),
        comment("3,1,255,1", "b"),
        comment("3,1,255,1", "b2"),
    ];
    let events = normalize_comments(&comments, &no_filter(), &None).unwrap();
    let times: Vec<f64> = events.iter().map(|e| seconds(e.time)).collect();
    assert_eq!(times, vec![0.1, 3.0, 3.0, 12.5, 100.0]);
    let texts: Vec<&str> = events.iter().map(|e| e.message.as_str()).collect();
    assert_eq!(texts, vec!["a", "b", "b2", "c", "d"]);
}

#[test]
fn first_comment_that_fails_decides() {
    let comments = vec![
        comment("1,1,255,1", "fine"),
        comment("2,1,red,1", "bad colour"),
        comment("when,1,255,1", "bad time"),
    ];
    assert_eq!(
        normalize_comments(&comments, &no_filter(), &None).unwrap_err(),
        CommentError::BadColor
    );
    let filter = Filter { keywords: vec!["colour".to_string()], sources: vec![] };
    assert_eq!(normalize_comments(&comments, &filter, &None).unwrap_err(), CommentError::BadTime);
}

#[test]
fn no_comments_no_events() {
    assert_eq!(normalize_comments(&vec![], &no_filter(), &None).unwrap().len(), 0);
}

fn event(time: i64, message: &str) -> Danmaku {
    Danmaku {
        message: message.to_string(),
        count: message.len(),
        time,
        r: 0,
        g: 0,
        b: 0,
        source: Source::Unknown,
        blocked: false,
    }
}

#[test]
fn insertion_keeps_the_order_of_time() {
    let mut events: Vec<Danmaku> = vec![];
    for (time, text) in [(5, "e"), (1, "a"), (3, "c"), (3, "d"), (0, "z"), (9, "x")] {
        insert_by_time(&mut events, event(time, text));
    }
    let order: Vec<(i64, &str)> = events.iter().map(|e| (e.time, e.message.as_str())).collect();
    assert_eq!(order, vec![(0, "z"), (1, "a"), (3, "c"), (3, "d"), (5, "e"), (9, "x")]);
}
