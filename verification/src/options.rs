//! The lines of the options file, as far as they name what is not shown.

use crate::danmaku::{holds_source, source_named, word_texts, Filter, Source};
use crate::text::{
    all_fields, ascii_lower, chars_of, find_char, lemma_find_char, parse_u32, parsed_u32,
    position_of, same_chars, slice_of, split_all, string_of, texts,
};
use vstd::prelude::*;

verus! {

/// What a line of the options file asks for.
#[derive(Debug)]
pub enum Setting {
    /// Nothing that is known here.
    Nothing,
    /// Blocked words or sources, which have been added to the filter.
    Filtered,
    /// A size for the font, as written.
    FontSize(String),
    /// A transparency.
    Transparency(u8),
    /// A share of the screen to leave free, as written.
    ReservedSpace(String),
    /// A file of filter rules, by its path.
    RulesFile(String),
}

/// What a line of the options file asks for, seen as plain values.
pub enum SettingView {
    Nothing,
    Filtered,
    FontSize(Seq<char>),
    Transparency(u8),
    ReservedSpace(Seq<char>),
    RulesFile(Seq<char>),
}

impl View for Setting {
    type V = SettingView;

    open spec fn view(&self) -> SettingView {
        match self {
            Setting::Nothing => SettingView::Nothing,
            Setting::Filtered => SettingView::Filtered,
            Setting::FontSize(text) => SettingView::FontSize(text@),
            Setting::Transparency(value) => SettingView::Transparency(*value),
            Setting::ReservedSpace(text) => SettingView::ReservedSpace(text@),
            Setting::RulesFile(path) => SettingView::RulesFile(path@),
        }
    }
}

/// The key and the value of a line: what stands before and behind its
/// first equals sign, unless it has none or begins with `#`.
pub open spec fn key_and_value(line: Seq<char>) -> Option<(Seq<char>, Seq<char>)> {
    if (line.len() > 0 && line[0] == '#') || find_char(line, '=', 0) >= line.len() {
        None
    } else {
        Some((line.take(find_char(line, '=', 0)), line.skip(find_char(line, '=', 0) + 1)))
    }
}

/// The sources after those that `names` name have been added: each known
/// source once.
pub open spec fn with_sources(sources: Seq<Source>, names: Seq<Seq<char>>) -> Seq<Source>
    decreases names.len(),
{
    if names.len() == 0 {
        sources
    } else {
        let before = with_sources(sources, names.drop_last());
        let source = source_named(ascii_lower(names.last()));
        if source == Source::Unknown || before.contains(source) {
            before
        } else {
            before.push(source)
        }
    }
}

/// What the line asks for.
pub open spec fn setting_of(line: Seq<char>) -> SettingView {
    match key_and_value(line) {
        None => SettingView::Nothing,
        Some((key, value)) => if key == "font_size"@ {
            SettingView::FontSize(value)
        } else if key == "transparency"@ {
            match parsed_u32(value) {
                Some(number) => if number <= u8::MAX {
                    SettingView::Transparency(number as u8)
                } else {
                    SettingView::Nothing
                },
                None => SettingView::Nothing,
            }
        } else if key == "reserved_space"@ {
            SettingView::ReservedSpace(value)
        } else if key == "filter"@ && value.len() > 0 {
            SettingView::Filtered
        } else if key == "filter_source"@ && value.len() > 0 {
            SettingView::Filtered
        } else if key == "filter_bilibili"@ && value.len() > 0 {
            SettingView::RulesFile(value)
        } else {
            SettingView::Nothing
        },
    }
}

/// The blocked words after the line has been read.
pub open spec fn words_after(words: Seq<Seq<char>>, line: Seq<char>) -> Seq<Seq<char>> {
    match key_and_value(line) {
        Some((key, value)) => if key == "filter"@ && value.len() > 0 {
            words + all_fields(value)
        } else {
            words
        },
        None => words,
    }
}

/// The blocked sources after the line has been read.
pub open spec fn sources_after(sources: Seq<Source>, line: Seq<char>) -> Seq<Source> {
    match key_and_value(line) {
        Some((key, value)) => if key == "filter_source"@ && value.len() > 0 {
            with_sources(sources, all_fields(value))
        } else {
            sources
        },
        None => sources,
    }
}

fn is_key(key: &Vec<char>, name: &str) -> (same: bool)
    ensures
        same == (key@ == name@),
{
    let wanted: Vec<char> = chars_of(name);
    same_chars(key, &wanted)
}

fn add_words(filter: &mut Filter, parts: &Vec<Vec<char>>)
    ensures
        word_texts(final(filter).keywords@) == word_texts(old(filter).keywords@) + texts(parts@),
        final(filter).sources == old(filter).sources,
{
    let mut i: usize = 0;
    assert(texts(parts@).take(0) == Seq::<Seq<char>>::empty());
    assert(word_texts(filter.keywords@) + Seq::<Seq<char>>::empty() == word_texts(
        filter.keywords@,
    ));
    while i < parts.len()
        invariant
            i <= parts@.len(),
            word_texts(filter.keywords@) == word_texts(old(filter).keywords@) + texts(parts@).take(
                i as int,
            ),
            filter.sources == old(filter).sources,
        decreases parts@.len() - i,
    {
        let ghost before = word_texts(filter.keywords@);
        let word: String = string_of(&parts[i]);
        filter.keywords.push(word);
        proof {
            assert(word_texts(filter.keywords@) == before.push(parts@[i as int]@));
            assert(texts(parts@).take(i + 1) == texts(parts@).take(i as int).push(
                parts@[i as int]@,
            ));
        }
        i = i + 1;
    }
    assert(texts(parts@).take(parts@.len() as int) == texts(parts@));
}

fn add_sources(filter: &mut Filter, names: &Vec<Vec<char>>)
    ensures
        final(filter).sources@ == with_sources(old(filter).sources@, texts(names@)),
        final(filter).keywords == old(filter).keywords,
{
    let mut i: usize = 0;
    assert(texts(names@).take(0) == Seq::<Seq<char>>::empty());
    while i < names.len()
        invariant
            i <= names@.len(),
            filter.sources@ == with_sources(old(filter).sources@, texts(names@).take(i as int)),
            filter.keywords == old(filter).keywords,
        decreases names@.len() - i,
    {
        proof {
            assert(texts(names@).take(i + 1).drop_last() == texts(names@).take(i as int));
            assert(texts(names@).take(i + 1).last() == names@[i as int]@);
        }
        let source: Source = Source::named(&names[i]);
        if source != Source::Unknown && !holds_source(&filter.sources, source) {
            filter.sources.push(source);
        }
        i = i + 1;
    }
    assert(texts(names@).take(names@.len() as int) == texts(names@));
}

/// Reads one line of the options file: blocked words and sources go into
/// `filter`; what else the line asks for is handed back.
pub fn read_line(filter: &mut Filter, line: &str) -> (setting: Setting)
    ensures
        setting@ == setting_of(line@),
        word_texts(final(filter).keywords@) == words_after(
            word_texts(old(filter).keywords@),
            line@,
        ),
        final(filter).sources@ == sources_after(old(filter).sources@, line@),
{
    let all: Vec<char> = chars_of(line);
    if all.len() > 0 && all[0] == '#' {
        return Setting::Nothing;
    }
    let at: usize = position_of(&all, '=', 0);
    if at == all.len() {
        return Setting::Nothing;
    }
    let key: Vec<char> = slice_of(&all, 0, at);
    let value: Vec<char> = slice_of(&all, at + 1, all.len());
    proof {
        assert(key@ == line@.take(at as int));
        assert(value@ == line@.skip(at + 1));
        reveal_strlit("font_size");
        reveal_strlit("transparency");
        reveal_strlit("reserved_space");
        reveal_strlit("filter");
        reveal_strlit("filter_source");
        reveal_strlit("filter_bilibili");
        lemma_find_char(line@, '=', 0);
        assert(key_and_value(line@) == Some((key@, value@)));
        assert("font_size"@.len() == 9);
        assert("transparency"@.len() == 12);
        assert("reserved_space"@.len() == 14);
        assert("filter"@.len() == 6);
        assert("filter_source"@.len() == 13);
        assert("filter_bilibili"@.len() == 15);
    }
    if is_key(&key, "font_size") {
        Setting::FontSize(string_of(&value))
    } else if is_key(&key, "transparency") {
        match parse_u32(&value) {
            Some(number) => if number <= 255 {
                Setting::Transparency(number as u8)
            } else {
                Setting::Nothing
            },
            None => Setting::Nothing,
        }
    } else if is_key(&key, "reserved_space") {
        Setting::ReservedSpace(string_of(&value))
    } else if is_key(&key, "filter") && value.len() > 0 {
        let parts: Vec<Vec<char>> = split_all(&value);
        add_words(filter, &parts);
        Setting::Filtered
    } else if is_key(&key, "filter_source") && value.len() > 0 {
        let names: Vec<Vec<char>> = split_all(&value);
        add_sources(filter, &names);
        Setting::Filtered
    } else if is_key(&key, "filter_bilibili") && value.len() > 0 {
        Setting::RulesFile(string_of(&value))
    } else {
        Setting::Nothing
    }
}

/// A rule of a filter file.
#[derive(Debug)]
pub struct BilibiliFilterRule {
    /// What the rule matches on; zero for a word.
    pub kind: usize,
    pub filter: String,
    pub opened: bool,
}

/// The words of the rules that match on words and are switched on, in
/// their order.
pub open spec fn rule_words(rules: Seq<BilibiliFilterRule>) -> Seq<Seq<char>>
    decreases rules.len(),
{
    if rules.len() == 0 {
        Seq::empty()
    } else if rules.last().kind == 0 && rules.last().opened {
        rule_words(rules.drop_last()).push(rules.last().filter@)
    } else {
        rule_words(rules.drop_last())
    }
}

/// Adds to the blocked words those of the rules that match on words and
/// are switched on.
pub fn add_rules(filter: &mut Filter, rules: &Vec<BilibiliFilterRule>)
    ensures
        word_texts(final(filter).keywords@) == word_texts(old(filter).keywords@) + rule_words(
            rules@,
        ),
        final(filter).sources == old(filter).sources,
{
    let mut i: usize = 0;
    assert(rules@.take(0) == Seq::<BilibiliFilterRule>::empty());
    assert(word_texts(filter.keywords@) + Seq::<Seq<char>>::empty() == word_texts(
        filter.keywords@,
    ));
    while i < rules.len()
        invariant
            i <= rules@.len(),
            word_texts(filter.keywords@) == word_texts(old(filter).keywords@) + rule_words(
                rules@.take(i as int),
            ),
            filter.sources == old(filter).sources,
        decreases rules@.len() - i,
    {
        proof {
            assert(rules@.take(i + 1).drop_last() == rules@.take(i as int));
        }
        if rules[i].kind == 0 && rules[i].opened {
            let ghost before = word_texts(filter.keywords@);
            filter.keywords.push(rules[i].filter.clone());
            assert(word_texts(filter.keywords@) == before.push(rules@[i as int].filter@));
        }
        i = i + 1;
    }
    assert(rules@.take(rules@.len() as int) == rules@);
}

} // verus!
