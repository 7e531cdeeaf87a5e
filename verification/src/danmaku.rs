//! From the provider's raw comments to the events that are shown.

use crate::text::{
    all_fields, ascii_lower, chars_of, contains_chars, contains_text, find_char,
    lemma_all_fields_of_joined, parse_u32, parsed_u32, position_of, same_chars, slice_of,
    split_all, string_of, texts, to_ascii_lower,
};
use vstd::prelude::*;

verus! {

/// Where a comment was first posted.
#[derive(Debug, Clone, Copy, Hash, PartialEq, Eq, Structural)]
pub enum Source {
    Bilibili,
    Gamer,
    AcFun,
    QQ,
    IQIYI,
    D,
    Dandan,
    Unknown,
}

/// The source that goes by the lower-case name `name`.
pub open spec fn source_named(name: Seq<char>) -> Source {
    if name == "bilibili"@ {
        Source::Bilibili
    } else if name == "gamer"@ {
        Source::Gamer
    } else if name == "acfun"@ {
        Source::AcFun
    } else if name == "qq"@ {
        Source::QQ
    } else if name == "iqiyi"@ {
        Source::IQIYI
    } else if name == "d"@ {
        Source::D
    } else if name == "dandan"@ {
        Source::Dandan
    } else {
        Source::Unknown
    }
}

fn has_name(lower: &Vec<char>, name: &str) -> (same: bool)
    ensures
        same == (lower@ == name@),
{
    let wanted: Vec<char> = chars_of(name);
    same_chars(lower, &wanted)
}

impl Source {
    /// The source that goes by `name`, whatever the case of its letters.
    pub fn named(name: &Vec<char>) -> (source: Source)
        ensures
            source == source_named(ascii_lower(name@)),
    {
        let lower: Vec<char> = to_ascii_lower(name);
        if has_name(&lower, "bilibili") {
            Source::Bilibili
        } else if has_name(&lower, "gamer") {
            Source::Gamer
        } else if has_name(&lower, "acfun") {
            Source::AcFun
        } else if has_name(&lower, "qq") {
            Source::QQ
        } else if has_name(&lower, "iqiyi") {
            Source::IQIYI
        } else if has_name(&lower, "d") {
            Source::D
        } else if has_name(&lower, "dandan") {
            Source::Dandan
        } else {
            Source::Unknown
        }
    }
}

impl<'a> From<&'a str> for Source {
    fn from(value: &'a str) -> (source: Source) {
        let name: Vec<char> = chars_of(value);
        Source::named(&name)
    }
}

impl<'a> vstd::std_specs::convert::FromSpecImpl<&'a str> for Source {
    open spec fn obeys_from_spec() -> bool {
        true
    }

    open spec fn from_spec(value: &'a str) -> Source {
        source_named(ascii_lower(value@))
    }
}


/// Whether `c` is a numeric character, as `char::is_numeric` has it.
pub uninterp spec fn numeric_char(c: char) -> bool;

/// `char::is_numeric`: whether the character belongs to one of Unicode's
/// three numeric categories. The answer depends on the character alone.
#[verifier::external_body]
fn is_numeric(c: char) -> (numeric: bool)
    ensures
        numeric == numeric_char(c),
{
    c.is_numeric()
}

/// Whether every character of `s` is numeric.
pub open spec fn all_numeric(s: Seq<char>) -> bool {
    forall|i: int| 0 <= i < s.len() ==> numeric_char(#[trigger] s[i])
}

/// What stands between the brackets, where `user` begins with `[` and
/// holds a `]` after it.
pub open spec fn bracket_tag(user: Seq<char>) -> Option<Seq<char>> {
    if user.len() > 0 && user[0] == '[' && find_char(user, ']', 1) < user.len() {
        Some(user.subrange(1, find_char(user, ']', 1)))
    } else {
        None
    }
}

/// The source that a comment's user tag names: the provider itself for a
/// tag of numeric characters alone, else the source named in brackets at
/// its start.
pub open spec fn source_of_user(user: Seq<char>) -> Source {
    if all_numeric(user) {
        Source::Dandan
    } else {
        match bracket_tag(user) {
            Some(tag) => source_named(ascii_lower(tag)),
            None => Source::Unknown,
        }
    }
}

fn only_numeric(s: &Vec<char>) -> (all: bool)
    ensures
        all == all_numeric(s@),
{
    let mut i: usize = 0;
    while i < s.len()
        invariant
            i <= s@.len(),
            forall|k: int| 0 <= k < i ==> numeric_char(#[trigger] s@[k]),
        decreases s@.len() - i,
    {
        if !is_numeric(s[i]) {
            return false;
        }
        i = i + 1;
    }
    true
}

/// The source that the user tag `user` names.
pub fn classify_user(user: &Vec<char>) -> (source: Source)
    ensures
        source == source_of_user(user@),
{
    if only_numeric(user) {
        return Source::Dandan;
    }
    if user.len() == 0 || user[0] != '[' {
        return Source::Unknown;
    }
    let close: usize = position_of(user, ']', 1);
    if close == user.len() {
        return Source::Unknown;
    }
    let tag: Vec<char> = slice_of(user, 1, close);
    Source::named(&tag)
}

/// The text of a comment's time: what comes before the first comma of its
/// parameters.
pub fn time_field(p: &str) -> (text: String)
    ensures
        text@ == all_fields(p@)[0],
{
    let all: Vec<char> = chars_of(p);
    let at: usize = position_of(&all, ',', 0);
    let part: Vec<char> = slice_of(&all, 0, at);
    proof {
        assert(all@.subrange(0, at as int) == all@.take(at as int));
        assert(all@.take(all@.len() as int) == all@);
    }
    string_of(&part)
}

/// The red, green and blue bytes of a colour packed into 24 bits.
pub open spec fn color_bytes(color: u32) -> Option<(u8, u8, u8)> {
    if color < 0x100_0000 {
        Some(((color / 65536) as u8, ((color / 256) % 256) as u8, (color % 256) as u8))
    } else {
        None
    }
}

/// Unpacks a colour of 24 bits into its red, green and blue bytes.
pub fn unpack_color(color: u32) -> (bytes: Option<(u8, u8, u8)>)
    ensures
        bytes == color_bytes(color),
{
    if color < 0x100_0000 {
        Some(((color / 65536) as u8, ((color / 256) % 256) as u8, (color % 256) as u8))
    } else {
        None
    }
}

/// `text` with each line feed replaced by the overlay's line-break marker,
/// a backslash and a capital N.
pub open spec fn escaped(text: Seq<char>) -> Seq<char>
    decreases text.len(),
{
    if text.len() == 0 {
        Seq::empty()
    } else if text.last() == '\n' {
        escaped(text.drop_last()).push('\\').push('N')
    } else {
        escaped(text.drop_last()).push(text.last())
    }
}

/// Replaces each line feed of `text` by the overlay's line-break marker.
pub fn escape_line_feeds(text: &Vec<char>) -> (out: Vec<char>)
    ensures
        out@ == escaped(text@),
{
    let mut out: Vec<char> = Vec::new();
    let mut i: usize = 0;
    while i < text.len()
        invariant
            i <= text@.len(),
            out@ == escaped(text@.take(i as int)),
        decreases text@.len() - i,
    {
        assert(text@.take(i + 1).drop_last() == text@.take(i as int));
        if text[i] == '\n' {
            out.push('\\');
            out.push('N');
        } else {
            out.push(text[i]);
        }
        i = i + 1;
    }
    assert(text@.take(text@.len() as int) == text@);
    out
}

/// The number of extended grapheme clusters of `text`.
pub uninterp spec fn grapheme_clusters(text: Seq<char>) -> nat;

/// `UnicodeSegmentation::graphemes` with extended clusters, counted: the
/// number of user-perceived characters of the text, which depends on the
/// text alone.
#[verifier::external_body]
fn count_graphemes(text: &str) -> (count: usize)
    ensures
        count == grapheme_clusters(text@),
{
    unicode_segmentation::UnicodeSegmentation::graphemes(text, true).count()
}

/// Whether `list` holds `source`.
pub fn holds_source(list: &Vec<Source>, source: Source) -> (found: bool)
    ensures
        found == list@.contains(source),
{
    let mut i: usize = 0;
    while i < list.len()
        invariant
            i <= list@.len(),
            forall|k: int| 0 <= k < i ==> list@[k] != source,
        decreases list@.len() - i,
    {
        if list[i] == source {
            return true;
        }
        i = i + 1;
    }
    false
}

/// Whether comments of `source` are hidden: the live choice decides where
/// there is one, the configured one where there is none.
pub open spec fn is_blocked(
    source: Source,
    configured: Seq<Source>,
    live: Option<Seq<Source>>,
) -> bool {
    match live {
        Some(chosen) => chosen.contains(source),
        None => configured.contains(source),
    }
}


/// A comment as the provider gives it, with its time read.
pub struct Comment {
    /// Time, mode, colour and user tag, separated by commas.
    pub p: String,
    /// The text.
    pub m: String,
    /// Where on the time axis the first field of `p` puts the comment, or
    /// nothing where that field is no number. Only the order of these
    /// values matters here.
    pub time: Option<i64>,
}

/// A comment seen as plain values.
pub struct CommentView {
    pub p: Seq<char>,
    pub m: Seq<char>,
    pub time: Option<i64>,
}

impl View for Comment {
    type V = CommentView;

    open spec fn view(&self) -> CommentView {
        CommentView { p: self.p@, m: self.m@, time: self.time }
    }
}

/// A comment made ready for display.
#[derive(Debug)]
pub struct Danmaku {
    /// The text, with line breaks marked.
    pub message: String,
    /// The width of the text in user-perceived characters.
    pub count: usize,
    /// Where on the time axis the comment appears.
    pub time: i64,
    pub r: u8,
    pub g: u8,
    pub b: u8,
    pub source: Source,
    /// Whether comments of this source are hidden.
    pub blocked: bool,
}

/// A displayed comment seen as plain values.
pub struct DanmakuView {
    pub message: Seq<char>,
    pub count: usize,
    pub time: i64,
    pub r: u8,
    pub g: u8,
    pub b: u8,
    pub source: Source,
    pub blocked: bool,
}

impl View for Danmaku {
    type V = DanmakuView;

    open spec fn view(&self) -> DanmakuView {
        DanmakuView {
            message: self.message@,
            count: self.count,
            time: self.time,
            r: self.r,
            g: self.g,
            b: self.b,
            source: self.source,
            blocked: self.blocked,
        }
    }
}

/// The words and sources that are not shown.
pub struct Filter {
    /// A comment whose text holds one of these is dropped.
    pub keywords: Vec<String>,
    /// Comments of these sources are marked as hidden.
    pub sources: Vec<Source>,
}

/// Why a comment could not be made ready.
#[derive(Clone, Copy, Debug, PartialEq, Eq, Structural)]
pub enum CommentError {
    /// The time field is no number.
    BadTime,
    /// The parameters have fewer than four fields.
    MissingField,
    /// The colour field is no number of 24 bits.
    BadColor,
}

/// The texts of the strings of `words`.
pub open spec fn word_texts(words: Seq<String>) -> Seq<Seq<char>> {
    words.map_values(|word: String| word@)
}

/// Whether `text` holds one of `words`.
pub open spec fn keyword_hit(text: Seq<char>, words: Seq<Seq<char>>) -> bool {
    exists|k: int| 0 <= k < words.len() && contains_text(text, #[trigger] words[k])
}

/// The event that a comment becomes, or why it becomes none.
pub open spec fn event_of(
    comment: CommentView,
    configured: Seq<Source>,
    live: Option<Seq<Source>>,
) -> Result<DanmakuView, CommentError> {
    let fields = all_fields(comment.p);
    if comment.time is None {
        Err(CommentError::BadTime)
    } else if fields.len() < 3 {
        Err(CommentError::MissingField)
    } else if parsed_u32(fields[2]) is None {
        Err(CommentError::BadColor)
    } else if fields.len() < 4 {
        Err(CommentError::MissingField)
    } else if color_bytes(parsed_u32(fields[2])->0) is None {
        Err(CommentError::BadColor)
    } else {
        let bytes = color_bytes(parsed_u32(fields[2])->0)->0;
        let source = source_of_user(fields[3]);
        Ok(
            DanmakuView {
                message: escaped(comment.m),
                count: grapheme_clusters(comment.m) as usize,
                time: comment.time->0,
                r: bytes.0,
                g: bytes.1,
                b: bytes.2,
                source,
                blocked: is_blocked(source, configured, live),
            },
        )
    }
}

/// The events of the comments that hold no blocked word, in the comments'
/// order, or the reason why the first of them that could not be made ready
/// could not.
pub open spec fn normalized(
    comments: Seq<CommentView>,
    words: Seq<Seq<char>>,
    configured: Seq<Source>,
    live: Option<Seq<Source>>,
) -> Result<Seq<DanmakuView>, CommentError>
    decreases comments.len(),
{
    if comments.len() == 0 {
        Ok(Seq::empty())
    } else {
        match normalized(comments.drop_last(), words, configured, live) {
            Err(err) => Err(err),
            Ok(events) => if keyword_hit(comments.last().m, words) {
                Ok(events)
            } else {
                match event_of(comments.last(), configured, live) {
                    Ok(event) => Ok(events.push(event)),
                    Err(err) => Err(err),
                }
            },
        }
    }
}

/// Whether the events stand in ascending order of time.
pub open spec fn sorted_by_time(events: Seq<DanmakuView>) -> bool {
    forall|i: int, j: int| 0 <= i <= j < events.len() ==> events[i].time <= events[j].time
}

/// The views of the comments of `list`.
pub open spec fn comment_views(list: Seq<Comment>) -> Seq<CommentView> {
    list.map_values(|comment: Comment| comment@)
}

/// The views of the events of `list`.
pub open spec fn event_views(list: Seq<Danmaku>) -> Seq<DanmakuView> {
    list.map_values(|event: Danmaku| event@)
}

/// The live choice of hidden sources seen as plain values.
pub open spec fn live_view(live: Option<Vec<Source>>) -> Option<Seq<Source>> {
    match live {
        Some(chosen) => Some(chosen@),
        None => None,
    }
}

fn hit_by(text: &Vec<char>, words: &Vec<Vec<char>>) -> (hit: bool)
    ensures
        hit == keyword_hit(text@, texts(words@)),
{
    let mut k: usize = 0;
    while k < words.len()
        invariant
            k <= words@.len(),
            forall|j: int| 0 <= j < k ==> !contains_text(text@, #[trigger] texts(words@)[j]),
        decreases words@.len() - k,
    {
        if contains_chars(text, &words[k]) {
            assert(contains_text(text@, texts(words@)[k as int]));
            return true;
        }
        assert(texts(words@)[k as int] == words@[k as int]@);
        k = k + 1;
    }
    false
}

fn word_chars(words: &Vec<String>) -> (out: Vec<Vec<char>>)
    ensures
        texts(out@) == word_texts(words@),
{
    let mut out: Vec<Vec<char>> = Vec::new();
    let mut k: usize = 0;
    while k < words.len()
        invariant
            k <= words@.len(),
            out@.len() == k,
            forall|j: int| 0 <= j < k ==> out@[j]@ == words@[j]@,
        decreases words@.len() - k,
    {
        out.push(chars_of(words[k].as_str()));
        k = k + 1;
    }
    assert(texts(out@) =~= word_texts(words@));
    out
}

/// Makes one comment ready for display.
pub fn make_event(comment: &Comment, filter: &Filter, live: &Option<Vec<Source>>) -> (event: Result<
    Danmaku,
    CommentError,
>)
    ensures
        match event {
            Ok(made) => event_of(comment@, filter.sources@, live_view(*live)) == Ok::<
                DanmakuView,
                CommentError,
            >(made@),
            Err(err) => event_of(comment@, filter.sources@, live_view(*live)) == Err::<
                DanmakuView,
                CommentError,
            >(err),
        },
{
    let time: i64 = match comment.time {
        Some(time) => time,
        None => {
            return Err(CommentError::BadTime);
        },
    };
    let p: Vec<char> = chars_of(comment.p.as_str());
    let fields: Vec<Vec<char>> = split_all(&p);
    assert(texts(fields@).len() == fields@.len());
    if fields.len() < 3 {
        return Err(CommentError::MissingField);
    }
    assert(texts(fields@)[2] == fields@[2]@);
    let color: u32 = match parse_u32(&fields[2]) {
        Some(color) => color,
        None => {
            return Err(CommentError::BadColor);
        },
    };
    if fields.len() < 4 {
        return Err(CommentError::MissingField);
    }
    assert(texts(fields@)[3] == fields@[3]@);
    let (r, g, b): (u8, u8, u8) = match unpack_color(color) {
        Some(bytes) => bytes,
        None => {
            return Err(CommentError::BadColor);
        },
    };
    let source: Source = classify_user(&fields[3]);
    let blocked: bool = match live {
        Some(chosen) => holds_source(chosen, source),
        None => holds_source(&filter.sources, source),
    };
    let m: Vec<char> = chars_of(comment.m.as_str());
    let message: String = string_of(&escape_line_feeds(&m));
    let count: usize = count_graphemes(comment.m.as_str());
    Ok(Danmaku { message, count, time, r, g, b, source, blocked })
}

/// The place of an event of time `time` among `events`: behind the last
/// event that is not later.
pub open spec fn slot(events: Seq<DanmakuView>, time: i64) -> int
    decreases events.len(),
{
    if events.len() == 0 || events.last().time <= time {
        events.len() as int
    } else {
        slot(events.drop_last(), time)
    }
}

/// `events` with `event` put in its place.
pub open spec fn placed(events: Seq<DanmakuView>, event: DanmakuView) -> Seq<DanmakuView> {
    events.insert(slot(events, event.time), event)
}

/// The events put in ascending order of time, one after the other; events
/// of one time keep their order.
pub open spec fn arranged(events: Seq<DanmakuView>) -> Seq<DanmakuView>
    decreases events.len(),
{
    if events.len() == 0 {
        Seq::empty()
    } else {
        placed(arranged(events.drop_last()), events.last())
    }
}

/// The place of an event lies within the list; the events from it on are
/// later, and where the list is in order, those before it are not.
pub proof fn lemma_slot(events: Seq<DanmakuView>, time: i64)
    ensures
        0 <= slot(events, time) <= events.len(),
        forall|k: int| slot(events, time) <= k < events.len() ==> events[k].time > time,
        sorted_by_time(events) ==> forall|k: int|
            0 <= k < slot(events, time) ==> events[k].time <= time,
    decreases events.len(),
{
    if events.len() > 0 && events.last().time > time {
        let front = events.drop_last();
        lemma_slot(front, time);
        assert forall|k: int| slot(events, time) <= k < events.len() implies events[k].time
            > time by {
            if k < front.len() {
                assert(front[k].time > time);
            }
        }
        if sorted_by_time(events) {
            assert forall|i: int, j: int| 0 <= i <= j < front.len() implies front[i].time
                <= front[j].time by {
                assert(events[i].time <= events[j].time);
            }
            assert forall|k: int| 0 <= k < slot(events, time) implies events[k].time <= time by {
                assert(front[k].time <= time);
            }
        }
    } else if events.len() > 0 {
        if sorted_by_time(events) {
            assert forall|k: int| 0 <= k < events.len() implies events[k].time <= time by {
                assert(events[k].time <= events[events.len() - 1].time);
            }
        }
    }
}

/// An event put in its place adds itself and takes nothing away, and
/// leaves a list that was in order in order.
pub proof fn lemma_placed(events: Seq<DanmakuView>, event: DanmakuView)
    ensures
        placed(events, event).to_multiset() == events.to_multiset().insert(event),
        sorted_by_time(events) ==> sorted_by_time(placed(events, event)),
{
    lemma_slot(events, event.time);
    let at = slot(events, event.time);
    vstd::seq_lib::to_multiset_insert(events, at, event);
    if sorted_by_time(events) {
        let after = placed(events, event);
        assert forall|i: int, j: int| 0 <= i <= j < after.len() implies after[i].time
            <= after[j].time by {
            if i < at && j > at {
                assert(events[i].time <= events[j - 1].time);
            } else if i < at && j < at {
                assert(events[i].time <= events[j].time);
            } else if i > at {
                assert(events[i - 1].time <= events[j - 1].time);
            }
        }
    }
}

/// What `arranged` gives is in ascending order of time and holds the very
/// events it was given.
pub proof fn lemma_arranged(events: Seq<DanmakuView>)
    ensures
        sorted_by_time(arranged(events)),
        arranged(events).to_multiset() == events.to_multiset(),
        arranged(events).len() == events.len(),
    decreases events.len(),
{
    if events.len() > 0 {
        let front = events.drop_last();
        lemma_arranged(front);
        lemma_placed(arranged(front), events.last());
        lemma_slot(arranged(front), events.last().time);
        vstd::seq_lib::to_multiset_build(front, events.last());
        assert(front.push(events.last()) == events);
    } else {
        assert(arranged(events) == events);
    }
}

/// Puts `event` in its place among `events`: behind the last event that is
/// not later.
pub fn insert_by_time(events: &mut Vec<Danmaku>, event: Danmaku)
    ensures
        event_views(final(events)@) == placed(event_views(old(events)@), event@),
{
    let mut at: usize = events.len();
    assert(event_views(events@).take(at as int) == event_views(events@));
    while at > 0 && events[at - 1].time > event.time
        invariant
            at <= events@.len(),
            events@ == old(events)@,
            slot(event_views(events@), event.time) == slot(
                event_views(events@).take(at as int),
                event.time,
            ),
        decreases at,
    {
        assert(event_views(events@).take(at as int).drop_last() == event_views(events@).take(
            at - 1,
        ));
        at = at - 1;
    }
    let ghost before = event_views(events@);
    events.insert(at, event);
    assert(event_views(events@) =~= before.insert(at as int, event@));
}

/// Drops the comments that hold a blocked word, makes the others ready for
/// display and puts them in ascending order of time, those of one time in
/// the order in which they came. Fails on the first comment, among those
/// not dropped, that cannot be made ready.
pub fn normalize_comments(
    comments: &Vec<Comment>,
    filter: &Filter,
    live: &Option<Vec<Source>>,
) -> (result: Result<Vec<Danmaku>, CommentError>)
    ensures
        match result {
            Ok(events) => match normalized(
                comment_views(comments@),
                word_texts(filter.keywords@),
                filter.sources@,
                live_view(*live),
            ) {
                Ok(expected) => event_views(events@) == arranged(expected),
                Err(_) => false,
            },
            Err(err) => normalized(
                comment_views(comments@),
                word_texts(filter.keywords@),
                filter.sources@,
                live_view(*live),
            ) == Err::<Seq<DanmakuView>, CommentError>(err),
        },
{
    let words: Vec<Vec<char>> = word_chars(&filter.keywords);
    let mut events: Vec<Danmaku> = Vec::new();
    let ghost all = comment_views(comments@);
    let ghost mut made: Seq<DanmakuView> = Seq::empty();
    let mut i: usize = 0;
    assert(all.take(0) == Seq::<CommentView>::empty());
    assert(event_views(events@) == made);
    while i < comments.len()
        invariant
            i <= comments@.len(),
            all == comment_views(comments@),
            texts(words@) == word_texts(filter.keywords@),
            normalized(all.take(i as int), texts(words@), filter.sources@, live_view(*live))
                == Ok::<Seq<DanmakuView>, CommentError>(made),
            event_views(events@) == arranged(made),
        decreases comments@.len() - i,
    {
        let comment: &Comment = &comments[i];
        proof {
            assert(all.take(i + 1).drop_last() == all.take(i as int));
            assert(all.take(i + 1).last() == comment@);
        }
        let text: Vec<char> = chars_of(comment.m.as_str());
        if !hit_by(&text, &words) {
            match make_event(comment, filter, live) {
                Ok(event) => {
                    proof {
                        assert(made.push(event@).drop_last() == made);
                        made = made.push(event@);
                    }
                    insert_by_time(&mut events, event);
                },
                Err(err) => {
                    proof {
                        lemma_failure_stays(
                            all,
                            i + 1,
                            texts(words@),
                            filter.sources@,
                            live_view(*live),
                        );
                    }
                    return Err(err);
                },
            }
        }
        i = i + 1;
    }
    assert(all.take(all.len() as int) == all);
    Ok(events)
}

/// Once a comment has failed, the comments after it change nothing.
pub proof fn lemma_failure_stays(
    comments: Seq<CommentView>,
    k: int,
    words: Seq<Seq<char>>,
    configured: Seq<Source>,
    live: Option<Seq<Source>>,
)
    requires
        0 <= k <= comments.len(),
        normalized(comments.take(k), words, configured, live) is Err,
    ensures
        normalized(comments, words, configured, live) == normalized(
            comments.take(k),
            words,
            configured,
            live,
        ),
    decreases comments.len() - k,
{
    if k == comments.len() {
        assert(comments.take(k) == comments);
    } else {
        assert(comments.take(k + 1).drop_last() == comments.take(k));
        lemma_failure_stays(comments, k + 1, words, configured, live);
    }
}

/// A comment that holds a blocked word leaves no trace: the outcome is
/// that of the comments without it, whatever its parameters say.
pub proof fn lemma_blocked_comment_leaves_no_trace(
    comments: Seq<CommentView>,
    j: int,
    words: Seq<Seq<char>>,
    configured: Seq<Source>,
    live: Option<Seq<Source>>,
)
    requires
        0 <= j < comments.len(),
        keyword_hit(comments[j].m, words),
    ensures
        normalized(comments, words, configured, live) == normalized(
            comments.remove(j),
            words,
            configured,
            live,
        ),
    decreases comments.len(),
{
    if j == comments.len() - 1 {
        assert(comments.remove(j) == comments.drop_last());
    } else {
        lemma_blocked_comment_leaves_no_trace(comments.drop_last(), j, words, configured, live);
        assert(comments.remove(j).drop_last() == comments.drop_last().remove(j));
        assert(comments.remove(j).last() == comments.last());
    }
}

/// The number of comments that hold none of `words`.
pub open spec fn unblocked(comments: Seq<CommentView>, words: Seq<Seq<char>>) -> nat
    decreases comments.len(),
{
    if comments.len() == 0 {
        0
    } else if keyword_hit(comments.last().m, words) {
        unblocked(comments.drop_last(), words)
    } else {
        unblocked(comments.drop_last(), words) + 1
    }
}

/// No event stems from a comment that holds a blocked word: each event
/// is that of a comment holding none, and there are as many events as such
/// comments.
pub proof fn lemma_events_hold_no_blocked_word(
    comments: Seq<CommentView>,
    words: Seq<Seq<char>>,
    configured: Seq<Source>,
    live: Option<Seq<Source>>,
)
    requires
        normalized(comments, words, configured, live) is Ok,
    ensures
        normalized(comments, words, configured, live)->Ok_0.len() == unblocked(comments, words),
        forall|k: int|
            0 <= k < normalized(comments, words, configured, live)->Ok_0.len() ==> exists|j: int|
                0 <= j < comments.len() && !keyword_hit(comments[j].m, words) && event_of(
                    comments[j],
                    configured,
                    live,
                ) == Ok::<DanmakuView, CommentError>(
                    #[trigger] normalized(comments, words, configured, live)->Ok_0[k],
                ),
    decreases comments.len(),
{
    if comments.len() > 0 {
        let front = comments.drop_last();
        lemma_events_hold_no_blocked_word(front, words, configured, live);
        let events = normalized(comments, words, configured, live)->Ok_0;
        let before = normalized(front, words, configured, live)->Ok_0;
        assert forall|k: int| 0 <= k < events.len() implies exists|j: int|
            0 <= j < comments.len() && !keyword_hit(comments[j].m, words) && event_of(
                comments[j],
                configured,
                live,
            ) == Ok::<DanmakuView, CommentError>(#[trigger] events[k]) by {
            if k < before.len() {
                assert(events[k] == before[k]);
                let j = choose|j: int|
                    0 <= j < front.len() && !keyword_hit(front[j].m, words) && event_of(
                        front[j],
                        configured,
                        live,
                    ) == Ok::<DanmakuView, CommentError>(before[k]);
                assert(comments[j] == front[j]);
            } else {
                let j = comments.len() - 1;
                assert(event_of(comments[j], configured, live) == Ok::<
                    DanmakuView,
                    CommentError,
                >(events[k]));
            }
        }
    }
}


/// Of a comment's parameters the first four fields alone are read: two
/// comments that agree on them, on their text and on their time become the
/// same event.
pub proof fn lemma_only_four_fields_are_read(
    one: CommentView,
    other: CommentView,
    configured: Seq<Source>,
    live: Option<Seq<Source>>,
)
    requires
        one.m == other.m,
        one.time == other.time,
        all_fields(one.p).len() >= 4,
        all_fields(other.p).len() >= 4,
        all_fields(one.p).take(4) == all_fields(other.p).take(4),
    ensures
        event_of(one, configured, live) == event_of(other, configured, live),
{
    let left = all_fields(one.p);
    let right = all_fields(other.p);
    assert(left[2] == left.take(4)[2]);
    assert(right[2] == right.take(4)[2]);
    assert(left[3] == left.take(4)[3]);
    assert(right[3] == right.take(4)[3]);
}

/// What follows a fourth comma is ignored: parameters of four fields or
/// more give the same event with more fields behind them.
pub proof fn lemma_extra_fields_are_ignored(
    comment: CommentView,
    extra: Seq<char>,
    configured: Seq<Source>,
    live: Option<Seq<Source>>,
)
    requires
        all_fields(comment.p).len() >= 4,
    ensures
        event_of(
            CommentView { p: comment.p + seq![','] + extra, m: comment.m, time: comment.time },
            configured,
            live,
        ) == event_of(comment, configured, live),
{
    let longer = CommentView { p: comment.p + seq![','] + extra, m: comment.m, time: comment.time };
    lemma_all_fields_of_joined(comment.p, extra);
    assert(all_fields(longer.p).take(4) == all_fields(comment.p).take(4));
    lemma_only_four_fields_are_read(longer, comment, configured, live);
}

} // verus!
