//! What a media-library server says about the item being played.

use crate::text::{
    decimal_text, push_decimal, push_signed, push_text, same_text, signed_text, string_of,
};
use vstd::prelude::*;
use vstd::string::StringExecFns;

verus! {

/// The kind of item a playback URL points at.
#[derive(Clone, Copy, Debug, PartialEq, Eq, Structural)]
pub enum ItemKind {
    TvSeries,
    Ova,
    Movie,
    Unknown,
}

/// Titles, indices and references of one library item.
#[derive(Debug)]
pub struct ItemInfo {
    pub name: String,
    pub ss_name: String,
    pub ep_index: u64,
    pub sn_index: i64,
    pub ss_id: String,
    pub se_id: String,
    pub item_id: String,
}

/// Metadata of the episode being played; `status` is false when none
/// could be obtained.
#[derive(Debug)]
pub struct EpInfo {
    pub kind: ItemKind,
    pub host: String,
    pub api_key: String,
    pub item_info: ItemInfo,
    pub status: bool,
}


impl ItemKind {
    /// The word by which the catalog's search knows the kind.
    pub fn name(&self) -> (name: &'static str)
        ensures
            name@ == kind_name(*self),
    {
        match self {
            ItemKind::TvSeries => "tvseries",
            ItemKind::Ova => "ova",
            ItemKind::Movie => "movie",
            ItemKind::Unknown => "unknown",
        }
    }
}

/// The word by which the catalog's search knows the kind.
pub open spec fn kind_name(kind: ItemKind) -> Seq<char> {
    match kind {
        ItemKind::TvSeries => "tvseries"@,
        ItemKind::Ova => "ova"@,
        ItemKind::Movie => "movie"@,
        ItemKind::Unknown => "unknown"@,
    }
}

impl Default for ItemInfo {
    /// An item of which nothing is known.
    fn default() -> (info: Self)
        ensures
            info.name@ == "unknown"@,
            info.ss_name@ == "unknown"@,
            info.ep_index == 0,
            info.sn_index == -1,
            info.ss_id@ == "0"@,
            info.se_id@ == "0"@,
            info.item_id@ == "0"@,
    {
        ItemInfo {
            name: String::from_str("unknown"),
            ss_name: String::from_str("unknown"),
            ep_index: 0,
            sn_index: -1,
            ss_id: String::from_str("0"),
            se_id: String::from_str("0"),
            item_id: String::from_str("0"),
        }
    }
}

/// Whether nothing is known of the item.
pub open spec fn is_blank(info: ItemInfo) -> bool {
    &&& info.name@ == "unknown"@
    &&& info.ss_name@ == "unknown"@
    &&& info.ep_index == 0
    &&& info.sn_index == -1
    &&& info.ss_id@ == "0"@
    &&& info.se_id@ == "0"@
    &&& info.item_id@ == "0"@
}

/// Whether the metadata says that none could be obtained.
pub open spec fn is_absent(info: EpInfo) -> bool {
    &&& info.kind == ItemKind::Unknown
    &&& info.host@ == "unknown"@
    &&& info.api_key@ == "unknown"@
    &&& is_blank(info.item_info)
    &&& !info.status
}

impl Default for EpInfo {
    /// Metadata that says that none could be obtained.
    fn default() -> (info: Self)
        ensures
            is_absent(info),
    {
        EpInfo {
            kind: ItemKind::Unknown,
            host: String::from_str("unknown"),
            api_key: String::from_str("unknown"),
            item_info: ItemInfo::default(),
            status: false,
        }
    }
}

/// Whether items of the kind belong to a series.
pub open spec fn in_series(kind: ItemKind) -> bool {
    kind == ItemKind::TvSeries || kind == ItemKind::Ova
}

impl EpInfo {
    /// The name under which the item is looked up by its content: the
    /// series' title, a space and the item's own, for an item of a series;
    /// the item's own title otherwise.
    pub fn get_name(&self) -> (name: String)
        ensures
            name@ == if in_series(self.kind) {
                self.item_info.ss_name@.push(' ') + self.item_info.name@
            } else {
                self.item_info.name@
            },
    {
        match self.kind {
            ItemKind::TvSeries | ItemKind::Ova => {
                proof {
                    reveal_strlit(" ");
                }
                let mut name: String = self.item_info.ss_name.clone();
                name.append(" ");
                assert(name@ == self.item_info.ss_name@.push(' '));
                name.append(self.item_info.name.as_str());
                name
            },
            _ => self.item_info.name.clone(),
        }
    }

    /// The title under which the catalog is searched: the series' for an
    /// item of a series, the item's own otherwise.
    pub fn get_series_name(&self) -> (name: String)
        ensures
            name@ == if in_series(self.kind) {
                self.item_info.ss_name@
            } else {
                self.item_info.name@
            },
    {
        match self.kind {
            ItemKind::TvSeries | ItemKind::Ova => self.item_info.ss_name.clone(),
            _ => self.item_info.name.clone(),
        }
    }
}

/// The word that writes a truth value.
pub open spec fn bool_text(value: bool) -> Seq<char> {
    if value {
        "true"@
    } else {
        "false"@
    }
}

/// The line that describes the metadata `info` in a log.
pub open spec fn description(info: EpInfo) -> Seq<char> {
    "[Type: "@ + kind_name(info.kind) + "  Name: "@ + info.item_info.name@ + "  Series Name: "@
        + info.item_info.ss_name@ + "  Season Number: "@ + signed_text(
        info.item_info.sn_index as int,
    ) + "  Episode Number: "@ + decimal_text(info.item_info.ep_index as nat) + "  SeriesId: "@
        + info.item_info.ss_id@ + "  SeasonId: "@ + info.item_info.se_id@ + "  Status: "@
        + bool_text(info.status) + "]"@
}

impl EpInfo {
    /// One line that describes the metadata, for a log.
    pub fn describe(&self) -> (line: String)
        ensures
            line@ == description(*self),
    {
        let mut line: Vec<char> = Vec::new();
        push_text(&mut line, "[Type: ");
        push_text(&mut line, self.kind.name());
        push_text(&mut line, "  Name: ");
        push_text(&mut line, self.item_info.name.as_str());
        push_text(&mut line, "  Series Name: ");
        push_text(&mut line, self.item_info.ss_name.as_str());
        push_text(&mut line, "  Season Number: ");
        push_signed(&mut line, self.item_info.sn_index);
        push_text(&mut line, "  Episode Number: ");
        push_decimal(&mut line, self.item_info.ep_index);
        push_text(&mut line, "  SeriesId: ");
        push_text(&mut line, self.item_info.ss_id.as_str());
        push_text(&mut line, "  SeasonId: ");
        push_text(&mut line, self.item_info.se_id.as_str());
        push_text(&mut line, "  Status: ");
        push_text(
            &mut line,
            if self.status {
                "true"
            } else {
                "false"
            },
        );
        push_text(&mut line, "]");
        string_of(&line)
    }
}

/// One item of the library's answer to a lookup by id.
#[derive(Debug)]
pub struct EpDatum {
    /// What the library calls the item's type.
    pub item_type: String,
    pub name: String,
    pub series_name: String,
    pub season_index: i64,
    pub ep_index: u64,
    pub series_id: String,
    pub season_id: String,
}

impl Default for EpDatum {
    /// An item of which nothing is known.
    fn default() -> (datum: Self)
        ensures
            datum.item_type@ == "unknown"@,
            datum.name@ == "unknown"@,
            datum.series_name@ == "unknown"@,
            datum.season_index == -1,
            datum.ep_index == 0,
            datum.series_id@ == "0"@,
            datum.season_id@ == "0"@,
    {
        EpDatum {
            item_type: String::from_str("unknown"),
            name: String::from_str("unknown"),
            series_name: String::from_str("unknown"),
            season_index: -1,
            ep_index: 0,
            series_id: String::from_str("0"),
            season_id: String::from_str("0"),
        }
    }
}

/// Host, item and credential, as a playback URL names them.
#[derive(Debug)]
pub struct MediaIdentity {
    pub host: String,
    pub item_id: String,
    pub api_key: String,
}

/// Why the library's answer gives no metadata.
#[derive(Clone, Copy, Debug, PartialEq, Eq, Structural)]
pub enum MetadataError {
    /// The answer holds no item.
    NoItem,
}

/// Whether `info` is what the library's answer `datum` says of the item
/// that `host`, `item_id` and `api_key` name.
pub open spec fn describes(
    info: EpInfo,
    host: Seq<char>,
    item_id: Seq<char>,
    api_key: Seq<char>,
    datum: EpDatum,
) -> bool {
    if datum.item_type@ == "Episode"@ {
        &&& info.kind == if datum.season_index == 0 {
            ItemKind::Ova
        } else {
            ItemKind::TvSeries
        }
        &&& info.host@ == host
        &&& info.api_key@ == api_key
        &&& info.item_info.name@ == datum.name@
        &&& info.item_info.ss_name@ == datum.series_name@
        &&& info.item_info.sn_index == datum.season_index
        &&& info.item_info.ep_index == datum.ep_index
        &&& info.item_info.ss_id@ == datum.series_id@
        &&& info.item_info.se_id@ == datum.season_id@
        &&& info.item_info.item_id@ == item_id
        &&& info.status
    } else if datum.item_type@ == "Movie"@ {
        &&& info.kind == ItemKind::Movie
        &&& info.host@ == host
        &&& info.api_key@ == api_key
        &&& info.item_info.name@ == datum.name@
        &&& info.item_info.ss_name@ == "unknown"@
        &&& info.item_info.sn_index == -1
        &&& info.item_info.ep_index == 0
        &&& info.item_info.ss_id@ == "0"@
        &&& info.item_info.se_id@ == "0"@
        &&& info.item_info.item_id@ == item_id
        &&& info.status
    } else {
        is_absent(info)
    }
}

/// Reads the metadata of the item that `params` names off the library's
/// answer: its first item decides.
pub fn read_episode_info(params: MediaIdentity, items: &Vec<EpDatum>) -> (info: Result<
    EpInfo,
    MetadataError,
>)
    ensures
        items@.len() == 0 ==> info == Err::<EpInfo, MetadataError>(MetadataError::NoItem),
        items@.len() > 0 ==> info is Ok && describes(
            info->Ok_0,
            params.host@,
            params.item_id@,
            params.api_key@,
            items@[0],
        ),
{
    if items.len() == 0 {
        return Err(MetadataError::NoItem);
    }
    let datum: &EpDatum = &items[0];
    if same_text(datum.item_type.as_str(), "Episode") {
        let kind: ItemKind = if datum.season_index == 0 {
            ItemKind::Ova
        } else {
            ItemKind::TvSeries
        };
        Ok(
            EpInfo {
                kind,
                host: params.host,
                api_key: params.api_key,
                item_info: ItemInfo {
                    name: datum.name.clone(),
                    ss_name: datum.series_name.clone(),
                    sn_index: datum.season_index,
                    ep_index: datum.ep_index,
                    ss_id: datum.series_id.clone(),
                    se_id: datum.season_id.clone(),
                    item_id: params.item_id,
                },
                status: true,
            },
        )
    } else if same_text(datum.item_type.as_str(), "Movie") {
        let blank: ItemInfo = ItemInfo::default();
        Ok(
            EpInfo {
                kind: ItemKind::Movie,
                host: params.host,
                api_key: params.api_key,
                item_info: ItemInfo {
                    name: datum.name.clone(),
                    ss_name: blank.ss_name,
                    sn_index: blank.sn_index,
                    ep_index: blank.ep_index,
                    ss_id: blank.ss_id,
                    se_id: blank.se_id,
                    item_id: params.item_id,
                },
                status: true,
            },
        )
    } else {
        Ok(EpInfo::default())
    }
}


/// The parts of a URL that are read here.
#[derive(Debug)]
pub struct UrlParts {
    /// The scheme, in lower case, without the colon.
    pub scheme: String,
    /// The host, where the URL has one.
    pub host: Option<String>,
    /// The path, percent-encoded.
    pub path: String,
    /// The pairs of the query string, decoded, in their order.
    pub query: Vec<(String, String)>,
}

/// The parts of a URL seen as plain values.
pub struct UrlPartsView {
    pub scheme: Seq<char>,
    pub host: Option<Seq<char>>,
    pub path: Seq<char>,
    pub query: Seq<(Seq<char>, Seq<char>)>,
}

impl View for UrlParts {
    type V = UrlPartsView;

    open spec fn view(&self) -> UrlPartsView {
        UrlPartsView {
            scheme: self.scheme@,
            host: match self.host {
                Some(host) => Some(host@),
                None => None,
            },
            path: self.path@,
            query: self.query@.map_values(|pair: (String, String)| (pair.0@, pair.1@)),
        }
    }
}

/// The parts of `text` read as an absolute URL, or nothing where it is
/// none.
pub uninterp spec fn parsed_url(text: Seq<char>) -> Option<UrlPartsView>;

/// `Url::parse`, and of the URL it gives `scheme`, `host_str`, `path` and
/// `query_pairs`, each copied into a field. What they return depends on
/// the text alone.
#[verifier::external_body]
pub(crate) fn split_url(text: &str) -> (parts: Option<UrlParts>)
    ensures
        match parts {
            Some(found) => parsed_url(text@) == Some(found@),
            None => parsed_url(text@) is None,
        },
{
    match url::Url::parse(text) {
        Ok(parsed) => Some(
            UrlParts {
                scheme: parsed.scheme().to_string(),
                host: parsed.host_str().map(|host| host.to_string()),
                path: parsed.path().to_string(),
                query: parsed
                    .query_pairs()
                    .map(|(key, value)| (key.into_owned(), value.into_owned()))
                    .collect(),
            },
        ),
        Err(_) => None,
    }
}

/// `regex::Error`: why a pattern is no regular expression. Nothing is
/// read from it.
#[verifier::external_type_specification]
#[verifier::external_body]
pub struct ExRegexError(regex::Error);

/// What capture group `group` holds in the first match of the regular
/// expression `pattern` in `text`: nothing at all where `pattern` is no
/// regular expression, nothing inside where there is no match or the
/// group took no part in it.
pub uninterp spec fn regex_capture(pattern: Seq<char>, text: Seq<char>, group: usize) -> Option<
    Option<Seq<char>>,
>;

/// `Regex::new`, then `Regex::captures` and `Captures::get`: the text of
/// one capture group of the first match. What they return depends on the
/// pattern, the text and the group alone.
#[verifier::external_body]
pub(crate) fn first_capture(pattern: &str, text: &str, group: usize) -> (capture: Result<
    Option<String>,
    regex::Error,
>)
    ensures
        match capture {
            Ok(Some(part)) => regex_capture(pattern@, text@, group) == Some(Some(part@)),
            Ok(None) => regex_capture(pattern@, text@, group) == Some(None::<Seq<char>>),
            Err(_) => regex_capture(pattern@, text@, group) is None,
        },
{
    let expression = regex::Regex::new(pattern)?;
    Ok(
        expression.captures(text).and_then(|found| found.get(group)).map(
            |part| part.as_str().to_string(),
        ),
    )
}

/// Why a playback URL names no item of a library.
#[derive(Clone, Copy, Debug, PartialEq, Eq, Structural)]
pub enum ParamError {
    /// The text is no absolute URL.
    InvalidUrl,
    /// The URL has no host.
    HostNotFound,
    /// The query has no `api_key`.
    ApiKeyNotFound,
    /// The pattern for the item's id is no regular expression.
    BadPattern,
    /// The path names no item.
    ItemIdNotFound,
}

/// Host, item and credential seen as plain values.
pub struct MediaIdentityView {
    pub host: Seq<char>,
    pub item_id: Seq<char>,
    pub api_key: Seq<char>,
}

impl View for MediaIdentity {
    type V = MediaIdentityView;

    open spec fn view(&self) -> MediaIdentityView {
        MediaIdentityView { host: self.host@, item_id: self.item_id@, api_key: self.api_key@ }
    }
}

/// The position of the first pair of `query` under `key`, or the number of
/// pairs.
pub open spec fn first_pair(query: Seq<(Seq<char>, Seq<char>)>, key: Seq<char>, from: int) -> int
    decreases query.len() - from,
{
    if from >= query.len() {
        query.len() as int
    } else if query[from].0 == key {
        from
    } else {
        first_pair(query, key, from + 1)
    }
}

/// What a URL with the parts `parts` names, where `capture` is what the
/// pattern for the item's id has found in its path: the host with its
/// scheme, the value of the first `api_key` of the query, and the id.
pub open spec fn params_of(parts: UrlPartsView, capture: Option<Option<Seq<char>>>) -> Result<
    MediaIdentityView,
    ParamError,
> {
    let at = first_pair(parts.query, "api_key"@, 0);
    if parts.host is None {
        Err(ParamError::HostNotFound)
    } else if at >= parts.query.len() {
        Err(ParamError::ApiKeyNotFound)
    } else if capture is None {
        Err(ParamError::BadPattern)
    } else if capture->0 is None {
        Err(ParamError::ItemIdNotFound)
    } else {
        Ok(
            MediaIdentityView {
                host: parts.scheme + "://"@ + parts.host->0,
                item_id: capture->0->0,
                api_key: parts.query[at].1,
            },
        )
    }
}

/// The pattern that finds an item's id in the path of a playback URL.
pub open spec fn item_pattern() -> Seq<char> {
    "^.*/videos/(\\d+)/.*"@
}

/// What the playback URL `text` names.
pub open spec fn params_in(text: Seq<char>) -> Result<MediaIdentityView, ParamError> {
    match parsed_url(text) {
        None => Err(ParamError::InvalidUrl),
        Some(parts) => params_of(parts, regex_capture(item_pattern(), parts.path, 1)),
    }
}

/// The capture of a search seen as plain values.
pub open spec fn capture_view(capture: Option<Option<String>>) -> Option<Option<Seq<char>>> {
    match capture {
        Some(Some(part)) => Some(Some(part@)),
        Some(None) => Some(None),
        None => None,
    }
}

/// Puts together what a URL with the parts `parts` names, where `capture`
/// is what the pattern for the item's id has found in its path.
pub fn assemble_params(parts: &UrlParts, capture: Option<Option<String>>) -> (params: Result<
    MediaIdentity,
    ParamError,
>)
    ensures
        match params {
            Ok(found) => params_of(parts@, capture_view(capture)) == Ok::<
                MediaIdentityView,
                ParamError,
            >(found@),
            Err(err) => params_of(parts@, capture_view(capture)) == Err::<
                MediaIdentityView,
                ParamError,
            >(err),
        },
{
    let host_name: &String = match &parts.host {
        Some(host) => host,
        None => {
            return Err(ParamError::HostNotFound);
        },
    };
    let mut at: usize = 0;
    while at < parts.query.len() && !same_text(parts.query[at].0.as_str(), "api_key")
        invariant
            at <= parts.query@.len(),
            first_pair(parts@.query, "api_key"@, 0) == first_pair(
                parts@.query,
                "api_key"@,
                at as int,
            ),
        decreases parts.query@.len() - at,
    {
        at = at + 1;
    }
    if at >= parts.query.len() {
        return Err(ParamError::ApiKeyNotFound);
    }
    let item_id: String = match capture {
        None => {
            return Err(ParamError::BadPattern);
        },
        Some(None) => {
            return Err(ParamError::ItemIdNotFound);
        },
        Some(Some(part)) => part,
    };
    let mut host: String = parts.scheme.clone();
    host.append("://");
    host.append(host_name.as_str());
    Ok(MediaIdentity { host, item_id, api_key: parts.query[at].1.clone() })
}

/// Reads host, item and credential off a playback URL.
pub fn extract_params(video_url: &str) -> (params: Result<MediaIdentity, ParamError>)
    ensures
        match params {
            Ok(found) => params_in(video_url@) == Ok::<MediaIdentityView, ParamError>(found@),
            Err(err) => params_in(video_url@) == Err::<MediaIdentityView, ParamError>(err),
        },
{
    let parts: UrlParts = match split_url(video_url) {
        Some(parts) => parts,
        None => {
            return Err(ParamError::InvalidUrl);
        },
    };
    let capture: Option<Option<String>> = match first_capture(
        "^.*/videos/(\\d+)/.*",
        parts.path.as_str(),
        1,
    ) {
        Ok(capture) => Some(capture),
        Err(_) => None,
    };
    assemble_params(&parts, capture)
}


/// What is to be done about the metadata of what is played under
/// `video_url`: the library is asked about the item that the URL names,
/// or, where it names none, the metadata is absent without asking.
pub fn plan_lookup(video_url: &str) -> (plan: Result<MediaIdentity, EpInfo>)
    ensures
        match plan {
            Ok(found) => params_in(video_url@) == Ok::<MediaIdentityView, ParamError>(found@),
            Err(absent) => params_in(video_url@) is Err && is_absent(absent),
        },
{
    match extract_params(video_url) {
        Ok(found) => Ok(found),
        Err(_) => Err(EpInfo::default()),
    }
}

/// A season as the library lists it.
#[derive(Debug)]
pub struct Season {
    pub season_id: String,
    pub season_num: u64,
}

/// An episode as the library lists it under a season.
#[derive(Clone, Copy, Debug, PartialEq, Eq, Structural)]
pub struct Episode {
    pub season_num: u64,
    pub ep_num: u64,
}

/// The number of episodes that a season's list stands for: an episode
/// counts where it belongs to no season zero and its number is higher
/// than the count so far.
pub open spec fn counted(episodes: Seq<Episode>) -> nat
    decreases episodes.len(),
{
    if episodes.len() == 0 {
        0
    } else {
        let before = counted(episodes.drop_last());
        if episodes.last().season_num != 0 && episodes.last().ep_num > before {
            before + 1
        } else {
            before
        }
    }
}

/// No more episodes are counted than are listed.
pub proof fn lemma_counted_bound(episodes: Seq<Episode>)
    ensures
        counted(episodes) <= episodes.len(),
    decreases episodes.len(),
{
    if episodes.len() > 0 {
        lemma_counted_bound(episodes.drop_last());
    }
}

/// The number of episodes that a season's list stands for.
pub fn count_episodes(episodes: &Vec<Episode>) -> (count: u64)
    ensures
        count == counted(episodes@),
{
    let mut count: u64 = 0;
    let mut i: usize = 0;
    while i < episodes.len()
        invariant
            i <= episodes@.len(),
            count == counted(episodes@.take(i as int)),
        decreases episodes@.len() - i,
    {
        proof {
            assert(episodes@.take(i + 1).drop_last() == episodes@.take(i as int));
            lemma_counted_bound(episodes@.take(i as int));
        }
        if episodes[i].season_num != 0 && episodes[i].ep_num > count {
            count = count + 1;
        }
        i = i + 1;
    }
    assert(episodes@.take(episodes@.len() as int) == episodes@);
    count
}

/// The index of the season counted last, or zero where none was.
pub open spec fn last_index(list: Seq<(u64, u64)>) -> u64 {
    if list.len() == 0 {
        0
    } else {
        list.last().0
    }
}

/// Whether a season with index `season_num` is to be counted after those
/// of `list`: it is no season zero and comes after the last.
pub open spec fn is_wanted(list: Seq<(u64, u64)>, season_num: u64) -> bool {
    season_num != 0 && season_num > last_index(list)
}

/// Whether the indices of the seasons go up from one to the next and none
/// is zero.
pub open spec fn ascending(list: Seq<(u64, u64)>) -> bool {
    &&& forall|i: int, j: int| 0 <= i < j < list.len() ==> list[i].0 < list[j].0
    &&& forall|i: int| 0 <= i < list.len() ==> (#[trigger] list[i]).0 != 0
}

/// Whether a season with index `season_num` is to be counted after those
/// of `list`.
pub fn wants_season(list: &Vec<(u64, u64)>, season_num: u64) -> (wanted: bool)
    ensures
        wanted == is_wanted(list@, season_num),
{
    let last: u64 = if list.len() == 0 {
        0
    } else {
        list[list.len() - 1].0
    };
    season_num != 0 && season_num > last
}

/// The position of the first season from `from` on that is to be counted
/// after those of `list`, or the number of seasons.
pub open spec fn next_wanted(seasons: Seq<Season>, from: int, list: Seq<(u64, u64)>) -> int
    decreases seasons.len() - from,
{
    if from >= seasons.len() {
        seasons.len() as int
    } else if is_wanted(list, seasons[from].season_num) {
        from
    } else {
        next_wanted(seasons, from + 1, list)
    }
}

/// The season whose episodes are to be asked for next: the first from
/// `from` on that is to be counted after those of `list`.
pub fn next_season(seasons: &Vec<Season>, from: usize, list: &Vec<(u64, u64)>) -> (next: Option<
    usize,
>)
    ensures
        match next {
            Some(at) => from <= at < seasons@.len() && at == next_wanted(
                seasons@,
                from as int,
                list@,
            ) && is_wanted(list@, seasons@[at as int].season_num),
            None => next_wanted(seasons@, from as int, list@) >= seasons@.len(),
        },
{
    let mut at: usize = from;
    while at < seasons.len()
        invariant
            from <= at,
            next_wanted(seasons@, from as int, list@) == next_wanted(seasons@, at as int, list@),
        decreases seasons@.len() - at,
    {
        if wants_season(list, seasons[at].season_num) {
            return Some(at);
        }
        at = at + 1;
    }
    None
}

/// Counts the episodes of season `season_num` and adds the season to
/// `list`, where it is to be counted after those of `list`.
pub fn record_season(list: &mut Vec<(u64, u64)>, season_num: u64, episodes: &Vec<Episode>)
    ensures
        final(list)@ == if is_wanted(old(list)@, season_num) {
            old(list)@.push((season_num, counted(episodes@) as u64))
        } else {
            old(list)@
        },
        ascending(old(list)@) ==> ascending(final(list)@),
{
    if wants_season(list, season_num) {
        proof {
            lemma_counted_bound(episodes@);
        }
        let count: u64 = count_episodes(episodes);
        list.push((season_num, count));
        proof {
            if ascending(old(list)@) {
                assert forall|i: int, j: int| 0 <= i < j < list@.len() implies list@[i].0
                    < list@[j].0 by {
                    if j == list@.len() - 1 {
                        assert(old(list)@[i].0 <= old(list)@.last().0);
                    } else {
                        assert(old(list)@[i].0 < old(list)@[j].0);
                    }
                }
            }
        }
    }
}

/// Whether `url` is an absolute URL with the scheme `http` or `https`.
pub fn is_http_link(url: &str) -> (http: bool)
    ensures
        http == match parsed_url(url@) {
            Some(parts) => parts.scheme == "http"@ || parts.scheme == "https"@,
            None => false,
        },
{
    match split_url(url) {
        Some(parts) => same_text(parts.scheme.as_str(), "http") || same_text(
            parts.scheme.as_str(),
            "https",
        ),
        None => false,
    }
}

} // verus!
