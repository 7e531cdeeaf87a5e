//! The addresses under which the library and the catalog are asked.

use crate::emby::{in_series, kind_name, EpInfo, MediaIdentity};
use crate::text::{decimal_text, push_decimal, push_text, string_of};
use vstd::prelude::*;
use vstd::utf8::encode_utf8;

verus! {

/// The character that writes the hexadecimal digit `nibble` with capital
/// letters.
pub open spec fn upper_hex(nibble: int) -> char {
    if nibble < 10 {
        ('0' as int + nibble) as char
    } else {
        ('A' as int + nibble - 10) as char
    }
}

/// Whether a byte stands for itself in a form's encoding: the letters and
/// digits of ASCII, and `*`, `-`, `.` and `_`.
pub open spec fn stands_for_itself(byte: u8) -> bool {
    ||| byte == 0x2a
    ||| byte == 0x2d
    ||| byte == 0x2e
    ||| 0x30 <= byte <= 0x39
    ||| 0x41 <= byte <= 0x5a
    ||| byte == 0x5f
    ||| 0x61 <= byte <= 0x7a
}

/// What a byte becomes in a form's encoding: a space becomes a plus sign,
/// a byte that stands for itself its character, any other a percent sign
/// and its two hexadecimal digits.
pub open spec fn form_byte(byte: u8) -> Seq<char> {
    if stands_for_itself(byte) {
        seq![byte as char]
    } else if byte == 0x20 {
        seq!['+']
    } else {
        seq!['%', upper_hex(byte as int / 16), upper_hex(byte as int % 16)]
    }
}

/// The bytes of `bytes` in a form's encoding, one after the other.
pub open spec fn form_text(bytes: Seq<u8>) -> Seq<char>
    decreases bytes.len(),
{
    if bytes.len() == 0 {
        Seq::empty()
    } else {
        form_text(bytes.drop_last()) + form_byte(bytes.last())
    }
}

/// `form_urlencoded::byte_serialize`, collected: each byte in the
/// encoding of `application/x-www-form-urlencoded`.
#[verifier::external_body]
fn form_encode(bytes: &[u8]) -> (text: String)
    ensures
        text@ == form_text(bytes@),
{
    url::form_urlencoded::byte_serialize(bytes).collect()
}

/// The address under which the catalog is searched for `title` among the
/// items of the kind that goes by `kind`.
pub open spec fn search_address(title: Seq<char>, kind: Seq<char>) -> Seq<char> {
    "https://api.dandanplay.net/api/v2/search/anime?keyword="@ + form_text(encode_utf8(title))
        + "&type="@ + kind
}

/// The address under which the catalog is searched for the series of the
/// item, or for the item itself where it belongs to none.
pub fn search_url(ep_info: &EpInfo) -> (url: String)
    ensures
        url@ == search_address(
            if in_series(ep_info.kind) {
                ep_info.item_info.ss_name@
            } else {
                ep_info.item_info.name@
            },
            kind_name(ep_info.kind),
        ),
{
    let title: String = ep_info.get_series_name();
    let keyword: String = form_encode(title.as_str().as_bytes());
    let mut url: Vec<char> = Vec::new();
    push_text(&mut url, "https://api.dandanplay.net/api/v2/search/anime?keyword=");
    push_text(&mut url, keyword.as_str());
    push_text(&mut url, "&type=");
    push_text(&mut url, ep_info.kind.name());
    string_of(&url)
}

/// The address under which the catalog is asked for an episode by the
/// hash and the name of its file.
pub fn match_url() -> (url: &'static str)
    ensures
        url@ == "https://api.dandanplay.net/api/v2/match"@,
{
    "https://api.dandanplay.net/api/v2/match"
}

/// The address of the comments of episode `episode_id`.
pub open spec fn comment_address(episode_id: usize) -> Seq<char> {
    "https://api.dandanplay.net/api/v2/comment/"@ + decimal_text(episode_id as nat)
        + "?withRelated=true"@
}

/// The address under which the catalog gives the comments of episode
/// `episode_id`, with those of related sources.
pub fn comment_url(episode_id: usize) -> (url: String)
    ensures
        url@ == comment_address(episode_id),
{
    let mut url: Vec<char> = Vec::new();
    push_text(&mut url, "https://api.dandanplay.net/api/v2/comment/");
    push_decimal(&mut url, episode_id as u64);
    push_text(&mut url, "?withRelated=true");
    string_of(&url)
}

/// The address under which the library describes item `params.item_id`.
pub fn item_url(params: &MediaIdentity) -> (url: String)
    ensures
        url@ == params.host@ + "/emby/Items?Ids="@ + params.item_id@ + "&reqformat=json"@,
{
    let mut url: Vec<char> = Vec::new();
    push_text(&mut url, params.host.as_str());
    push_text(&mut url, "/emby/Items?Ids=");
    push_text(&mut url, params.item_id.as_str());
    push_text(&mut url, "&reqformat=json");
    string_of(&url)
}

/// The address under which the library lists the seasons of the item's
/// series.
pub fn seasons_url(ep_info: &EpInfo) -> (url: String)
    ensures
        url@ == ep_info.host@ + "/emby/Shows/"@ + ep_info.item_info.ss_id@
            + "/Seasons?reqformat=json"@,
{
    let mut url: Vec<char> = Vec::new();
    push_text(&mut url, ep_info.host.as_str());
    push_text(&mut url, "/emby/Shows/");
    push_text(&mut url, ep_info.item_info.ss_id.as_str());
    push_text(&mut url, "/Seasons?reqformat=json");
    string_of(&url)
}

/// The address under which the library lists the episodes of season
/// `season_id` of the item's series.
pub fn episodes_url(ep_info: &EpInfo, season_id: &str) -> (url: String)
    ensures
        url@ == ep_info.host@ + "/emby/Shows/"@ + ep_info.item_info.ss_id@
            + "/Episodes?SeasonId="@ + season_id@ + "&reqformat=json"@,
{
    let mut url: Vec<char> = Vec::new();
    push_text(&mut url, ep_info.host.as_str());
    push_text(&mut url, "/emby/Shows/");
    push_text(&mut url, ep_info.item_info.ss_id.as_str());
    push_text(&mut url, "/Episodes?SeasonId=");
    push_text(&mut url, season_id);
    push_text(&mut url, "&reqformat=json");
    string_of(&url)
}

} // verus!
