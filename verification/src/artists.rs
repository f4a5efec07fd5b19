//! The artists I listened to most in the past week, as links to MusicBrainz.
use vstd::prelude::*;
use vstd::string::*;
use vstd::utf8::*;

use crate::sorting::{is_stable_order, stable_order};
use crate::text::{byte_key, byte_key_of};

verus! {

/// An artist as last.fm reports it: a name, and a MusicBrainz identifier
/// that is empty where last.fm has none.
pub struct Artist {
    pub name: String,
    pub mbid: String,
}

/// The lowercase form of a text as `str::to_lowercase` computes it (full
/// Unicode case mapping).
pub uninterp spec fn lowercase(s: Seq<char>) -> Seq<char>;

/// Calls `str::to_lowercase`. Trusted: that it returns `lowercase` of the
/// text.
#[verifier::external_body]
fn to_lowercase(s: &str) -> (r: String)
    ensures
        r@ == lowercase(s@),
{
    s.to_lowercase()
}

/// A byte that percent-encoding leaves as it is: an ASCII letter or digit,
/// `-`, `.`, `_` or `~`.
pub open spec fn is_unreserved(b: u8) -> bool {
    (48 <= b <= 57) || (65 <= b <= 90) || (97 <= b <= 122) || b == 45 || b == 46 || b == 95 || b == 126
}

/// The uppercase hexadecimal digit of `d` (`0 <= d < 16`).
pub open spec fn hex_digit(d: int) -> char {
    if d < 10 {
        (48 + d) as char
    } else {
        (55 + d) as char
    }
}

/// Percent-encoding of bytes: unreserved bytes stay, every other byte becomes
/// `%` and its two uppercase hexadecimal digits.
pub open spec fn percent_encoded(bytes: Seq<u8>) -> Seq<char>
    decreases bytes.len(),
{
    if bytes.len() == 0 {
        seq![]
    } else {
        let b = bytes.last();
        percent_encoded(bytes.drop_last()) + if is_unreserved(b) {
            seq![b as char]
        } else {
            seq!['%', hex_digit(b as int / 16), hex_digit(b as int % 16)]
        }
    }
}

/// Calls `urlencoding::encode`, which percent-encodes the UTF-8 bytes of the
/// text. Trusted: that the result is `percent_encoded` of those bytes, as the
/// crate's documentation and source give it.
#[verifier::external_body]
fn url_encode(s: &str) -> (r: String)
    ensures
        r@ == percent_encoded(encode_utf8(s@)),
{
    urlencoding::encode(s).into_owned()
}

/// The README line of an artist: a link to its MusicBrainz page, or to a
/// MusicBrainz search for its name where last.fm gives no identifier.
pub open spec fn artist_line(a: Artist) -> Seq<char> {
    if a.mbid@.len() == 0 {
        seq!['['] + a.name@ + "](https://musicbrainz.org/search?query="@ + percent_encoded(encode_utf8(a.name@))
            + "&type=artist&method=indexed)"@
    } else {
        seq!['['] + a.name@ + "](https://musicbrainz.org/artist/"@ + a.mbid@ + seq![')']
    }
}

/// The README line of an artist.
pub fn artist_link(a: &Artist) -> (r: String)
    ensures
        r@ == artist_line(*a),
{
    proof {
        reveal_strlit("[");
        reveal_strlit(")");
    }
    let mut s = "[".to_owned();
    s.append(a.name.as_str());
    if a.mbid.as_str().is_empty() {
        s.append("](https://musicbrainz.org/search?query=");
        let encoded = url_encode(a.name.as_str());
        s.append(encoded.as_str());
        s.append("&type=artist&method=indexed)");
    } else {
        s.append("](https://musicbrainz.org/artist/");
        s.append(a.mbid.as_str());
        s.append(")");
    }
    s
}

/// The key by which artists are listed: the bytes of their lowercase name.
pub open spec fn artist_keys(artists: Seq<Artist>) -> Seq<Seq<i64>> {
    artists.map_values(|a: Artist| byte_key(lowercase(a.name@)))
}

/// The README lines of the artists, in the order of their lowercase names
/// (equal ones in the order last.fm gave them).
pub fn artist_lines(artists: &Vec<Artist>) -> (r: Vec<String>)
    ensures
        exists|ranked: Seq<usize>|
            #![trigger is_stable_order(artist_keys(artists@), false, ranked)]
            is_stable_order(artist_keys(artists@), false, ranked)
            && r@.len() == artists@.len()
            && forall|k: int| 0 <= k < r@.len() ==> (#[trigger] r@[k])@ == artist_line(artists@[ranked[k] as int]),
{
    let n = artists.len();
    let mut keys: Vec<Vec<i64>> = Vec::new();
    for i in 0..n
        invariant
            n == artists@.len(),
            keys@.len() == i,
            forall|j: int| 0 <= j < i ==> (#[trigger] keys@[j])@ == byte_key(lowercase(artists@[j].name@)),
    {
        let lower = to_lowercase(artists[i].name.as_str());
        keys.push(byte_key_of(lower.as_str()));
    }
    assert(keys@.map_values(|k: Vec<i64>| k@) =~= artist_keys(artists@));
    let ranked = stable_order(&keys, false);
    let mut out: Vec<String> = Vec::new();
    for k in 0..n
        invariant
            n == artists@.len(),
            is_stable_order(artist_keys(artists@), false, ranked@),
            out@.len() == k,
            forall|j: int| 0 <= j < k ==> (#[trigger] out@[j])@ == artist_line(artists@[ranked@[j] as int]),
    {
        out.push(artist_link(&artists[ranked[k]]));
    }
    out
}

} // verus!
