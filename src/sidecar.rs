//! Episode sidecars: `<stem>.json` beside `<stem>.mpd` and `<stem>-thumb.jpg`.
use crate::asset_url::{asset_url, is_asset_path, path_to_asset_url, relative_to, segments_view};
use crate::model::VideoContent;
use vstd::prelude::*;
use vstd::utf8::encode_utf8;

verus! {

/// The text is a JSON document, as json::parse reads it.
pub uninterp spec fn json_parses(text: Seq<char>) -> bool;

/// The string member `key` of the JSON object in `text`, if there is one.
pub uninterp spec fn json_str_member(text: Seq<char>, key: Seq<char>) -> Option<Seq<char>>;

/// The unsigned integer member `key` of the JSON object in `text`, if there
/// is one.
pub uninterp spec fn json_u64_member(text: Seq<char>, key: Seq<char>) -> Option<u64>;

/// How many digits may follow a decimal point in a sidecar: json::parse
/// lowers an `i16` exponent once for each such digit of a zero mantissa.
pub const FRACTION_DIGIT_LIMIT: usize = 32768;

pub open spec fn is_digit(b: u8) -> bool {
    0x30 <= b && b <= 0x39
}

/// At `i` stands a `.` followed by at least `FRACTION_DIGIT_LIMIT` digits.
pub open spec fn long_fraction_at(t: Seq<u8>, i: int) -> bool {
    &&& 0 <= i
    &&& i + FRACTION_DIGIT_LIMIT < t.len()
    &&& t[i] == 0x2eu8
    &&& forall|q: int| 0 <= q < FRACTION_DIGIT_LIMIT ==> is_digit(#[trigger] t[i + 1 + q])
}

/// Somewhere in the bytes a `.` is followed by at least
/// `FRACTION_DIGIT_LIMIT` digits.
pub open spec fn has_long_fraction(t: Seq<u8>) -> bool {
    exists|i: int| long_fraction_at(t, i)
}

/// Whether some `.` in the bytes is followed by at least
/// `FRACTION_DIGIT_LIMIT` digits.
pub fn find_long_fraction(b: &[u8]) -> (r: bool)
    ensures
        r == has_long_fraction(b@),
{
    let n = b.len();
    let mut i: usize = 0;
    while i < n
        invariant
            n == b@.len(),
            i <= n,
            forall|k: int| 0 <= k < i ==> !long_fraction_at(b@, k),
        decreases n - i,
    {
        if b[i] == 0x2e {
            let mut j: usize = 0;
            while j < FRACTION_DIGIT_LIMIT && i + 1 + j < n && 0x30 <= b[i + 1 + j] && b[i + 1 + j] <= 0x39
                invariant
                    n == b@.len(),
                    i < n,
                    j <= FRACTION_DIGIT_LIMIT,
                    i + 1 + j <= n,
                    forall|q: int| 0 <= q < j ==> is_digit(#[trigger] b@[i + 1 + q]),
                decreases FRACTION_DIGIT_LIMIT - j,
            {
                j = j + 1;
            }
            if j == FRACTION_DIGIT_LIMIT && i + FRACTION_DIGIT_LIMIT < n {
                assert(long_fraction_at(b@, i as int));
                return true;
            }
            assert(!long_fraction_at(b@, i as int)) by {
                if long_fraction_at(b@, i as int) {
                    if j < FRACTION_DIGIT_LIMIT {
                        assert(is_digit(b@[i + 1 + j]));
                    }
                }
            }
        }
        i = i + 1;
    }
    false
}

/// Relies on json::parse: whether it accepts the text. It panics on no
/// other input than one with an overlong fraction.
#[verifier::external_body]
fn parses(text: &str) -> (r: bool)
    requires
        !has_long_fraction(encode_utf8(text@)),
    ensures
        r == json_parses(text@),
{
    json::parse(text).is_ok()
}

/// Relies on json::parse, then JsonValue's `Index<&str>` (null where there is
/// no such member) and JsonValue::as_str (`Some` only for a string).
#[verifier::external_body]
fn str_member(text: &str, key: &str) -> (r: Option<String>)
    requires
        !has_long_fraction(encode_utf8(text@)),
    ensures
        opt_view(r) == json_str_member(text@, key@),
        !json_parses(text@) ==> r is None,
{
    json::parse(text).ok().and_then(|v| v[key].as_str().map(|s| s.to_string()))
}

/// Relies on json::parse, then JsonValue's `Index<&str>` (null where there is
/// no such member) and JsonValue::as_u64 (`Some` only for a number that is a
/// u64).
#[verifier::external_body]
fn u64_member(text: &str, key: &str) -> (r: Option<u64>)
    requires
        !has_long_fraction(encode_utf8(text@)),
    ensures
        r == json_u64_member(text@, key@),
        !json_parses(text@) ==> r is None,
{
    json::parse(text).ok().and_then(|v| v[key].as_u64())
}

/// Decimal digits of a number, most significant first, no leading zero.
pub open spec fn decimal(n: nat) -> Seq<char>
    decreases n,
{
    if n < 10 {
        seq![((n + 0x30) as u8) as char]
    } else {
        decimal(n / 10).push((((n % 10) + 0x30) as u8) as char)
    }
}

/// The digit character of a value below ten.
fn digit_str(d: u64) -> (r: &'static str)
    requires
        d < 10,
    ensures
        r@ == seq![((d + 0x30) as u8) as char],
{
    if d == 0 {
        proof { reveal_strlit("0"); }
        "0"
    } else if d == 1 {
        proof { reveal_strlit("1"); }
        "1"
    } else if d == 2 {
        proof { reveal_strlit("2"); }
        "2"
    } else if d == 3 {
        proof { reveal_strlit("3"); }
        "3"
    } else if d == 4 {
        proof { reveal_strlit("4"); }
        "4"
    } else if d == 5 {
        proof { reveal_strlit("5"); }
        "5"
    } else if d == 6 {
        proof { reveal_strlit("6"); }
        "6"
    } else if d == 7 {
        proof { reveal_strlit("7"); }
        "7"
    } else if d == 8 {
        proof { reveal_strlit("8"); }
        "8"
    } else {
        proof { reveal_strlit("9"); }
        "9"
    }
}

/// A number in decimal.
pub fn decimal_string(n: u64) -> (r: String)
    ensures
        r@ == decimal(n as nat),
    decreases n,
{
    if n < 10 {
        String::from_str(digit_str(n))
    } else {
        let mut s = decimal_string(n / 10);
        s.append(digit_str(n % 10));
        s
    }
}

/// What a sidecar says, field by field; a field that is absent or has another
/// JSON type is `None`.
#[derive(PartialEq, Eq, Debug, Clone)]
pub struct SidecarFields {
    pub title: Option<String>,
    pub plot: Option<String>,
    pub episode: Option<u64>,
    pub season: Option<u64>,
    pub source: Option<String>,
}

/// Reads the five fields of a sidecar; `None` where the text is not JSON,
/// or where a `.` in it is followed by `FRACTION_DIGIT_LIMIT` digits or more.
/// Other members are not looked at.
pub fn read_sidecar(text: &str) -> (r: Option<SidecarFields>)
    ensures
        r is Some == (!has_long_fraction(encode_utf8(text@)) && json_parses(text@)),
        r is Some ==> fields_of(r->0, text@),
{
    if find_long_fraction(text.as_bytes()) {
        return None;
    }
    if !parses(text) {
        return None;
    }
    Some(
        SidecarFields {
            title: str_member(text, "title"),
            plot: str_member(text, "plot"),
            episode: u64_member(text, "episode"),
            season: u64_member(text, "season"),
            source: str_member(text, "source"),
        },
    )
}

/// The fields are the named members of the sidecar text.
pub open spec fn fields_of(f: SidecarFields, text: Seq<char>) -> bool {
    &&& opt_view(f.title) == json_str_member(text, "title"@)
    &&& opt_view(f.plot) == json_str_member(text, "plot"@)
    &&& f.episode == json_u64_member(text, "episode"@)
    &&& f.season == json_u64_member(text, "season"@)
    &&& opt_view(f.source) == json_str_member(text, "source"@)
}

/// A sidecar text that makes an episode: JSON without an overlong fraction,
/// with a string `title` and a string `plot`.
pub open spec fn sidecar_valid(text: Seq<char>) -> bool {
    !has_long_fraction(encode_utf8(text)) && json_parses(text) && json_str_member(text, "title"@) is Some && json_str_member(text, "plot"@) is Some
}

pub open spec fn json_suffix() -> Seq<u8> {
    seq![0x2e, 0x6a, 0x73, 0x6f, 0x6e]
}

pub open spec fn mpd_suffix() -> Seq<u8> {
    seq![0x2e, 0x6d, 0x70, 0x64]
}

pub open spec fn thumb_suffix() -> Seq<u8> {
    seq![0x2d, 0x74, 0x68, 0x75, 0x6d, 0x62, 0x2e, 0x6a, 0x70, 0x67]
}

/// A file name whose extension is exactly `json`: it ends in `.json` with at
/// least one byte before.
pub open spec fn is_sidecar(name: Seq<u8>) -> bool {
    name.len() > 5 && name.skip(name.len() - 5) == json_suffix()
}

/// The name without its `.json`.
pub open spec fn stem(name: Seq<u8>) -> Seq<u8> {
    name.take(name.len() - 5)
}

/// Path of the video that belongs to sidecar `name` in directory `dir`.
pub open spec fn video_path(dir: Seq<Seq<u8>>, name: Seq<u8>) -> Seq<Seq<u8>> {
    dir.push(stem(name) + mpd_suffix())
}

/// Path of the thumbnail that belongs to sidecar `name` in directory `dir`.
pub open spec fn thumbnail_path(dir: Seq<Seq<u8>>, name: Seq<u8>) -> Seq<Seq<u8>> {
    dir.push(stem(name) + thumb_suffix())
}

/// The tags of an episode: its number, then its season, each where given.
pub open spec fn number_tags(episode: Option<u64>, season: Option<u64>) -> Seq<(Seq<char>, Seq<char>)> {
    (match episode {
        Some(e) => seq![("episode"@, decimal(e as nat))],
        None => Seq::empty(),
    }) + (match season {
        Some(s) => seq![("season"@, decimal(s as nat))],
        None => Seq::empty(),
    })
}

pub open spec fn tags_view(t: Seq<(String, String)>) -> Seq<(Seq<char>, Seq<char>)> {
    t.map_values(|p: (String, String)| (p.0@, p.1@))
}

pub open spec fn opt_view(o: Option<String>) -> Option<Seq<char>> {
    match o {
        Some(s) => Some(s@),
        None => None,
    }
}

/// Whether a directory entry is an episode sidecar.
pub fn is_sidecar_name(name: &[u8]) -> (r: bool)
    ensures
        r == is_sidecar(name@),
{
    let n = name.len();
    if n <= 5 {
        return false;
    }
    let r = name[n - 5] == 0x2e && name[n - 4] == 0x6a && name[n - 3] == 0x73 && name[n - 2] == 0x6f
        && name[n - 1] == 0x6e;
    assert(r == (name@.skip(n - 5) =~= json_suffix()));
    r
}

/// `dir` with one more component: the sidecar's stem and `suffix`.
fn sibling(dir: &Vec<Vec<u8>>, name: &[u8], suffix: &[u8]) -> (r: Vec<Vec<u8>>)
    requires
        is_sidecar(name@),
    ensures
        segments_view(r@) == segments_view(dir@).push(stem(name@) + suffix@),
{
    let mut file: Vec<u8> = Vec::new();
    let n = name.len() - 5;
    let mut i: usize = 0;
    while i < n
        invariant
            n == name@.len() - 5,
            i <= n,
            file@ == name@.take(i as int),
        decreases n - i,
    {
        file.push(name[i]);
        assert(name@.take(i as int).push(name@[i as int]) =~= name@.take(i + 1));
        i = i + 1;
    }
    let mut j: usize = 0;
    while j < suffix.len()
        invariant
            j <= suffix@.len(),
            file@ == stem(name@) + suffix@.take(j as int),
        decreases suffix@.len() - j,
    {
        file.push(suffix[j]);
        assert(stem(name@) + suffix@.take(j as int) + seq![suffix@[j as int]] =~= stem(name@)
            + suffix@.take(j + 1));
        j = j + 1;
    }
    assert(suffix@.take(suffix@.len() as int) =~= suffix@);
    let mut r = dir.clone();
    proof {
        broadcast use vstd::std_specs::vec::vec_clone_deep_view_proof;

        assert(r.deep_view() == dir.deep_view());
        assert forall|k: int| 0 <= k < r@.len() implies r@[k]@ == dir@[k]@ by {
            assert(r.deep_view()[k] == dir.deep_view()[k]);
            assert(r@[k]@ =~= r@[k].deep_view());
            assert(dir@[k]@ =~= dir@[k].deep_view());
        }
        assert(segments_view(r@) =~= segments_view(dir@));
    }
    r.push(file);
    assert(segments_view(r@) =~= segments_view(dir@).push(stem(name@) + suffix@));
    r
}

/// The episode that sidecar `name` in `dir` describes, given what it says.
/// There is one exactly where the sidecar gives a title and a plot as
/// strings and both the video and the thumbnail are asset paths of
/// `asset_dir`.
pub fn episode_from_fields(
    asset_dir: &Vec<Vec<u8>>,
    dir: &Vec<Vec<u8>>,
    name: &[u8],
    fields: SidecarFields,
) -> (r: Option<VideoContent>)
    requires
        is_sidecar(name@),
    ensures
        ({
            let root = segments_view(asset_dir@);
            let video = video_path(segments_view(dir@), name@);
            let thumb = thumbnail_path(segments_view(dir@), name@);
            match r {
                None => fields.title is None || fields.plot is None || !is_asset_path(root, video)
                    || !is_asset_path(root, thumb),
                Some(e) => fields.title is Some && fields.plot is Some && is_asset_path(root, video)
                    && is_asset_path(root, thumb) && e.title@ == fields.title->0@ && e.description@
                    == fields.plot->0@ && opt_view(e.source) == opt_view(fields.source)
                    && e.video_url@ == asset_url(relative_to(root, video)) && e.thumbnail_url@
                    == asset_url(relative_to(root, thumb)) && tags_view(e.metadata@)
                    == number_tags(fields.episode, fields.season),
            }
        }),
{
    let mpd: Vec<u8> = vec![0x2e, 0x6d, 0x70, 0x64];
    let thumb: Vec<u8> = vec![0x2d, 0x74, 0x68, 0x75, 0x6d, 0x62, 0x2e, 0x6a, 0x70, 0x67];
    assert(mpd@ =~= mpd_suffix());
    assert(thumb@ =~= thumb_suffix());
    let video_path = sibling(dir, name, mpd.as_slice());
    let thumbnail_path = sibling(dir, name, thumb.as_slice());
    let mut metadata: Vec<(String, String)> = Vec::new();
    match fields.episode {
        Some(e) => {
            metadata.push((String::from_str("episode"), decimal_string(e)));
        },
        None => {},
    }
    match fields.season {
        Some(s) => {
            metadata.push((String::from_str("season"), decimal_string(s)));
        },
        None => {},
    }
    assert(tags_view(metadata@) =~= number_tags(fields.episode, fields.season));
    let title = match fields.title {
        Some(t) => t,
        None => {
            return None;
        },
    };
    let video_url = match path_to_asset_url(asset_dir, &video_path) {
        Ok(u) => u,
        Err(_) => {
            return None;
        },
    };
    let thumbnail_url = match path_to_asset_url(asset_dir, &thumbnail_path) {
        Ok(u) => u,
        Err(_) => {
            return None;
        },
    };
    let description = match fields.plot {
        Some(p) => p,
        None => {
            return None;
        },
    };
    Some(
        VideoContent {
            title,
            video_url,
            thumbnail_url,
            description,
            source: fields.source,
            metadata,
        },
    )
}

} // verus!
