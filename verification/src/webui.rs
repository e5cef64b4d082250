//! Decisions of the web UI updater: which releases API to track, whether the served
//! bundle is current, which assets to fetch, and whether a download matches its
//! published sha256. The downloads and the files themselves are handled by the caller.
use vstd::prelude::*;
use vstd::string::StrSliceExecFns;
use vstd::string::StringExecFns;

use sha2::Digest;

use crate::text::{
    ascii_lower, push_char, spec_ascii_lower, spec_is_whitespace, spec_trim, spec_trim_start,
    text_eq, trim_text, is_whitespace_char,
};

verus! {

/// The GitHub releases API of the kmweb bundle, tracked when nothing else is configured.
pub const GITHUB_RELEASES: &'static str = "https://api.github.com/repos/kmworks/kmweb/releases";

/// The configured releases API base: the trimmed override when it is not blank,
/// otherwise [`GITHUB_RELEASES`].
pub open spec fn spec_releases_url(env_value: Option<Seq<char>>) -> Seq<char> {
    match env_value {
        Some(v) => if spec_trim(v).len() > 0 {
            spec_trim(v)
        } else {
            GITHUB_RELEASES@
        },
        None => GITHUB_RELEASES@,
    }
}

/// The releases API base to track, from the value of the override variable if it is set.
pub fn releases_url(env_value: Option<&str>) -> (r: String)
    ensures
        r@ == spec_releases_url(
            match env_value {
                Some(v) => Some(v@),
                None => None,
            },
        ),
{
    match env_value {
        Some(v) => {
            let trimmed = trim_text(v);
            if trimmed.as_str().unicode_len() > 0 {
                trimmed
            } else {
                String::from_str(GITHUB_RELEASES)
            }
        },
        None => String::from_str(GITHUB_RELEASES),
    }
}

/// The version that a bundle's marker file names: its trimmed content, unless blank.
pub fn served_version(marker: Option<&str>) -> (r: Option<String>)
    ensures
        match marker {
            Some(m) => if spec_trim(m@).len() > 0 {
                r matches Some(v) && v@ == spec_trim(m@)
            } else {
                r is None
            },
            None => r is None,
        },
{
    match marker {
        Some(m) => {
            let trimmed = trim_text(m);
            if trimmed.as_str().unicode_len() > 0 {
                Some(trimmed)
            } else {
                None
            }
        },
        None => None,
    }
}

/// Why an update check or install stopped.
#[derive(Debug, PartialEq, Eq)]
pub enum WebuiUpdateError {
    /// The release tag names no version.
    UnexpectedReleaseTag(String),
    /// The release does not carry the named asset.
    MissingAsset { tag_name: String, name: String },
    /// The checksum file holds no sha256 digest; it carries the file's text.
    NoSha256Found(String),
    /// The downloaded bundle does not match its published digest.
    Sha256Mismatch,
}

/// One downloadable file of a release.
#[derive(Debug, PartialEq, Eq)]
pub struct Asset {
    pub name: String,
    pub browser_download_url: String,
}

/// A release as the releases API describes it.
#[derive(Debug, PartialEq, Eq)]
pub struct Release {
    pub tag_name: String,
    pub assets: Vec<Asset>,
}

/// The index of the first asset named `name`.
pub open spec fn spec_first_asset(assets: Seq<Asset>, name: Seq<char>) -> Option<int> {
    if exists|i: int| 0 <= i < assets.len() && assets[i].name@ == name {
        Some(
            choose|i: int|
                0 <= i < assets.len() && assets[i].name@ == name && forall|j: int|
                    0 <= j < i ==> assets[j].name@ != name,
        )
    } else {
        None
    }
}

/// The download URL of the first asset of `release` named `name`.
pub fn asset_url(release: &Release, name: &str) -> (r: Result<String, WebuiUpdateError>)
    ensures
        match spec_first_asset(release.assets@, name@) {
            Some(i) => r matches Ok(url) && url@ == release.assets@[i].browser_download_url@,
            None => r matches Err(WebuiUpdateError::MissingAsset { tag_name, name: missing })
                && tag_name@ == release.tag_name@ && missing@ == name@,
        },
{
    let mut i: usize = 0;
    while i < release.assets.len()
        invariant
            i <= release.assets.len(),
            forall|j: int| 0 <= j < i ==> release.assets@[j].name@ != name@,
        decreases release.assets.len() - i,
    {
        if text_eq(release.assets[i].name.as_str(), name) {
            let ghost s = release.assets@;
            let ghost k = choose|k: int|
                0 <= k < s.len() && s[k].name@ == name@ && forall|j: int| 0 <= j < k ==> s[j].name@ != name@;
            assert(0 <= i < s.len() && s[i as int].name@ == name@ && forall|j: int|
                0 <= j < i ==> s[j].name@ != name@);
            assert(k == i) by {
                if k < i {
                    assert(s[k].name@ != name@);
                }
                if k > i {
                    assert(s[i as int].name@ != name@);
                }
            }
            return Ok(release.assets[i].browser_download_url.clone());
        }
        i = i + 1;
    }
    Err(WebuiUpdateError::MissingAsset { tag_name: release.tag_name.clone(), name: String::from_str(name) })
}

/// `s` without all of its leading `'v'`s.
pub open spec fn spec_trim_start_v(s: Seq<char>) -> Seq<char>
    decreases s.len(),
{
    if s.len() > 0 && s[0] == 'v' {
        spec_trim_start_v(s.drop_first())
    } else {
        s
    }
}

proof fn lemma_trim_start_v_skip(s: Seq<char>, i: int)
    requires
        0 <= i <= s.len(),
        forall|k: int| 0 <= k < i ==> #[trigger] s[k] == 'v',
    ensures
        spec_trim_start_v(s) == spec_trim_start_v(s.skip(i)),
    decreases i,
{
    if i > 0 {
        lemma_trim_start_v_skip(s.drop_first(), i - 1);
        assert(s.drop_first().skip(i - 1) =~= s.skip(i));
    } else {
        assert(s.skip(0) =~= s);
    }
}

/// The version that a release tag names: the tag without its leading `'v'`s.
pub fn release_version(tag_name: &str) -> (r: String)
    ensures
        r@ == spec_trim_start_v(tag_name@),
{
    let n = tag_name.unicode_len();
    let mut i: usize = 0;
    while i < n && tag_name.get_char(i) == 'v'
        invariant
            n == tag_name@.len(),
            i <= n,
            forall|k: int| 0 <= k < i ==> #[trigger] tag_name@[k] == 'v',
        decreases n - i,
    {
        i = i + 1;
    }
    proof {
        lemma_trim_start_v_skip(tag_name@, i as int);
        let rest = tag_name@.skip(i as int);
        if i < n {
            assert(rest[0] != 'v');
        }
        assert(rest =~= tag_name@.subrange(i as int, n as int));
    }
    String::from_str(tag_name.substring_char(i, n))
}

/// The file name of the bundle of `version`.
pub open spec fn spec_tarball_name(version: Seq<char>) -> Seq<char> {
    "kmweb-v"@ + version + ".tar.gz"@
}

/// What an update check decided.
#[derive(Debug, PartialEq, Eq)]
pub enum Outcome {
    UpToDate,
    Updated(String),
}

/// The downloads that bring the served web UI to a new version.
#[derive(Debug, PartialEq, Eq)]
pub struct UpdatePlan {
    pub version: String,
    pub tarball_name: String,
    pub tarball_url: String,
    pub sha256_url: String,
}

/// What to do about the latest release, given the version that is served now.
#[derive(Debug, PartialEq, Eq)]
pub enum UpdateStep {
    /// The served bundle already is the latest release.
    UpToDate,
    /// Download and install these files.
    Download(UpdatePlan),
}

/// Decides what to do about `release` while the bundle served now carries the version
/// `served`: nothing when they agree, otherwise the bundle of the release and its
/// checksum file are to be fetched.
pub fn plan_update(release: &Release, served: Option<&str>) -> (r: Result<UpdateStep, WebuiUpdateError>)
    ensures
        ({
            let version = spec_trim_start_v(release.tag_name@);
            let tarball = spec_tarball_name(version);
            let sha = tarball + ".sha256"@;
            if version.len() == 0 {
                r matches Err(WebuiUpdateError::UnexpectedReleaseTag(tag)) && tag@ == release.tag_name@
            } else if served matches Some(v) && v@ == version {
                r == Ok::<UpdateStep, WebuiUpdateError>(UpdateStep::UpToDate)
            } else {
                match (spec_first_asset(release.assets@, tarball), spec_first_asset(release.assets@, sha)) {
                    (Some(i), Some(j)) => r matches Ok(UpdateStep::Download(plan)) && plan.version@
                        == version && plan.tarball_name@ == tarball && plan.tarball_url@
                        == release.assets@[i].browser_download_url@ && plan.sha256_url@
                        == release.assets@[j].browser_download_url@,
                    (None, _) => r matches Err(WebuiUpdateError::MissingAsset { tag_name, name })
                        && tag_name@ == release.tag_name@ && name@ == tarball,
                    (Some(_), None) => r matches Err(WebuiUpdateError::MissingAsset { tag_name, name })
                        && tag_name@ == release.tag_name@ && name@ == sha,
                }
            }
        }),
{
    let version = release_version(release.tag_name.as_str());
    if version.as_str().unicode_len() == 0 {
        return Err(WebuiUpdateError::UnexpectedReleaseTag(release.tag_name.clone()));
    }
    match served {
        Some(v) => {
            if text_eq(v, version.as_str()) {
                return Ok(UpdateStep::UpToDate);
            }
        },
        None => {},
    }
    let tarball_name = String::from_str("kmweb-v").concat(version.as_str()).concat(".tar.gz");
    let tarball_url = match asset_url(release, tarball_name.as_str()) {
        Ok(url) => url,
        Err(e) => return Err(e),
    };
    let sha_name = tarball_name.clone().concat(".sha256");
    let sha256_url = match asset_url(release, sha_name.as_str()) {
        Ok(url) => url,
        Err(e) => return Err(e),
    };
    Ok(UpdateStep::Download(UpdatePlan { version, tarball_name, tarball_url, sha256_url }))
}

/// The leading run of `s` that holds no whitespace.
pub open spec fn spec_leading_word(s: Seq<char>) -> Seq<char>
    decreases s.len(),
{
    if s.len() > 0 && !spec_is_whitespace(s[0]) {
        seq![s[0]] + spec_leading_word(s.drop_first())
    } else {
        Seq::empty()
    }
}

/// The first whitespace-separated token of `s`, as `split_whitespace` gives it.
pub open spec fn spec_first_token(s: Seq<char>) -> Seq<char> {
    spec_leading_word(spec_trim_start(s))
}

proof fn lemma_leading_word_prefix(s: Seq<char>, j: int)
    requires
        0 <= j <= s.len(),
        forall|k: int| 0 <= k < j ==> !spec_is_whitespace(#[trigger] s[k]),
        j == s.len() || spec_is_whitespace(s[j]),
    ensures
        spec_leading_word(s) == s.take(j),
    decreases j,
{
    if j > 0 {
        lemma_leading_word_prefix(s.drop_first(), j - 1);
        assert(s.take(j) =~= seq![s[0]] + s.drop_first().take(j - 1));
    } else {
        assert(s.take(0) =~= Seq::<char>::empty());
    }
}

/// An ASCII hexadecimal digit.
pub open spec fn spec_is_hex_digit(c: char) -> bool {
    ('0' <= c && c <= '9') || ('a' <= c && c <= 'f') || ('A' <= c && c <= 'F')
}

/// The lower-case sha256 digest that a `sha256sum` file begins with: its first token,
/// when that is 64 hexadecimal digits.
pub open spec fn spec_parse_sha256(text: Seq<char>) -> Option<Seq<char>> {
    let token = spec_first_token(text);
    if token.len() == 64 && forall|i: int| 0 <= i < token.len() ==> spec_is_hex_digit(#[trigger] token[i]) {
        Some(token.map_values(|c: char| spec_ascii_lower(c)))
    } else {
        None
    }
}

/// Reads the digest at the start of a `sha256sum` file, in lower case.
pub fn parse_sha256(text: &str) -> (r: Result<String, WebuiUpdateError>)
    ensures
        match spec_parse_sha256(text@) {
            Some(d) => r matches Ok(digest) && digest@ == d,
            None => r matches Err(WebuiUpdateError::NoSha256Found(t)) && t@ == text@,
        },
{
    let n = text.unicode_len();
    let mut i: usize = 0;
    while i < n && is_whitespace_char(text.get_char(i))
        invariant
            n == text@.len(),
            i <= n,
            forall|k: int| 0 <= k < i ==> spec_is_whitespace(#[trigger] text@[k]),
        decreases n - i,
    {
        i = i + 1;
    }
    let mut j: usize = i;
    while j < n && !is_whitespace_char(text.get_char(j))
        invariant
            n == text@.len(),
            i <= j <= n,
            forall|k: int| i <= k < j ==> !spec_is_whitespace(#[trigger] text@[k]),
        decreases n - j,
    {
        j = j + 1;
    }
    let ghost rest = text@.skip(i as int);
    proof {
        crate::text::lemma_trim_start_skip(text@, i as int);
        assert(spec_trim_start(text@) == rest) by {
            if i < n {
                assert(!spec_is_whitespace(rest[0]));
            }
        }
        assert forall|k: int| 0 <= k < j - i implies !spec_is_whitespace(#[trigger] rest[k]) by {
            assert(rest[k] == text@[i + k]);
        }
        if j < n {
            assert(rest[j - i] == text@[j as int]);
        }
        lemma_leading_word_prefix(rest, j - i);
        assert(rest.take(j - i) =~= text@.subrange(i as int, j as int));
    }
    let ghost token = text@.subrange(i as int, j as int);
    if j - i != 64 {
        return Err(WebuiUpdateError::NoSha256Found(String::from_str(text)));
    }
    let mut digest = String::new();
    let mut k: usize = i;
    while k < j
        invariant
            n == text@.len(),
            i <= k <= j <= n,
            j - i == 64,
            token == text@.subrange(i as int, j as int),
            spec_first_token(text@) == token,
            forall|m: int| 0 <= m < k - i ==> spec_is_hex_digit(#[trigger] token[m]),
            digest@ == token.take(k - i).map_values(|c: char| spec_ascii_lower(c)),
        decreases j - k,
    {
        let c = text.get_char(k);
        assert(c == token[k - i]);
        if !(('0' <= c && c <= '9') || ('a' <= c && c <= 'f') || ('A' <= c && c <= 'F')) {
            assert(!spec_is_hex_digit(token[k - i]));
            return Err(WebuiUpdateError::NoSha256Found(String::from_str(text)));
        }
        push_char(&mut digest, ascii_lower(c));
        assert(token.take(k + 1 - i) =~= token.take(k - i).push(c));
        assert(digest@ =~= token.take(k + 1 - i).map_values(|c: char| spec_ascii_lower(c)));
        k = k + 1;
    }
    assert(token.take(64) =~= token);
    Ok(digest)
}

/// The lower-case hexadecimal digit of a value below 16.
pub open spec fn spec_hex_digit(d: int) -> char {
    if d < 10 {
        (48 + d) as char
    } else {
        (87 + d) as char
    }
}

/// The lower-case hexadecimal text of `bytes`, two digits per byte.
pub open spec fn spec_hex(bytes: Seq<u8>) -> Seq<char> {
    Seq::new(
        2 * bytes.len(),
        |k: int|
            if k % 2 == 0 {
                spec_hex_digit(bytes[k / 2] as int / 16)
            } else {
                spec_hex_digit(bytes[k / 2] as int % 16)
            },
    )
}

fn hex_digit(d: u8) -> (c: char)
    requires
        d < 16,
    ensures
        c == spec_hex_digit(d as int),
{
    if d < 10 {
        (48 + d) as char
    } else {
        (87 + d) as char
    }
}

/// The lower-case hexadecimal text of `bytes`.
pub fn hex_encode(bytes: &[u8]) -> (r: String)
    ensures
        r@ == spec_hex(bytes@),
{
    let mut out = String::new();
    let mut i: usize = 0;
    while i < bytes.len()
        invariant
            i <= bytes.len(),
            out@ == spec_hex(bytes@.take(i as int)),
        decreases bytes.len() - i,
    {
        let b = bytes[i];
        push_char(&mut out, hex_digit(b / 16));
        push_char(&mut out, hex_digit(b % 16));
        assert(out@ =~= spec_hex(bytes@.take(i + 1)));
        i = i + 1;
    }
    assert(bytes@.take(bytes.len() as int) =~= bytes@);
    out
}

/// The SHA-256 digest of some bytes.
pub uninterp spec fn spec_sha256(data: Seq<u8>) -> Seq<u8>;

/// Calls `sha2::Sha256::digest`; the contract claims that the result is the digest of
/// `data`, which depends on `data` alone and is 32 bytes long.
#[verifier::external_body]
fn sha256_digest(data: &[u8]) -> (r: Vec<u8>)
    ensures
        r@ == spec_sha256(data@),
        r@.len() == 32,
{
    sha2::Sha256::digest(data).to_vec()
}

/// The lower-case hexadecimal SHA-256 digest of `data`.
pub fn sha256_hex(data: &[u8]) -> (r: String)
    ensures
        r@ == spec_hex(spec_sha256(data@)),
        r@.len() == 64,
{
    let digest = sha256_digest(data);
    hex_encode(digest.as_slice())
}

/// Checks a downloaded bundle against the digest published with it.
pub fn check_bundle_sha256(bundle: &[u8], expected: &str) -> (r: Result<(), WebuiUpdateError>)
    ensures
        r is Ok <==> spec_hex(spec_sha256(bundle@)) == expected@,
        r is Err ==> r == Err::<(), WebuiUpdateError>(WebuiUpdateError::Sha256Mismatch),
{
    let actual = sha256_hex(bundle);
    if text_eq(actual.as_str(), expected) {
        Ok(())
    } else {
        Err(WebuiUpdateError::Sha256Mismatch)
    }
}

proof fn lemma_hex_digit_facts(d: int)
    requires
        0 <= d < 16,
    ensures
        spec_is_hex_digit(spec_hex_digit(d)),
        !spec_is_whitespace(spec_hex_digit(d)),
        spec_ascii_lower(spec_hex_digit(d)) == spec_hex_digit(d),
{
}

/// Reading back the hexadecimal text of a 32-byte digest, as `sha256sum` writes it, gives
/// that same text.
pub proof fn lemma_parse_sha256_of_hex(bytes: Seq<u8>)
    requires
        bytes.len() == 32,
    ensures
        spec_parse_sha256(spec_hex(bytes)) == Some(spec_hex(bytes)),
{
    let h = spec_hex(bytes);
    assert forall|k: int| 0 <= k < h.len() implies spec_is_hex_digit(#[trigger] h[k])
        && !spec_is_whitespace(h[k]) && spec_ascii_lower(h[k]) == h[k] by {
        if k % 2 == 0 {
            lemma_hex_digit_facts(bytes[k / 2] as int / 16);
        } else {
            lemma_hex_digit_facts(bytes[k / 2] as int % 16);
        }
    }
    assert(spec_trim_start(h) == h);
    lemma_leading_word_prefix(h, h.len() as int);
    assert(h.take(h.len() as int) =~= h);
    assert(h.map_values(|c: char| spec_ascii_lower(c)) =~= h);
}

} // verus!
