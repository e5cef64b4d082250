//! Thumbnail helpers: the mosaic layout, the choice of source thumbnails for a mosaic,
//! JPEG detection and re-encoding, mosaic composition, upload parsing, and the registry
//! that lets only one request build a given mosaic.
use vstd::prelude::*;

use crate::devices::opt_bytes_view;
use crate::runtime_events::texts_view;
use crate::text::{ascii_lowercase, has_prefix, spec_ascii_lower, spec_trim, text_eq, trim_text};
use vstd::string::StringExecFns;
use vstd::string::StrSliceExecFns;

verus! {

/// Height of a mosaic thumbnail, in pixels.
pub const MOSAIC_HEIGHT: u32 = 300;

/// Pixel dimensions `(width, height)` of a mosaic thumbnail: the height times the
/// 0.70666664 aspect ratio, rounded, by the height.
pub fn mosaic_dimensions() -> (r: (i64, i64))
    ensures
        r == (212i64, 300i64),
{
    let height: u64 = MOSAIC_HEIGHT as u64;
    let width: u64 = (height * 70666664 + 50000000) / 100000000;
    (width as i64, height as i64)
}

/// The ids to build a mosaic from: the first four ids, repeated in order until there
/// are four; none when there is no id.
pub open spec fn spec_repeated_ids(ids: Seq<Seq<char>>) -> Seq<Seq<char>> {
    if ids.len() == 0 {
        Seq::empty()
    } else {
        let n = if ids.len() < 4 {
            ids.len() as int
        } else {
            4
        };
        Seq::new(4, |i: int| ids[i % n])
    }
}

/// The ids to build a mosaic from, repeated to fill its four cells.
pub fn repeated_thumbnail_source_ids(ids: Vec<String>) -> (r: Vec<String>)
    ensures
        texts_view(r@) == spec_repeated_ids(texts_view(ids@)),
        ids.len() == 0 ==> r.len() == 0,
        ids.len() > 0 ==> r.len() == 4,
        forall|i: int|
            0 <= i < r.len() ==> #[trigger] r@[i]@ == ids@[i % (if ids.len() < 4 {
                ids.len() as int
            } else {
                4
            })]@,
{
    let n = if ids.len() < 4 {
        ids.len()
    } else {
        4
    };
    let mut repeated: Vec<String> = Vec::new();
    if n == 0 {
        assert(texts_view(repeated@) =~= spec_repeated_ids(texts_view(ids@)));
        return repeated;
    }
    let mut i: usize = 0;
    while i < 4
        invariant
            n == (if ids.len() < 4 { ids.len() } else { 4 }),
            0 < n <= 4,
            i <= 4,
            repeated.len() == i,
            forall|k: int| 0 <= k < i ==> #[trigger] repeated@[k]@ == ids@[k % (n as int)]@,
        decreases 4 - i,
    {
        repeated.push(ids[i % n].clone());
        i = i + 1;
    }
    assert(texts_view(repeated@) =~= spec_repeated_ids(texts_view(ids@)));
    repeated
}

/// A mosaic is built from exactly four ids, one per cell, whenever there is any id: the
/// first four ids in order, the first `n` of them repeated round where there are only
/// `n < 4`; no id gives no mosaic.
pub proof fn lemma_repeated_ids_fill_four_cells(ids: Seq<Seq<char>>)
    ensures
        ids.len() == 0 ==> spec_repeated_ids(ids).len() == 0,
        ids.len() > 0 ==> spec_repeated_ids(ids).len() == 4,
        ids.len() >= 4 ==> spec_repeated_ids(ids) == ids.take(4),
        forall|i: int|
            0 <= i < spec_repeated_ids(ids).len() && ids.len() > 0 ==> #[trigger] spec_repeated_ids(
                ids,
            )[i] == ids[i % (if ids.len() < 4 {
                ids.len() as int
            } else {
                4
            })],
        forall|i: int|
            0 <= i < ids.len() && i < 4 ==> #[trigger] spec_repeated_ids(ids)[i] == ids[i],
{
    if ids.len() >= 4 {
        assert(spec_repeated_ids(ids) =~= ids.take(4));
    }
    assert forall|i: int| 0 <= i < ids.len() && i < 4 implies #[trigger] spec_repeated_ids(ids)[i]
        == ids[i] by {
        let n = if ids.len() < 4 { ids.len() as int } else { 4 };
        assert(i % n == i) by (nonlinear_arith)
            requires 0 <= i < n;
    }
}

/// The bytes begin with the JPEG start-of-image marker.
pub open spec fn spec_is_jpeg(bytes: Seq<u8>) -> bool {
    bytes.len() >= 3 && bytes[0] == 0xFF && bytes[1] == 0xD8 && bytes[2] == 0xFF
}

/// Whether the bytes already are a JPEG image.
pub fn is_jpeg_bytes(bytes: &[u8]) -> (r: bool)
    ensures
        r == spec_is_jpeg(bytes@),
{
    bytes.len() >= 3 && bytes[0] == 0xFF && bytes[1] == 0xD8 && bytes[2] == 0xFF
}

/// The keys of the mosaics being built right now.
#[derive(Debug)]
pub struct MosaicInflight {
    keys: Vec<String>,
}

impl View for MosaicInflight {
    type V = Set<Seq<char>>;

    closed spec fn view(&self) -> Set<Seq<char>> {
        Set::new(|k: Seq<char>| texts_view(self.keys@).contains(k))
    }
}

impl MosaicInflight {
    /// No mosaic is being built.
    pub fn new() -> (r: Self)
        ensures
            r@ == Set::<Seq<char>>::empty(),
    {
        let r = MosaicInflight { keys: Vec::new() };
        assert(r@ =~= Set::<Seq<char>>::empty());
        r
    }
}

proof fn lemma_push_contains(s: Seq<Seq<char>>, x: Seq<char>)
    ensures
        forall|k: Seq<char>| #[trigger] s.push(x).contains(k) <==> (s.contains(k) || k == x),
{
    assert forall|k: Seq<char>| #[trigger] s.push(x).contains(k) <==> (s.contains(k) || k == x) by {
        if s.push(x).contains(k) {
            let i = choose|i: int| 0 <= i < s.push(x).len() && s.push(x)[i] == k;
            if i < s.len() {
                assert(s[i] == k);
            }
        }
        if s.contains(k) {
            let i = choose|i: int| 0 <= i < s.len() && s[i] == k;
            assert(s.push(x)[i] == k);
        }
        if k == x {
            assert(s.push(x)[s.len() as int] == k);
        }
    }
}

/// Marks the mosaic `key` as being built. True when the caller should build it; false
/// when another request already is building it.
pub fn mosaic_inflight_start(inflight: &mut MosaicInflight, key: &str) -> (r: bool)
    ensures
        r == !old(inflight)@.contains(key@),
        final(inflight)@ == old(inflight)@.insert(key@),
{
    let ghost s = texts_view(inflight.keys@);
    let mut i: usize = 0;
    while i < inflight.keys.len()
        invariant
            s == texts_view(inflight.keys@),
            i <= inflight.keys.len(),
            forall|j: int| 0 <= j < i ==> s[j] != key@,
        decreases inflight.keys.len() - i,
    {
        if text_eq(inflight.keys[i].as_str(), key) {
            assert(s[i as int] == key@);
            assert(inflight@ =~= old(inflight)@.insert(key@));
            return false;
        }
        i = i + 1;
    }
    inflight.keys.push(String::from_str(key));
    assert(texts_view(inflight.keys@) =~= s.push(key@));
    proof {
        lemma_push_contains(s, key@);
    }
    assert(inflight@ =~= old(inflight)@.insert(key@));
    true
}

/// Clears the mark of the mosaic `key`. True when it was marked, so that the requests
/// waiting for it should be woken.
pub fn mosaic_inflight_finish(inflight: &mut MosaicInflight, key: &str) -> (r: bool)
    ensures
        r == old(inflight)@.contains(key@),
        final(inflight)@ == old(inflight)@.remove(key@),
{
    let ghost s = texts_view(inflight.keys@);
    let mut kept: Vec<String> = Vec::new();
    let mut found = false;
    let mut i: usize = 0;
    while i < inflight.keys.len()
        invariant
            s == texts_view(inflight.keys@),
            i <= inflight.keys.len(),
            found == exists|j: int| 0 <= j < i && s[j] == key@,
            forall|k: Seq<char>|
                #[trigger] texts_view(kept@).contains(k) <==> (s.take(i as int).contains(k) && k
                    != key@),
        decreases inflight.keys.len() - i,
    {
        let ghost before = texts_view(kept@);
        proof {
            assert(s.take(i + 1) =~= s.take(i as int).push(s[i as int]));
            lemma_push_contains(s.take(i as int), s[i as int]);
        }
        if text_eq(inflight.keys[i].as_str(), key) {
            found = true;
            assert(s[i as int] == key@);
        } else {
            kept.push(inflight.keys[i].clone());
            assert(texts_view(kept@) =~= before.push(s[i as int]));
            proof {
                lemma_push_contains(before, s[i as int]);
            }
        }
        i = i + 1;
    }
    assert(s.take(s.len() as int) =~= s);
    inflight.keys = kept;
    assert(inflight@ =~= old(inflight)@.remove(key@));
    proof {
        if found {
            let j = choose|j: int| 0 <= j < s.len() && s[j] == key@;
            assert(s.contains(key@));
        }
    }
    found
}

/// Marking a mosaic as being built makes every later start see it marked, until it is
/// cleared; clearing it lets the next start build it again.
pub proof fn lemma_inflight_start_finish(marked: Set<Seq<char>>, key: Seq<char>)
    ensures
        marked.insert(key).contains(key),
        !marked.insert(key).remove(key).contains(key),
        marked.insert(key).remove(key) == marked.remove(key),
{
    assert(marked.insert(key).remove(key) =~= marked.remove(key));
}

/// The image formats that a thumbnail upload is accepted in, as the leading bytes of an
/// image name them; `Other` for any other format and for bytes that name none.
#[derive(Debug, Clone, Copy, PartialEq, Eq, Structural)]
pub enum SniffedImageFormat {
    Jpeg,
    Png,
    Gif,
    WebP,
    Avif,
    Other,
}

/// The PNG signature leads the bytes.
pub open spec fn png_signature(bytes: Seq<u8>) -> bool {
    seq![0x89u8, 0x50u8, 0x4Eu8, 0x47u8, 0x0Du8, 0x0Au8, 0x1Au8, 0x0Au8].is_prefix_of(bytes)
}

/// One of the two GIF signatures leads the bytes.
pub open spec fn gif_signature(bytes: Seq<u8>) -> bool {
    ||| seq![0x47u8, 0x49u8, 0x46u8, 0x38u8, 0x39u8, 0x61u8].is_prefix_of(bytes)
    ||| seq![0x47u8, 0x49u8, 0x46u8, 0x38u8, 0x37u8, 0x61u8].is_prefix_of(bytes)
}

/// The bytes open a RIFF container of a WEBP image.
pub open spec fn webp_signature(bytes: Seq<u8>) -> bool {
    &&& seq![0x52u8, 0x49u8, 0x46u8, 0x46u8].is_prefix_of(bytes)
    &&& bytes.len() >= 12
    &&& bytes.subrange(8, 12) == seq![0x57u8, 0x45u8, 0x42u8, 0x50u8]
}

/// The bytes open an AVIF file: two zero bytes, two free ones, then `ftypavif`.
pub open spec fn avif_signature(bytes: Seq<u8>) -> bool {
    &&& bytes.len() >= 12
    &&& bytes[0] == 0u8
    &&& bytes[1] == 0u8
    &&& bytes.subrange(4, 12) == seq![0x66u8, 0x74u8, 0x79u8, 0x70u8, 0x61u8, 0x76u8, 0x69u8, 0x66u8]
}

/// The bytes lead with the signature of one of the formats that a thumbnail may have.
pub open spec fn names_accepted_format(bytes: Seq<u8>) -> bool {
    png_signature(bytes) || spec_is_jpeg(bytes) || gif_signature(bytes) || webp_signature(bytes)
        || avif_signature(bytes)
}

/// The format that `image::guess_format` finds in the leading bytes of an image.
pub uninterp spec fn spec_sniffed_format(bytes: Seq<u8>) -> SniffedImageFormat;

/// `image::guess_format`, its five formats told apart and every other outcome as
/// `Other`. The crate matches a table of signatures in order; for the PNG, JPEG, GIF and
/// RIFF/WEBP signatures no earlier entry can match, so those bytes give those formats.
/// AVIF is two zero bytes, two free ones, then `ftypavif`; of the earlier entries only
/// the ICO signature (`00 00 01 00`) can match such bytes first. Each of the five formats
/// has no entry in the table but its own, so bytes without its signature never give it.
#[verifier::external_body]
fn sniff_image_format(bytes: &[u8]) -> (r: SniffedImageFormat)
    ensures
        r == spec_sniffed_format(bytes@),
        png_signature(bytes@) ==> r == SniffedImageFormat::Png,
        spec_is_jpeg(bytes@) ==> r == SniffedImageFormat::Jpeg,
        gif_signature(bytes@) ==> r == SniffedImageFormat::Gif,
        webp_signature(bytes@) ==> r == SniffedImageFormat::WebP,
        avif_signature(bytes@) && !(bytes@[2] == 1u8 && bytes@[3] == 0u8) ==> r
            == SniffedImageFormat::Avif,
        r == SniffedImageFormat::Png ==> png_signature(bytes@),
        r == SniffedImageFormat::Jpeg ==> spec_is_jpeg(bytes@),
        r == SniffedImageFormat::Gif ==> gif_signature(bytes@),
        r == SniffedImageFormat::WebP ==> webp_signature(bytes@),
        r == SniffedImageFormat::Avif ==> avif_signature(bytes@),
{
    match image::guess_format(bytes) {
        Ok(image::ImageFormat::Jpeg) => SniffedImageFormat::Jpeg,
        Ok(image::ImageFormat::Png) => SniffedImageFormat::Png,
        Ok(image::ImageFormat::Gif) => SniffedImageFormat::Gif,
        Ok(image::ImageFormat::WebP) => SniffedImageFormat::WebP,
        Ok(image::ImageFormat::Avif) => SniffedImageFormat::Avif,
        _ => SniffedImageFormat::Other,
    }
}

/// The media type of a sniffed format; none for `Other`.
pub open spec fn spec_format_media_type(f: SniffedImageFormat) -> Option<Seq<char>> {
    match f {
        SniffedImageFormat::Jpeg => Some("image/jpeg"@),
        SniffedImageFormat::Png => Some("image/png"@),
        SniffedImageFormat::Gif => Some("image/gif"@),
        SniffedImageFormat::WebP => Some("image/webp"@),
        SniffedImageFormat::Avif => Some("image/avif"@),
        SniffedImageFormat::Other => None,
    }
}

/// The media type of a sniffed format.
pub fn format_media_type(f: SniffedImageFormat) -> (r: Option<String>)
    ensures
        r matches Some(t) ==> spec_format_media_type(f) == Some(t@),
        r is None <==> spec_format_media_type(f) is None,
{
    match f {
        SniffedImageFormat::Jpeg => Some(String::from_str("image/jpeg")),
        SniffedImageFormat::Png => Some(String::from_str("image/png")),
        SniffedImageFormat::Gif => Some(String::from_str("image/gif")),
        SniffedImageFormat::WebP => Some(String::from_str("image/webp")),
        SniffedImageFormat::Avif => Some(String::from_str("image/avif")),
        SniffedImageFormat::Other => None,
    }
}

/// The media type of an uploaded thumbnail: the declared content type when it is an
/// `image/` type, else the type of the format its bytes name.
pub open spec fn spec_thumbnail_media_type(
    content_type: Option<Seq<char>>,
    format: SniffedImageFormat,
) -> Option<Seq<char>> {
    match content_type {
        Some(c) if "image/"@.is_prefix_of(c) => Some(c),
        _ => spec_format_media_type(format),
    }
}

/// The declared content type is an `image/` type.
pub open spec fn declares_image(content_type: Option<Seq<char>>) -> bool {
    content_type matches Some(c) && "image/"@.is_prefix_of(c)
}

/// The view of an optional text.
pub open spec fn opt_str_view(o: Option<&str>) -> Option<Seq<char>> {
    match o {
        Some(c) => Some(c@),
        None => None,
    }
}

/// The media type of an uploaded thumbnail, from its declared content type and its
/// bytes.
pub fn resolve_thumbnail_media_type(content_type: Option<&str>, bytes: &[u8]) -> (r: Option<
    String,
>)
    ensures
        r matches Some(t) ==> spec_thumbnail_media_type(
            opt_str_view(content_type),
            spec_sniffed_format(bytes@),
        ) == Some(t@),
        r is None <==> spec_thumbnail_media_type(
            opt_str_view(content_type),
            spec_sniffed_format(bytes@),
        ) is None,
        !declares_image(opt_str_view(content_type)) && !names_accepted_format(bytes@) ==> r is None,
{
    if let Some(c) = content_type {
        if has_prefix(c, "image/") {
            return Some(String::from_str(c));
        }
    }
    format_media_type(sniff_image_format(bytes))
}

/// A thumbnail upload, read from its form.
pub struct ThumbnailUpload {
    pub bytes: Vec<u8>,
    pub media_type: String,
    pub selected: bool,
}

/// A field of a thumbnail upload form, as read.
pub enum ThumbnailUploadField {
    /// The `file` field: its declared content type and its bytes.
    File { content_type: Option<String>, bytes: Vec<u8> },
    /// The `selected` field's text.
    Selected { text: String },
    /// Any other field.
    Other,
}

/// Why reading a form field failed.
pub enum UploadReadError {
    /// The request is larger than the server takes.
    TooLarge,
    /// The form is malformed; the message says how.
    Invalid(String),
}

/// Why a thumbnail upload is refused.
#[derive(Debug)]
pub enum ThumbnailUploadRejection {
    /// The file or the request is too large.
    TooLarge,
    /// The form is malformed; the message says how.
    Invalid(String),
    /// No file, or an empty one.
    Empty,
    /// The file is not an image of a known type.
    UnsupportedMediaType,
    /// The `selected` field is neither true nor false.
    BadSelected,
}

/// Reads a thumbnail upload form field by field.
pub struct ThumbnailUploadParser {
    bytes: Option<Vec<u8>>,
    media_type: Option<String>,
    selected: bool,
    max_file_size: u64,
}

/// What a thumbnail upload form has given so far.
pub struct UploadParserView {
    pub bytes: Option<Seq<u8>>,
    pub media_type: Option<Seq<char>>,
    pub selected: bool,
    pub max_file_size: u64,
}

impl View for ThumbnailUploadParser {
    type V = UploadParserView;

    closed spec fn view(&self) -> UploadParserView {
        UploadParserView {
            bytes: match self.bytes {
                Some(b) => Some(b@),
                None => None,
            },
            media_type: match self.media_type {
                Some(t) => Some(t@),
                None => None,
            },
            selected: self.selected,
            max_file_size: self.max_file_size,
        }
    }
}

/// How the `selected` field's text reads: `Some(true)` for blank or `true`, `Some(false)`
/// for `false`, in any ASCII case and with surrounding whitespace; `None` otherwise.
pub open spec fn spec_selected_flag(text: Seq<char>) -> Option<bool> {
    let t = spec_trim(text).map_values(|c: char| spec_ascii_lower(c));
    if t.len() == 0 || t == "true"@ {
        Some(true)
    } else if t == "false"@ {
        Some(false)
    } else {
        None
    }
}

/// Reads the `selected` field's text.
pub fn selected_flag(text: &str) -> (r: Option<bool>)
    ensures
        r == spec_selected_flag(text@),
{
    let trimmed = trim_text(text);
    let t = ascii_lowercase(trimmed.as_str());
    if t.unicode_len() == 0 || text_eq(t.as_str(), "true") {
        Some(true)
    } else if text_eq(t.as_str(), "false") {
        Some(false)
    } else {
        None
    }
}

impl ThumbnailUploadParser {
    /// A parser that has read nothing, refusing files larger than `max_file_size`
    /// bytes.
    pub fn new(max_file_size: u64) -> (r: Self)
        ensures
            r@ == (UploadParserView {
                bytes: None,
                media_type: None,
                selected: true,
                max_file_size,
            }),
    {
        ThumbnailUploadParser { bytes: None, media_type: None, selected: true, max_file_size }
    }

    /// Takes the next field, or the error that reading it gave. `Some` refuses the
    /// upload; `None` reads on.
    pub fn accept(&mut self, field: Result<ThumbnailUploadField, UploadReadError>) -> (r: Option<
        ThumbnailUploadRejection,
    >)
        ensures
            r is Some ==> final(self)@ == old(self)@,
            field matches Err(UploadReadError::TooLarge) ==> r matches Some(
                ThumbnailUploadRejection::TooLarge,
            ),
            field matches Err(UploadReadError::Invalid(m)) ==> (r matches Some(
                ThumbnailUploadRejection::Invalid(n),
            ) && n@ == m@),
            field matches Ok(ThumbnailUploadField::Other) ==> r is None && final(self)@ == old(
                self,
            )@,
            field matches Ok(ThumbnailUploadField::Selected { text }) ==> match spec_selected_flag(
                text@,
            ) {
                Some(b) => r is None && final(self)@ == (UploadParserView {
                    selected: b,
                    ..old(self)@
                }),
                None => r matches Some(ThumbnailUploadRejection::BadSelected),
            },
            field matches Ok(ThumbnailUploadField::File { content_type, bytes }) ==> {
                let t = spec_thumbnail_media_type(
                    match content_type {
                        Some(c) => Some(c@),
                        None => None,
                    },
                    spec_sniffed_format(bytes@),
                );
                if bytes@.len() == 0 {
                    r matches Some(ThumbnailUploadRejection::Empty)
                } else if bytes@.len() > old(self)@.max_file_size {
                    r matches Some(ThumbnailUploadRejection::TooLarge)
                } else if t is None || (!declares_image(
                    match content_type {
                        Some(c) => Some(c@),
                        None => None,
                    },
                ) && !names_accepted_format(bytes@)) {
                    r matches Some(ThumbnailUploadRejection::UnsupportedMediaType)
                } else {
                    r is None && final(self)@ == (UploadParserView {
                        bytes: Some(bytes@),
                        media_type: t,
                        ..old(self)@
                    })
                }
            },
    {
        match field {
            Err(UploadReadError::TooLarge) => Some(ThumbnailUploadRejection::TooLarge),
            Err(UploadReadError::Invalid(m)) => Some(ThumbnailUploadRejection::Invalid(m)),
            Ok(ThumbnailUploadField::Other) => None,
            Ok(ThumbnailUploadField::Selected { text }) => match selected_flag(text.as_str()) {
                Some(b) => {
                    self.selected = b;
                    None
                },
                None => Some(ThumbnailUploadRejection::BadSelected),
            },
            Ok(ThumbnailUploadField::File { content_type, bytes }) => {
                if bytes.len() == 0 {
                    return Some(ThumbnailUploadRejection::Empty);
                }
                if bytes.len() as u64 > self.max_file_size {
                    return Some(ThumbnailUploadRejection::TooLarge);
                }
                let declared = match &content_type {
                    Some(c) => Some(c.as_str()),
                    None => None,
                };
                match resolve_thumbnail_media_type(declared, bytes.as_slice()) {
                    None => Some(ThumbnailUploadRejection::UnsupportedMediaType),
                    Some(t) => {
                        self.bytes = Some(bytes);
                        self.media_type = Some(t);
                        None
                    },
                }
            },
        }
    }

    /// The upload that the form gave, once every field is read: it must have had a
    /// file.
    pub fn finish(self) -> (r: Result<ThumbnailUpload, ThumbnailUploadRejection>)
        ensures
            self@.bytes is None ==> r matches Err(ThumbnailUploadRejection::Empty),
            self@.bytes is Some && self@.media_type is None ==> r matches Err(
                ThumbnailUploadRejection::UnsupportedMediaType,
            ),
            r matches Ok(u) ==> self@.bytes == Some(u.bytes@) && self@.media_type == Some(
                u.media_type@,
            ) && u.selected == self@.selected,
            self@.bytes is Some && self@.media_type is Some ==> r is Ok,
    {
        let bytes = match self.bytes {
            None => {
                return Err(ThumbnailUploadRejection::Empty);
            },
            Some(b) => b,
        };
        let media_type = match self.media_type {
            None => {
                return Err(ThumbnailUploadRejection::UnsupportedMediaType);
            },
            Some(t) => t,
        };
        Ok(ThumbnailUpload { bytes, media_type, selected: self.selected })
    }
}

/// The size in pixels of a stored thumbnail.
#[derive(Debug, Clone, Copy, PartialEq, Eq, Structural)]
pub struct ThumbnailDimensions {
    pub width: i64,
    pub height: i64,
}

/// The pixel size `(width, height)` of the image that the bytes decode to, none where
/// they decode to no image.
pub uninterp spec fn spec_decoded_size(bytes: Seq<u8>) -> Option<(u32, u32)>;

/// `image::load_from_memory`, then the decoded image's `width` and `height`.
#[verifier::external_body]
fn decoded_image_size(bytes: &[u8]) -> (r: Option<(u32, u32)>)
    ensures
        r == spec_decoded_size(bytes@),
{
    match image::load_from_memory(bytes) {
        Ok(image) => Some((image.width(), image.height())),
        Err(_) => None,
    }
}

/// The dimensions of an image of the given pixel size.
pub fn dimensions_from_size(size: Option<(u32, u32)>) -> (r: Option<ThumbnailDimensions>)
    ensures
        r == match size {
            Some((w, h)) => Some(ThumbnailDimensions { width: w as i64, height: h as i64 }),
            None => None,
        },
{
    match size {
        Some((w, h)) => Some(ThumbnailDimensions { width: w as i64, height: h as i64 }),
        None => None,
    }
}

/// The dimensions of a thumbnail's image; none where its bytes are no image.
pub fn thumbnail_dimensions(bytes: &[u8]) -> (r: Option<ThumbnailDimensions>)
    ensures
        r == match spec_decoded_size(bytes@) {
            Some((w, h)) => Some(ThumbnailDimensions { width: w as i64, height: h as i64 }),
            None => None,
        },
{
    dimensions_from_size(decoded_image_size(bytes))
}

/// Where the tiles of a mosaic go: the canvas, the size of each of its four cells, and
/// the top-left corner of each cell, left to right and top to bottom.
pub struct MosaicLayout {
    pub width: u32,
    pub height: u32,
    pub cell_width: u32,
    pub cell_height: u32,
    pub placements: Vec<(i64, i64)>,
}

/// The layout of a mosaic thumbnail: a 212 by 300 canvas in four cells of half its
/// width and height.
pub fn mosaic_layout() -> (r: MosaicLayout)
    ensures
        r.width == 212 && r.height == 300,
        r.cell_width == 106 && r.cell_height == 150,
        r.placements@ == seq![(0i64, 0i64), (106i64, 0i64), (0i64, 150i64), (106i64, 150i64)],
{
    let (w, h) = mosaic_dimensions();
    let width = w as u32;
    let height = h as u32;
    let cell_width = if width / 2 > 1 {
        width / 2
    } else {
        1
    };
    let cell_height = if height / 2 > 1 {
        height / 2
    } else {
        1
    };
    let mut placements: Vec<(i64, i64)> = Vec::new();
    placements.push((0, 0));
    placements.push((cell_width as i64, 0));
    placements.push((0, cell_height as i64));
    placements.push((cell_width as i64, cell_height as i64));
    assert(placements@ =~= seq![(0i64, 0i64), (106i64, 0i64), (0i64, 150i64), (106i64, 150i64)]);
    MosaicLayout { width, height, cell_width, cell_height, placements }
}

/// The JPEG encoding of the image that `bytes` decode to; none where they decode to no
/// image or the encoding fails.
pub uninterp spec fn spec_jpeg_encoding(bytes: Seq<u8>) -> Option<Seq<u8>>;

/// `image::load_from_memory`, then `write_to` in the JPEG format.
#[verifier::external_body]
fn jpeg_encoding(bytes: &[u8]) -> (r: Option<Vec<u8>>)
    ensures
        opt_bytes_view(r) == spec_jpeg_encoding(bytes@),
{
    let image = image::load_from_memory(bytes).ok()?;
    let mut output = std::io::Cursor::new(Vec::new());
    image.write_to(&mut output, image::ImageFormat::Jpeg).ok()?;
    Some(output.into_inner())
}

/// The JPEG encoding of the image that `bytes` decode to, resized with the Lanczos
/// filter to fit `max_edge` by `max_edge` pixels, its aspect ratio kept; none where the
/// bytes decode to no image or the encoding fails.
pub uninterp spec fn spec_resized_jpeg_encoding(bytes: Seq<u8>, max_edge: u32) -> Option<Seq<u8>>;

/// `image::load_from_memory`, `resize` to `max_edge` by `max_edge` with
/// `FilterType::Lanczos3`, then `write_to` in the JPEG format.
#[verifier::external_body]
fn resized_jpeg_encoding(bytes: &[u8], max_edge: u32) -> (r: Option<Vec<u8>>)
    ensures
        opt_bytes_view(r) == spec_resized_jpeg_encoding(bytes@, max_edge),
{
    let image = image::load_from_memory(bytes).ok()?;
    let resized = image.resize(max_edge, max_edge, image::imageops::FilterType::Lanczos3);
    let mut output = std::io::Cursor::new(Vec::new());
    resized.write_to(&mut output, image::ImageFormat::Jpeg).ok()?;
    Some(output.into_inner())
}

/// The pixel size `(width, height)` that the header of the image in `bytes` names, read
/// by the decoder of the format that its leading bytes show; none where there is no such
/// decoder or the header cannot be read.
pub uninterp spec fn spec_header_size(bytes: Seq<u8>) -> Option<(u32, u32)>;

/// `image::ImageReader` over the bytes, `with_guessed_format`, then `into_dimensions`:
/// the decoder is made and asked for its dimensions, and no pixel is decoded.
#[verifier::external_body]
fn header_size(bytes: &[u8]) -> (r: Option<(u32, u32)>)
    ensures
        r == spec_header_size(bytes@),
{
    let reader = image::ImageReader::new(std::io::Cursor::new(bytes)).with_guessed_format().ok()?;
    reader.into_dimensions().ok()
}

/// The pixels of an RGB image of `width` by `height` pixels, after the image that
/// `bytes` decode to, shrunk to fit a cell of `cell_width` by `cell_height` pixels, is
/// drawn over it with its top-left corner at `(x, y)`; none where the bytes decode to no
/// image or `pixels` are too few for that size.
pub uninterp spec fn spec_overlaid_tile(
    pixels: Seq<u8>,
    width: u32,
    height: u32,
    bytes: Seq<u8>,
    cell_width: u32,
    cell_height: u32,
    x: i64,
    y: i64,
) -> Option<Seq<u8>>;

/// `image::load_from_memory`, `thumbnail` to the cell, `to_rgb8`, then
/// `imageops::overlay` onto the RGB image that `RgbImage::from_raw` makes of the pixels,
/// whose pixels `into_raw` hands back.
#[verifier::external_body]
fn overlaid_tile(
    pixels: Vec<u8>,
    width: u32,
    height: u32,
    bytes: &[u8],
    cell_width: u32,
    cell_height: u32,
    x: i64,
    y: i64,
) -> (r: Option<Vec<u8>>)
    ensures
        opt_bytes_view(r) == spec_overlaid_tile(pixels@, width, height, bytes@, cell_width, cell_height, x, y),
{
    let tile = image::load_from_memory(bytes).ok()?.thumbnail(cell_width, cell_height).to_rgb8();
    let mut canvas = image::RgbImage::from_raw(width, height, pixels)?;
    image::imageops::overlay(&mut canvas, &tile, x, y);
    Some(canvas.into_raw())
}

/// The JPEG encoding of the RGB image of `width` by `height` pixels whose pixels are
/// `pixels`; none where they are too few for that size or the encoding fails.
pub uninterp spec fn spec_rgb_jpeg_encoding(pixels: Seq<u8>, width: u32, height: u32) -> Option<Seq<u8>>;

/// `image::RgbImage::from_raw`, then `write_to` in the JPEG format.
#[verifier::external_body]
fn rgb_jpeg_encoding(pixels: Vec<u8>, width: u32, height: u32) -> (r: Option<Vec<u8>>)
    ensures
        opt_bytes_view(r) == spec_rgb_jpeg_encoding(pixels@, width, height),
{
    let canvas = image::RgbImage::from_raw(width, height, pixels)?;
    let mut output = std::io::Cursor::new(Vec::new());
    image::DynamicImage::ImageRgb8(canvas).write_to(&mut output, image::ImageFormat::Jpeg).ok()?;
    Some(output.into_inner())
}

/// The image in `bytes` as a JPEG.
pub fn encode_image_bytes_as_jpeg(bytes: &[u8]) -> (r: Option<Vec<u8>>)
    ensures
        opt_bytes_view(r) == spec_jpeg_encoding(bytes@),
{
    jpeg_encoding(bytes)
}

/// A stored thumbnail as a JPEG: bytes that already are one are kept as they are, any
/// other image is re-encoded.
pub fn thumbnail_jpeg_bytes(bytes: Vec<u8>) -> (r: Option<Vec<u8>>)
    ensures
        opt_bytes_view(r) == if spec_is_jpeg(bytes@) {
            Some(bytes@)
        } else {
            spec_jpeg_encoding(bytes@)
        },
{
    if is_jpeg_bytes(bytes.as_slice()) {
        Some(bytes)
    } else {
        jpeg_encoding(bytes.as_slice())
    }
}

/// The JPEG of the image in `bytes` for a small thumbnail: an image whose larger edge
/// exceeds `max_edge` is first resized to fit `max_edge` by `max_edge`.
pub open spec fn spec_small_jpeg(bytes: Seq<u8>, max_edge: u32) -> Option<Seq<u8>> {
    match spec_header_size(bytes) {
        None => None,
        Some((w, h)) => if w > max_edge || h > max_edge {
            spec_resized_jpeg_encoding(bytes, max_edge)
        } else {
            spec_jpeg_encoding(bytes)
        },
    }
}

/// The image in `bytes` as a JPEG whose edges are at most `max_edge` pixels long, where
/// it was larger.
pub fn encode_image_bytes_as_small_jpeg(bytes: &[u8], max_edge: u32) -> (r: Option<Vec<u8>>)
    ensures
        opt_bytes_view(r) == spec_small_jpeg(bytes@, max_edge),
        spec_header_size(bytes@) is None ==> r is None,
        spec_header_size(bytes@) matches Some((w, h)) && (if w > h { w } else { h }) > max_edge
            ==> opt_bytes_view(r) == spec_resized_jpeg_encoding(bytes@, max_edge),
        spec_header_size(bytes@) matches Some((w, h)) && (if w > h { w } else { h }) <= max_edge
            ==> opt_bytes_view(r) == spec_jpeg_encoding(bytes@),
{
    match header_size(bytes) {
        None => None,
        Some((w, h)) => {
            if w > max_edge || h > max_edge {
                resized_jpeg_encoding(bytes, max_edge)
            } else {
                jpeg_encoding(bytes)
            }
        },
    }
}

/// A small thumbnail is resized exactly when the larger of the image's two edges exceeds
/// `max_edge`, whichever edge that is; an image that fits is only re-encoded, and bytes
/// whose header cannot be read give nothing.
pub proof fn lemma_small_jpeg_resizes_when_an_edge_is_too_long(bytes: Seq<u8>, max_edge: u32)
    ensures
        match spec_header_size(bytes) {
            None => spec_small_jpeg(bytes, max_edge) is None,
            Some((w, h)) => {
                &&& (w > max_edge || h > max_edge) ==> spec_small_jpeg(bytes, max_edge)
                    == spec_resized_jpeg_encoding(bytes, max_edge)
                &&& (w <= max_edge && h <= max_edge) ==> spec_small_jpeg(bytes, max_edge)
                    == spec_jpeg_encoding(bytes)
            },
        },
{
}

/// The top-left corner of the `i`-th cell of a mosaic.
pub open spec fn mosaic_placement(i: int) -> (i64, i64) {
    seq![(0i64, 0i64), (106i64, 0i64), (0i64, 150i64), (106i64, 150i64)][i]
}

/// The pixels of a mosaic canvas once the first `n` of `images` are drawn into their
/// cells over a black canvas; none where one of them decodes to no image.
pub open spec fn spec_mosaic_pixels(images: Seq<Seq<u8>>, n: nat) -> Option<Seq<u8>>
    decreases n,
{
    if n == 0 {
        Some(Seq::new(212 * 300 * 3, |i: int| 0u8))
    } else {
        match spec_mosaic_pixels(images, (n - 1) as nat) {
            None => None,
            Some(pixels) => spec_overlaid_tile(
                pixels,
                212,
                300,
                images[n - 1],
                106,
                150,
                mosaic_placement(n - 1).0,
                mosaic_placement(n - 1).1,
            ),
        }
    }
}

/// The mosaic JPEG of `images`: the first four are drawn into the cells of the mosaic
/// layout, in order; none for no image, or where one of them decodes to no image.
pub open spec fn spec_mosaic_jpeg(images: Seq<Seq<u8>>) -> Option<Seq<u8>> {
    if images.len() == 0 {
        None
    } else {
        match spec_mosaic_pixels(images, if images.len() < 4 { images.len() } else { 4 }) {
            None => None,
            Some(pixels) => spec_rgb_jpeg_encoding(pixels, 212, 300),
        }
    }
}

/// The views of a list of byte strings.
pub open spec fn byte_strings_view(v: Seq<Vec<u8>>) -> Seq<Seq<u8>> {
    v.map_values(|b: Vec<u8>| b@)
}

/// Composes the mosaic thumbnail of `image_bytes` as a JPEG: the first four images, each
/// shrunk into its cell of the mosaic layout.
pub fn encode_mosaic_jpeg(image_bytes: &[Vec<u8>]) -> (r: Option<Vec<u8>>)
    ensures
        opt_bytes_view(r) == spec_mosaic_jpeg(byte_strings_view(image_bytes@)),
{
    let ghost images = byte_strings_view(image_bytes@);
    if image_bytes.len() == 0 {
        return None;
    }
    let layout = mosaic_layout();
    let size = (layout.width as usize) * (layout.height as usize) * 3;
    let mut pixels: Vec<u8> = Vec::new();
    while pixels.len() < size
        invariant
            size == 212 * 300 * 3,
            pixels.len() <= size,
            forall|i: int| 0 <= i < pixels.len() ==> pixels@[i] == 0u8,
        decreases size - pixels.len(),
    {
        pixels.push(0u8);
    }
    assert(pixels@ =~= Seq::new(212 * 300 * 3, |i: int| 0u8));
    let count = if image_bytes.len() < layout.placements.len() {
        image_bytes.len()
    } else {
        layout.placements.len()
    };
    let mut i: usize = 0;
    while i < count
        invariant
            images == byte_strings_view(image_bytes@),
            images.len() == image_bytes.len() && images.len() > 0,
            count == (if images.len() < 4 { images.len() } else { 4 }),
            count <= image_bytes.len(),
            i <= count,
            layout.width == 212 && layout.height == 300,
            layout.cell_width == 106 && layout.cell_height == 150,
            layout.placements@ == seq![(0i64, 0i64), (106i64, 0i64), (0i64, 150i64), (106i64, 150i64)],
            spec_mosaic_pixels(images, i as nat) == Some(pixels@),
        decreases count - i,
    {
        let (x, y) = layout.placements[i];
        let ghost before = pixels@;
        assert(images[i as int] == image_bytes@[i as int]@);
        assert((x, y) == mosaic_placement(i as int));
        match overlaid_tile(
            pixels,
            layout.width,
            layout.height,
            image_bytes[i].as_slice(),
            layout.cell_width,
            layout.cell_height,
            x,
            y,
        ) {
            Some(next) => {
                pixels = next;
            },
            None => {
                proof {
                    assert(spec_mosaic_pixels(images, (i + 1) as nat) == spec_overlaid_tile(
                        before,
                        212,
                        300,
                        images[i as int],
                        106,
                        150,
                        x,
                        y,
                    ));
                    lemma_mosaic_pixels_none_stays(images, (i + 1) as nat, count as nat);
                }
                return None;
            },
        }
        i = i + 1;
    }
    rgb_jpeg_encoding(pixels, layout.width, layout.height)
}

/// Once an image of a mosaic decodes to no image, the mosaic has no pixels.
proof fn lemma_mosaic_pixels_none_stays(images: Seq<Seq<u8>>, n: nat, m: nat)
    requires
        n <= m,
        spec_mosaic_pixels(images, n) is None,
    ensures
        spec_mosaic_pixels(images, m) is None,
    decreases m - n,
{
    if n < m {
        lemma_mosaic_pixels_none_stays(images, n + 1, m);
    }
}

} // verus!
