//! What the KOReader and Kobo device handlers read of books: stored read progress,
//! book identities, thumbnails, and whether an EPUB is pre-paginated.
use vstd::prelude::*;

verus! {

/// A stored read progress entry, as the device handlers see it; `locator` is the raw
/// stored locator, decoded by the caller when it needs it.
pub struct PersistedReadProgressRecord {
    pub page: i64,
    pub completed: bool,
    pub created: String,
    pub last_modified: String,
    pub device_id: String,
    pub device_name: String,
    pub locator: Option<Vec<u8>>,
}

/// The bytes of an optional byte buffer.
pub open spec fn opt_bytes_view(o: Option<Vec<u8>>) -> Option<Seq<u8>> {
    match o {
        Some(b) => Some(b@),
        None => None,
    }
}

impl Clone for PersistedReadProgressRecord {
    fn clone(&self) -> (r: Self)
        ensures
            r.page == self.page,
            r.completed == self.completed,
            r.created@ == self.created@,
            r.last_modified@ == self.last_modified@,
            r.device_id@ == self.device_id@,
            r.device_name@ == self.device_name@,
            opt_bytes_view(r.locator) == opt_bytes_view(self.locator),
    {
        PersistedReadProgressRecord {
            page: self.page,
            completed: self.completed,
            created: self.created.clone(),
            last_modified: self.last_modified.clone(),
            device_id: self.device_id.clone(),
            device_name: self.device_name.clone(),
            locator: match &self.locator {
                Some(l) => Some(l.clone()),
                None => None,
            },
        }
    }
}

/// The book that KOReader's hash-based lookup finds.
pub struct KoreaderBookTarget {
    pub id: String,
    pub page_count: u64,
    pub media_type: String,
}

impl Clone for KoreaderBookTarget {
    fn clone(&self) -> (r: Self)
        ensures
            r == *self,
    {
        KoreaderBookTarget {
            id: self.id.clone(),
            page_count: self.page_count,
            media_type: self.media_type.clone(),
        }
    }
}

/// Why KOReader's lookup of a book by its content hash failed.
#[derive(Debug, Clone, Copy, PartialEq, Eq, Structural)]
pub enum KoreaderBookLookupError {
    /// The store could not be read.
    Persistence,
    /// More than one book has the hash.
    Conflict,
}

/// A thumbnail served to a device.
#[derive(Debug, PartialEq, Eq)]
pub struct DeviceThumbnailBinary {
    pub book_id: String,
    pub media_type: String,
    pub bytes: Vec<u8>,
}

impl Clone for DeviceThumbnailBinary {
    fn clone(&self) -> (r: Self)
        ensures
            r.book_id@ == self.book_id@,
            r.media_type@ == self.media_type@,
            r.bytes@ == self.bytes@,
    {
        DeviceThumbnailBinary {
            book_id: self.book_id.clone(),
            media_type: self.media_type.clone(),
            bytes: self.bytes.clone(),
        }
    }
}

/// What the navigation extension of an EPUB says of its layout.
#[derive(Debug, Clone, Copy, PartialEq, Eq, Structural)]
pub struct EpubNavigationExtension {
    pub is_fixed_layout: bool,
}

/// Decodes the stored navigation extension of an EPUB. The application implements it.
pub trait EpubNavigationContentPort {
    /// The extension that `blob` encodes.
    fn decode_epub_navigation_extension(&self, blob: &[u8]) -> Result<
        EpubNavigationExtension,
        anyhow::Error,
    >;
}

/// What a decoding's answer says of pre-pagination: the extension's fixed-layout flag,
/// or the decoding's error.
pub open spec fn spec_pre_paginated(
    decoded: Result<EpubNavigationExtension, anyhow::Error>,
) -> Result<bool, anyhow::Error> {
    match decoded {
        Ok(e) => Ok(e.is_fixed_layout),
        Err(error) => Err(error),
    }
}

/// Whether a decoded extension marks its EPUB as pre-paginated: the decoding's error
/// stands.
pub fn pre_paginated_from(decoded: Result<EpubNavigationExtension, anyhow::Error>) -> (r: Result<
    bool,
    anyhow::Error,
>)
    ensures
        r == spec_pre_paginated(decoded),
{
    match decoded {
        Ok(extension) => Ok(extension.is_fixed_layout),
        Err(error) => Err(error),
    }
}

/// Whether Kobo should treat a book as pre-paginated: a book without a stored EPUB
/// extension is not; one with an extension is when the extension says its layout is
/// fixed.
pub fn kobo_metadata_pre_paginated<C: EpubNavigationContentPort>(
    content: &C,
    extension_blob: Option<&[u8]>,
) -> (r: Result<bool, anyhow::Error>)
    ensures
        extension_blob is None ==> r == Ok::<bool, anyhow::Error>(false),
        extension_blob matches Some(b) ==> exists|d: Result<EpubNavigationExtension, anyhow::Error>|
            call_ensures(C::decode_epub_navigation_extension, (content, b), d) && r
                == spec_pre_paginated(d),
{
    match extension_blob {
        None => Ok(false),
        Some(blob) => {
            let decode = C::decode_epub_navigation_extension;
            let decoded = decode(content, blob);
            pre_paginated_from(decoded)
        },
    }
}

} // verus!
