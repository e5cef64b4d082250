use komga_core::thumbnails::{
    MosaicInflight, SniffedImageFormat, ThumbnailDimensions, ThumbnailUploadField,
    ThumbnailUploadParser, ThumbnailUploadRejection, UploadReadError, dimensions_from_size,
    format_media_type, is_jpeg_bytes, mosaic_dimensions, mosaic_inflight_finish,
    mosaic_inflight_start, mosaic_layout, repeated_thumbnail_source_ids,
    resolve_thumbnail_media_type, selected_flag, thumbnail_dimensions,
};
use komga_core::thumbnails::{
    encode_image_bytes_as_jpeg, encode_image_bytes_as_small_jpeg, encode_mosaic_jpeg,
    thumbnail_jpeg_bytes,
};

fn ids(v: &[&str]) -> Vec<String> {
    v.iter().map(|s| s.to_string()).collect()
}

const PNG_2X3: &[u8] = &[
    0x89, 0x50, 0x4E, 0x47, 0x0D, 0x0A, 0x1A, 0x0A, 0x00, 0x00, 0x00, 0x0D, 0x49, 0x48, 0x44,
    0x52, 0x00, 0x00, 0x00, 0x02, 0x00, 0x00, 0x00, 0x03, 0x08, 0x06, 0x00, 0x00, 0x00, 0xB9,
    0xEA, 0xDE, 0x81, 0x00, 0x00, 0x00, 0x0B, 0x49, 0x44, 0x41, 0x54, 0x78, 0x9C, 0x63, 0x60,
    0xC0, 0x09, 0x00, 0x00, 0x1B, 0x00, 0x01, 0xCA, 0x3C, 0x4A, 0x0D, 0x00, 0x00, 0x00, 0x00,
    0x49, 0x45, 0x4E, 0x44, 0xAE, 0x42, 0x60, 0x82,
];

#[test]
fn mosaic_dimensions_follow_the_cover_ratio() {
    assert_eq!(mosaic_dimensions(), (212, 300));
}

#[test]
fn mosaic_layout_splits_the_canvas_in_four() {
    let layout = mosaic_layout();
    assert_eq!((layout.width, layout.height), (212, 300));
    assert_eq!((layout.cell_width, layout.cell_height), (106, 150));
    assert_eq!(layout.placements, vec![(0, 0), (106, 0), (0, 150), (106, 150)]);
}

#[test]
fn repeated_ids_fill_four_cells() {
    assert_eq!(repeated_thumbnail_source_ids(ids(&[])), Vec::<String>::new());
    assert_eq!(repeated_thumbnail_source_ids(ids(&["a"])), ids(&["a", "a", "a", "a"]));
    assert_eq!(repeated_thumbnail_source_ids(ids(&["a", "b", "c"])), ids(&["a", "b", "c", "a"]));
    assert_eq!(
        repeated_thumbnail_source_ids(ids(&["a", "b", "c", "d", "e"])),
        ids(&["a", "b", "c", "d"])
    );
}

#[test]
fn jpeg_bytes_are_recognised_by_their_marker() {
    assert!(is_jpeg_bytes(&[0xFF, 0xD8, 0xFF, 0xE0]));
    assert!(!is_jpeg_bytes(&[0xFF, 0xD8]));
    assert!(!is_jpeg_bytes(PNG_2X3));
}

#[test]
fn inflight_marks_one_builder_per_key() {
    let mut inflight = MosaicInflight::new();
    assert!(mosaic_inflight_start(&mut inflight, "readlist-1"));
    assert!(!mosaic_inflight_start(&mut inflight, "readlist-1"));
    assert!(mosaic_inflight_start(&mut inflight, "collection-1"));
    assert!(mosaic_inflight_finish(&mut inflight, "readlist-1"));
    assert!(!mosaic_inflight_finish(&mut inflight, "readlist-1"));
    assert!(mosaic_inflight_start(&mut inflight, "readlist-1"));
}

#[test]
fn media_type_prefers_a_declared_image_type() {
    assert_eq!(
        resolve_thumbnail_media_type(Some("image/x-custom"), b"whatever"),
        Some("image/x-custom".to_string())
    );
    assert_eq!(
        resolve_thumbnail_media_type(Some("application/octet-stream"), PNG_2X3),
        Some("image/png".to_string())
    );
    assert_eq!(
        resolve_thumbnail_media_type(None, &[0xFF, 0xD8, 0xFF, 0xE0]),
        Some("image/jpeg".to_string())
    );
    assert_eq!(resolve_thumbnail_media_type(None, b"GIF89a...."), Some("image/gif".to_string()));
    assert_eq!(
        resolve_thumbnail_media_type(None, b"RIFF\x10\x00\x00\x00WEBPVP8 "),
        Some("image/webp".to_string())
    );
    assert_eq!(resolve_thumbnail_media_type(None, b"BMxxxxxx"), None);
    assert_eq!(resolve_thumbnail_media_type(None, b"plain text"), None);
}

#[test]
fn media_type_of_avif_bytes() {
    assert_eq!(
        resolve_thumbnail_media_type(None, b"\x00\x00\x00\x1cftypavif\x00\x00\x00\x00"),
        Some("image/avif".to_string())
    );
    assert_eq!(resolve_thumbnail_media_type(None, b"\x00\x00\x00\x1cftypheic"), None);
}

#[test]
fn format_media_types() {
    assert_eq!(format_media_type(SniffedImageFormat::Avif), Some("image/avif".to_string()));
    assert_eq!(format_media_type(SniffedImageFormat::Other), None);
}

#[test]
fn thumbnail_dimensions_read_the_image_size() {
    assert_eq!(thumbnail_dimensions(PNG_2X3), Some(ThumbnailDimensions { width: 2, height: 3 }));
    assert_eq!(thumbnail_dimensions(b"not an image"), None);
    assert_eq!(dimensions_from_size(Some((7, 9))), Some(ThumbnailDimensions { width: 7, height: 9 }));
    assert_eq!(dimensions_from_size(None), None);
}

#[test]
fn selected_flag_reads_true_false_and_blank() {
    assert_eq!(selected_flag(""), Some(true));
    assert_eq!(selected_flag("  TRUE "), Some(true));
    assert_eq!(selected_flag("False"), Some(false));
    assert_eq!(selected_flag("yes"), None);
}

fn file(content_type: Option<&str>, bytes: &[u8]) -> Result<ThumbnailUploadField, UploadReadError> {
    Ok(ThumbnailUploadField::File {
        content_type: content_type.map(|c| c.to_string()),
        bytes: bytes.to_vec(),
    })
}

#[test]
fn upload_parser_reads_file_and_selection() {
    let mut parser = ThumbnailUploadParser::new(1024);
    assert!(parser.accept(file(None, PNG_2X3)).is_none());
    assert!(parser
        .accept(Ok(ThumbnailUploadField::Selected { text: "false".to_string() }))
        .is_none());
    assert!(parser.accept(Ok(ThumbnailUploadField::Other)).is_none());
    let upload = parser.finish().expect("the upload is complete");
    assert_eq!(upload.bytes, PNG_2X3.to_vec());
    assert_eq!(upload.media_type, "image/png");
    assert!(!upload.selected);
}

#[test]
fn upload_parser_rejections() {
    let mut parser = ThumbnailUploadParser::new(4);
    assert!(matches!(parser.accept(file(None, b"")), Some(ThumbnailUploadRejection::Empty)));
    assert!(matches!(
        parser.accept(file(Some("image/png"), b"12345")),
        Some(ThumbnailUploadRejection::TooLarge)
    ));
    assert!(matches!(
        parser.accept(file(None, b"abc")),
        Some(ThumbnailUploadRejection::UnsupportedMediaType)
    ));
    assert!(matches!(
        parser.accept(Ok(ThumbnailUploadField::Selected { text: "maybe".to_string() })),
        Some(ThumbnailUploadRejection::BadSelected)
    ));
    assert!(matches!(
        parser.accept(Err(UploadReadError::TooLarge)),
        Some(ThumbnailUploadRejection::TooLarge)
    ));
    match parser.accept(Err(UploadReadError::Invalid("bad boundary".to_string()))) {
        Some(ThumbnailUploadRejection::Invalid(message)) => assert_eq!(message, "bad boundary"),
        _ => panic!("a malformed form is invalid"),
    }
    assert!(matches!(parser.finish(), Err(ThumbnailUploadRejection::Empty)));
}

#[test]
fn images_are_reencoded_as_jpeg() {
    let jpeg = encode_image_bytes_as_jpeg(PNG_2X3).expect("a PNG re-encodes");
    assert!(is_jpeg_bytes(&jpeg));
    assert_eq!(thumbnail_dimensions(&jpeg), Some(ThumbnailDimensions { width: 2, height: 3 }));
    assert_eq!(encode_image_bytes_as_jpeg(b"not an image"), None);
}

#[test]
fn jpeg_thumbnails_are_kept_as_they_are() {
    let jpeg = encode_image_bytes_as_jpeg(PNG_2X3).unwrap();
    assert_eq!(thumbnail_jpeg_bytes(jpeg.clone()), Some(jpeg));
    let converted = thumbnail_jpeg_bytes(PNG_2X3.to_vec()).expect("a PNG converts");
    assert!(is_jpeg_bytes(&converted));
    assert_eq!(thumbnail_jpeg_bytes(b"plain".to_vec()), None);
}

#[test]
fn small_jpegs_shrink_only_larger_images() {
    let same = encode_image_bytes_as_small_jpeg(PNG_2X3, 10).expect("a PNG converts");
    assert!(is_jpeg_bytes(&same));
    assert_eq!(thumbnail_dimensions(&same), Some(ThumbnailDimensions { width: 2, height: 3 }));
    let small = encode_image_bytes_as_small_jpeg(PNG_2X3, 1).expect("a PNG converts");
    let size = thumbnail_dimensions(&small).unwrap();
    assert_eq!(size.height, 1);
    assert!(size.width <= 1);
    assert_eq!(encode_image_bytes_as_small_jpeg(b"not an image", 10), None);
}

#[test]
fn mosaics_fill_the_layout() {
    assert_eq!(encode_mosaic_jpeg(&[]), None);
    let mosaic = encode_mosaic_jpeg(&[PNG_2X3.to_vec(), PNG_2X3.to_vec()]).expect("a mosaic");
    assert!(is_jpeg_bytes(&mosaic));
    assert_eq!(thumbnail_dimensions(&mosaic), Some(ThumbnailDimensions { width: 212, height: 300 }));
    assert_eq!(encode_mosaic_jpeg(&[PNG_2X3.to_vec(), b"broken".to_vec()]), None);
}
