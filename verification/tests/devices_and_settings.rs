use komga_core::devices::{
    EpubNavigationContentPort, EpubNavigationExtension, kobo_metadata_pre_paginated,
    pre_paginated_from,
};
use komga_core::routing::{mounted_runtime_context_path, non_browser_client_protocol_path};
use komga_core::settings::{SettingMultiSourceDto, SettingsDto};
use komga_core::trim_text;

struct Decoder;

impl EpubNavigationContentPort for Decoder {
    fn decode_epub_navigation_extension(&self, blob: &[u8]) -> anyhow::Result<EpubNavigationExtension> {
        match blob.first() {
            Some(1) => Ok(EpubNavigationExtension { is_fixed_layout: true }),
            Some(_) => Ok(EpubNavigationExtension { is_fixed_layout: false }),
            None => Err(anyhow::Error::msg("empty blob")),
        }
    }
}

#[test]
fn pre_paginated_reads_the_extension() {
    assert!(!kobo_metadata_pre_paginated(&Decoder, None).unwrap());
    assert!(kobo_metadata_pre_paginated(&Decoder, Some(&[1])).unwrap());
    assert!(!kobo_metadata_pre_paginated(&Decoder, Some(&[0])).unwrap());
    assert!(kobo_metadata_pre_paginated(&Decoder, Some(&[])).is_err());
    assert!(pre_paginated_from(Ok(EpubNavigationExtension { is_fixed_layout: true })).unwrap());
}

#[test]
fn public_settings_show_the_upload_limit_only() {
    let settings = SettingsDto::public(1024);
    assert_eq!(settings.max_upload_file_size_bytes, Some(1024));
    assert!(settings.server_port.is_none());
    assert!(settings.kobo_port.is_none());
    assert!(settings.delete_empty_collections.is_none());
}

#[test]
fn multi_source_setting_keeps_its_sources() {
    let s = SettingMultiSourceDto::new(Some(1u16), None, Some(1u16));
    assert_eq!(s.configuration_source, Some(1));
    assert_eq!(s.database_source, None);
    assert_eq!(s.effective_value, Some(1));
}

#[test]
fn mounted_context_path_ignores_blank_and_root() {
    assert_eq!(mounted_runtime_context_path(None), None);
    assert_eq!(mounted_runtime_context_path(Some("  ")), None);
    assert_eq!(mounted_runtime_context_path(Some(" / ")), None);
    assert_eq!(mounted_runtime_context_path(Some(" /komga ")), Some("/komga".to_string()));
}

#[test]
fn device_protocol_paths_bypass_csrf() {
    assert!(non_browser_client_protocol_path("/kobo"));
    assert!(non_browser_client_protocol_path("/koreader/syncs"));
    assert!(non_browser_client_protocol_path("/opds/v2/catalog"));
    assert!(!non_browser_client_protocol_path("/kobold"));
    assert!(!non_browser_client_protocol_path("/api/v1/books"));
}

#[test]
fn trim_text_strips_unicode_whitespace() {
    assert_eq!(trim_text("\u{2003} a b \n"), "a b");
    assert_eq!(trim_text("   "), "");
}
