//! The server settings that the API reports, and the OAuth2 clients it lists.
use vstd::prelude::*;

verus! {

/// A setting that can come from the configuration or from the database, with the value
/// in effect.
pub struct SettingMultiSourceDto<T> {
    pub configuration_source: Option<T>,
    pub database_source: Option<T>,
    pub effective_value: Option<T>,
}

impl<T> SettingMultiSourceDto<T> {
    /// A setting with the given sources and effective value.
    pub fn new(
        configuration_source: Option<T>,
        database_source: Option<T>,
        effective_value: Option<T>,
    ) -> (r: Self)
        ensures
            r.configuration_source == configuration_source,
            r.database_source == database_source,
            r.effective_value == effective_value,
    {
        SettingMultiSourceDto { configuration_source, database_source, effective_value }
    }
}

/// The size of generated thumbnails.
#[derive(Debug, Clone, Copy, PartialEq, Eq, Structural)]
pub enum ThumbnailSizeDto {
    Default,
    Medium,
    Large,
    XLarge,
}

/// The server settings; a setting that is not shown is `None`.
pub struct SettingsDto {
    pub delete_empty_collections: Option<bool>,
    pub delete_empty_read_lists: Option<bool>,
    pub remember_me_duration_days: Option<u64>,
    pub thumbnail_size: Option<ThumbnailSizeDto>,
    pub task_pool_size: Option<u64>,
    pub server_port: Option<SettingMultiSourceDto<u16>>,
    pub server_context_path: Option<SettingMultiSourceDto<String>>,
    pub kobo_proxy: Option<bool>,
    pub kobo_port: Option<u16>,
    pub kepubify_path: Option<SettingMultiSourceDto<String>>,
    pub max_upload_file_size_bytes: Option<u64>,
}

impl SettingsDto {
    /// The settings that users who are not administrators see: the upload limit alone.
    pub fn public(max_upload_file_size_bytes: u64) -> (r: Self)
        ensures
            r.max_upload_file_size_bytes == Some(max_upload_file_size_bytes),
            r.delete_empty_collections is None,
            r.delete_empty_read_lists is None,
            r.remember_me_duration_days is None,
            r.thumbnail_size is None,
            r.task_pool_size is None,
            r.server_port is None,
            r.server_context_path is None,
            r.kobo_proxy is None,
            r.kobo_port is None,
            r.kepubify_path is None,
    {
        SettingsDto {
            delete_empty_collections: None,
            delete_empty_read_lists: None,
            remember_me_duration_days: None,
            thumbnail_size: None,
            task_pool_size: None,
            server_port: None,
            server_context_path: None,
            kobo_proxy: None,
            kobo_port: None,
            kepubify_path: None,
            max_upload_file_size_bytes: Some(max_upload_file_size_bytes),
        }
    }
}

/// An OAuth2 client that users can sign in with.
pub struct OAuth2ClientDto {
    pub name: String,
    pub registration_id: String,
}

} // verus!
