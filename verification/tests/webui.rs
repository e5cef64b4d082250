use komga_core::webui::{
    Asset, GITHUB_RELEASES, Release, UpdateStep, WebuiUpdateError, asset_url, check_bundle_sha256,
    hex_encode, parse_sha256, plan_update, release_version, releases_url, served_version,
    sha256_hex,
};

#[test]
fn releases_url_defaults_and_overrides() {
    assert_eq!(releases_url(None), GITHUB_RELEASES);
    assert_eq!(releases_url(Some(" ")), GITHUB_RELEASES);
    assert_eq!(
        releases_url(Some("https://github.example.com/kmweb/releases")),
        "https://github.example.com/kmweb/releases"
    );
}

#[test]
fn parses_sha256sum_format() {
    let hash = "a".repeat(64);
    assert_eq!(
        parse_sha256(&format!("{hash}  dist-release/kmweb.tar.gz\n")).unwrap(),
        hash
    );
    assert!(parse_sha256("not a hash").is_err());
    assert!(parse_sha256("").is_err());
}

#[test]
fn parse_sha256_lowercases_and_reports_the_text() {
    let upper = "AB".repeat(32);
    assert_eq!(parse_sha256(&format!("  {upper}\tfile")).unwrap(), "ab".repeat(32));
    assert_eq!(
        parse_sha256("xyz"),
        Err(WebuiUpdateError::NoSha256Found("xyz".to_string()))
    );
    assert!(parse_sha256(&"a".repeat(63)).is_err());
    assert!(parse_sha256(&"g".repeat(64)).is_err());
}

#[test]
fn served_version_trims_the_marker() {
    assert_eq!(served_version(Some(" 1.2.3\n")), Some("1.2.3".to_string()));
    assert_eq!(served_version(Some("   ")), None);
    assert_eq!(served_version(None), None);
}

#[test]
fn release_version_drops_leading_v() {
    assert_eq!(release_version("v1.4.0"), "1.4.0");
    assert_eq!(release_version("1.4.0"), "1.4.0");
}

fn release() -> Release {
    Release {
        tag_name: "v2.0.0".to_string(),
        assets: vec![
            Asset {
                name: "kmweb-v2.0.0.tar.gz".to_string(),
                browser_download_url: "https://dl/kmweb.tar.gz".to_string(),
            },
            Asset {
                name: "kmweb-v2.0.0.tar.gz.sha256".to_string(),
                browser_download_url: "https://dl/kmweb.tar.gz.sha256".to_string(),
            },
        ],
    }
}

#[test]
fn plan_update_downloads_a_new_release() {
    match plan_update(&release(), Some("1.9.0")).unwrap() {
        UpdateStep::Download(plan) => {
            assert_eq!(plan.version, "2.0.0");
            assert_eq!(plan.tarball_name, "kmweb-v2.0.0.tar.gz");
            assert_eq!(plan.tarball_url, "https://dl/kmweb.tar.gz");
            assert_eq!(plan.sha256_url, "https://dl/kmweb.tar.gz.sha256");
        }
        UpdateStep::UpToDate => panic!("a newer release is downloaded"),
    }
}

#[test]
fn plan_update_skips_the_served_version() {
    assert_eq!(plan_update(&release(), Some("2.0.0")), Ok(UpdateStep::UpToDate));
}

#[test]
fn plan_update_reports_missing_assets_and_bad_tags() {
    let mut r = release();
    r.assets.pop();
    assert_eq!(
        plan_update(&r, None),
        Err(WebuiUpdateError::MissingAsset {
            tag_name: "v2.0.0".to_string(),
            name: "kmweb-v2.0.0.tar.gz.sha256".to_string(),
        })
    );
    let bad = Release { tag_name: "v".to_string(), assets: Vec::new() };
    assert_eq!(
        plan_update(&bad, None),
        Err(WebuiUpdateError::UnexpectedReleaseTag("v".to_string()))
    );
}

#[test]
fn asset_url_finds_the_first_asset() {
    assert_eq!(
        asset_url(&release(), "kmweb-v2.0.0.tar.gz"),
        Ok("https://dl/kmweb.tar.gz".to_string())
    );
    assert!(asset_url(&release(), "other").is_err());
}

#[test]
fn hex_encode_writes_lower_case_pairs() {
    assert_eq!(hex_encode(&[0x00, 0xAB, 0x7F]), "00ab7f");
}

#[test]
fn sha256_hex_matches_the_known_digest() {
    assert_eq!(
        sha256_hex(b"abc"),
        "ba7816bf8f01cfea414140de5dae2223b00361a396177a9cb410ff61f20015ad"
    );
}

#[test]
fn bundle_checksum_is_checked() {
    let digest = sha256_hex(b"bundle");
    assert_eq!(check_bundle_sha256(b"bundle", &digest), Ok(()));
    assert_eq!(
        check_bundle_sha256(b"other", &digest),
        Err(WebuiUpdateError::Sha256Mismatch)
    );
}
