use buffrs::update::{
    archive_asset_name, get_backup_path, get_temp_path, is_binary_entry, release_download_url, release_version,
    update_needed,
};

#[test]
fn archive_names_per_platform() {
    assert_eq!(archive_asset_name("1.2.5", "x86_64-unknown-linux-gnu", false), "v1.2.5-x86_64-unknown-linux-gnu.tar.gz");
    assert_eq!(archive_asset_name("1.2.5", "x86_64-pc-windows-msvc", true), "v1.2.5-x86_64-pc-windows-msvc.zip");
}

#[test]
fn staged_and_backup_paths() {
    assert_eq!(get_temp_path("/usr/local/bin/buffrs"), "/usr/local/bin/buffrs.tmp");
    assert_eq!(get_backup_path("/usr/local/bin/buffrs"), "/usr/local/bin/buffrs.bak");
    assert_eq!(get_temp_path("C:/tools/buffrs.exe"), "C:/tools/buffrs.tmp");
}

#[test]
fn release_tags_and_urls() {
    assert_eq!(release_version("gm/v1.2.3").unwrap(), "1.2.3");
    assert!(release_version("v1.2.3").is_err());
    assert_eq!(
        release_download_url("1.2.3", "v1.2.3-x.tar.gz"),
        "https://github.com/globusmedical/ext-buffrs/releases/download/gm/v1.2.3/v1.2.3-x.tar.gz"
    );
    assert!(update_needed("1.2.3", "1.2.2", false));
    assert!(!update_needed("1.2.3", "1.2.3", false));
    assert!(update_needed("1.2.3", "1.2.3", true));
    assert!(is_binary_entry("buffrs-v1/buffrs", "buffrs"));
    assert!(!is_binary_entry("README.md", "buffrs"));
}

#[test]
fn extension_is_replaced_after_the_last_dot_of_the_file_name() {
    assert_eq!(get_temp_path("bin/.buffrs"), "bin/.buffrs.tmp");
    assert_eq!(get_temp_path("bin.d/buffrs"), "bin.d/buffrs.tmp");
    assert_eq!(get_backup_path("a/buffrs.tar.gz"), "a/buffrs.tar.bak");
    assert_eq!(get_backup_path("buffrs."), "buffrs.bak");
    assert_eq!(get_temp_path("..x"), "..tmp");
}
