use buffrs::artifactory::{
    artifact_path, check_content_type, download_url, latest_version, publish_step, publish_target, repositories_url, search_url,
    validate_status, versions_from_search, ArtifactoryError, PublishStep, ARCHIVE_MIME,
};
use buffrs::manifest::{Dependency, DependencyManifest, LocalDependencyManifest, Manifest};
use buffrs::package::{Package, PackageName};
use buffrs::registry::RegistryUri;
use buffrs::version::Version;

fn v(s: &str) -> Version {
    Version::parse(s).unwrap()
}

#[test]
fn versions_are_read_from_search_results() {
    let uris = vec![
        "https://x/artifactory/api/storage/libs/lib/lib-1.0.0.tgz".to_string(),
        "https://x/artifactory/api/storage/libs/lib/lib-1.1.0-beta.1.tgz".to_string(),
        "https://x/artifactory/api/storage/libs/lib-extra/lib-extra-2.0.0.tgz".to_string(),
        "https://x/artifactory/api/storage/libs/lib/lib-01.0.0.tgz".to_string(),
        "https://x/artifactory/api/storage/libs/lib/lib-3.0.0.tgz.tgz".to_string(),
    ];
    let versions = versions_from_search(&PackageName::unchecked("lib"), &uris);
    assert_eq!(versions, vec![v("1.0.0"), v("1.1.0-beta.1"), v("3.0.0")]);
}

#[test]
fn latest_of_listed_versions() {
    assert_eq!(latest_version(&vec![v("1.0.0"), v("2.0.0"), v("1.5.0")]).unwrap(), v("2.0.0"));
    assert!(matches!(latest_version(&vec![]), Err(ArtifactoryError::NoVersionFound)));
}

#[test]
fn artifact_locations() {
    assert_eq!(artifact_path("/artifactory", "libs", "lib", "1.0.0"), "/artifactory/libs/lib/lib-1.0.0.tgz");
    let registry = RegistryUri::from_str("https://example.com/artifactory").unwrap();
    let url = download_url(&registry, "libs", &PackageName::unchecked("lib"), &v("1.0.0-rc.1+build.5")).unwrap();
    assert_eq!(url.as_str(), "https://example.com/artifactory/libs/lib/lib-1.0.0-rc.1.tgz");
    let search = search_url(&registry, "libs", &PackageName::unchecked("lib")).unwrap();
    assert_eq!(search.as_str(), "https://example.com/artifactory/api/search/artifact?name=lib&repos=libs");
    let listing = repositories_url(&registry).unwrap();
    assert_eq!(listing.as_str(), "https://example.com/artifactory/api/repositories");
}

#[test]
fn publish_status_decisions() {
    assert_eq!(publish_step(200, "u").unwrap(), PublishStep::AlreadyPublished);
    assert_eq!(publish_step(404, "u").unwrap(), PublishStep::Upload);
    assert!(matches!(publish_step(401, "u"), Err(ArtifactoryError::Unauthorized)));
    assert!(matches!(publish_step(500, "u"), Err(ArtifactoryError::UnexpectedStatus { status: 500, .. })));
    assert!(validate_status(200).is_ok());
    assert!(matches!(validate_status(302), Err(ArtifactoryError::Redirect)));
    assert!(matches!(validate_status(401), Err(ArtifactoryError::Unauthorized)));
    assert!(matches!(validate_status(503), Err(ArtifactoryError::Status(503))));
    assert!(check_content_type(Some("application/x-gzip"), ARCHIVE_MIME).is_ok());
    assert!(matches!(check_content_type(None, ARCHIVE_MIME), Err(ArtifactoryError::MissingContentType)));
    assert!(matches!(check_content_type(Some("text/html"), ARCHIVE_MIME), Err(ArtifactoryError::WrongMimeType(_))));
}

#[test]
fn publish_target_refuses_local_dependencies() {
    let registry = RegistryUri::from_str("https://example.com/artifactory").unwrap();
    let plain = Package {
        name: PackageName::unchecked("lib"),
        version: v("1.0.0"),
        manifest: Manifest::new(None, vec![]),
        tgz: vec![],
    };
    let target = publish_target(&registry, "libs", &plain).unwrap();
    assert_eq!(target.as_str(), "https://example.com/artifactory/libs/lib/lib-1.0.0.tgz");
    let local = Dependency {
        package: PackageName::unchecked("other"),
        manifest: DependencyManifest::Local(LocalDependencyManifest { package: None, path: "../other".to_string(), publish: None }),
    };
    let with_local = Package {
        name: PackageName::unchecked("lib"),
        version: v("1.0.0"),
        manifest: Manifest::new(None, vec![local]),
        tgz: vec![],
    };
    match publish_target(&registry, "libs", &with_local) {
        Err(ArtifactoryError::LocalDependencies { package, dependencies }) => {
            assert_eq!(package, "lib");
            assert_eq!(dependencies, "other");
        }
        other => panic!("unexpected {other:?}"),
    }
}

#[test]
fn publish_twice_succeeds() {
    let url = "https://example.com/artifactory/my-repository/lib/lib-1.0.0.tgz";
    // First publish: the registry does not have the artifact yet, so it is uploaded.
    assert_eq!(publish_step(404, url).unwrap(), PublishStep::Upload);
    // Second publish: the registry answers that the artifact exists, so it is skipped.
    assert_eq!(publish_step(200, url).unwrap(), PublishStep::AlreadyPublished);
}
