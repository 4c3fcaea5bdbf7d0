use nen::node_downloader::NodeDownloader;
use nen::node_version::{FullVersion, NodeVersion};
use nen::version_list::{parse_version_link, VersionList};

fn full(major: u64, minor: u64, patch: u64) -> FullVersion {
    FullVersion { major, minor, patch }
}

fn index_page(links: &[&str]) -> String {
    let mut page = String::from("<html><body>");
    for link in links {
        page.push_str("<a href=\"");
        page.push_str(link);
        page.push_str("\">entry</a>");
    }
    page.push_str("</body></html>");
    page
}

#[test]
fn resolve_picks_newest_satisfying_entry() {
    let page = index_page(&["v10.0.0/", "v10.5.2/", "v12.1.0/", "v12.3.4/"]);
    let list = VersionList::create(&page);
    assert_eq!(list.latest_version_of(&NodeVersion::Major(12)), Some(full(12, 3, 4)));
    assert_eq!(list.latest_version_of(&NodeVersion::MajorMinor(10, 5)), Some(full(10, 5, 2)));
    assert_eq!(list.latest_version_of(&NodeVersion::Specific(12, 1, 0)), Some(full(12, 1, 0)));
    assert_eq!(list.latest_version_of(&NodeVersion::Major(99)), None);
}

#[test]
fn resolve_ignores_page_order() {
    // The maximum satisfying entry wins even when an older one is parsed
    // first.
    let page = index_page(&["v10.0.0/", "v10.5.2/", "v10.1.7/"]);
    let list = VersionList::create(&page);
    assert_eq!(list.latest_version_of(&NodeVersion::Major(10)), Some(full(10, 5, 2)));
}

#[test]
fn has_version_lists_parsed_entries() {
    let page = index_page(&["v10.0.0/", "v12.3.4/"]);
    let list = VersionList::create(&page);
    assert!(list.has_version(&full(10, 0, 0)));
    assert!(list.has_version(&full(12, 3, 4)));
    assert!(!list.has_version(&full(11, 0, 0)));
}

#[test]
fn malformed_links_are_excluded() {
    let page = index_page(&["v1.2/", "vX.Y.Z/", "1.2.3/", "v1.2.3", "v1.2.3/", "latest/"]);
    let list = VersionList::create(&page);
    assert!(list.has_version(&full(1, 2, 3)));
    assert!(!list.has_version(&full(1, 2, 0)));
    assert_eq!(list.latest_version_of(&NodeVersion::Major(1)), Some(full(1, 2, 3)));
    // Nothing else survives: no entry satisfies any other major.
    assert_eq!(list.latest_version_of(&NodeVersion::Major(2)), None);
}

#[test]
fn parse_version_link_requires_exact_shape() {
    assert_eq!(parse_version_link("v14.2.0/"), Some(full(14, 2, 0)));
    assert_eq!(parse_version_link("v1.2/"), None);
    assert_eq!(parse_version_link("vX.Y.Z/"), None);
    assert_eq!(parse_version_link("1.2.3/"), None);
    assert_eq!(parse_version_link("v1.2.3"), None);
    assert_eq!(parse_version_link("v1.2.3-rc1/"), None);
    assert_eq!(parse_version_link(""), None);
}

#[test]
fn download_url_names_versioned_archive() {
    let page = index_page(&["v14.2.0/", "v14.1.0/"]);
    let list = VersionList::create(&page);
    let url = list.download_url(&NodeVersion::Specific(14, 2, 0));
    assert_eq!(url, Some(String::from("https://nodejs.org/dist/v14.2.0/node-v14.2.0.tar.gz")));
    let url = list.download_url(&NodeVersion::Major(14));
    assert_eq!(url, Some(String::from("https://nodejs.org/dist/v14.2.0/node-v14.2.0.tar.gz")));
    assert_eq!(list.download_url(&NodeVersion::Major(99)), None);
}

#[test]
fn download_file_name_takes_last_segment() {
    assert_eq!(
        NodeDownloader::download_file_name("https://nodejs.org/dist/v14.2.0/node-v14.2.0.tar.gz"),
        String::from("node-v14.2.0.tar.gz"),
    );
    assert_eq!(
        NodeDownloader::download_file_name("https://nodejs.org/dist/v14.2.0/"),
        String::from("nen-node-download.tar.gz"),
    );
    assert_eq!(NodeDownloader::download_file_name(""), String::from("nen-node-download.tar.gz"));
    assert_eq!(NodeDownloader::download_file_name("name.tar.gz"), String::from("name.tar.gz"));
}
