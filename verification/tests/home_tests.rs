use nen::fs_model::{Fs, FsError};
use nen::nen_home::{CreateEnvError, NenHome, PathError, ReadVersionError, ValidNenHome};
use nen::node_downloader::{DownloadError, DownloadErrorKind, NodeArchive, NodeDownloader};
use nen::node_version::{FullVersion, NodeVersion};
use nen::version_list::VersionList;

fn catalog(links: &[&str]) -> VersionList {
    let mut page = String::from("<html><body>");
    for link in links {
        page.push_str("<a href=\"");
        page.push_str(link);
        page.push_str("\">entry</a>");
    }
    page.push_str("</body></html>");
    VersionList::create(&page)
}

fn fresh_home(fs: &mut Fs) -> ValidNenHome {
    let home = NenHome::new(Some(String::from("/home/user/.nen")), None).unwrap();
    home.init_home(fs).unwrap()
}

fn archive() -> NodeArchive {
    NodeArchive { entries: vec![String::from("node-v12.3.4-linux-x64")] }
}

#[test]
fn home_path_prefers_override() {
    assert_eq!(
        nen::path::home_path(Some(String::from("/custom")), Some(String::from("/home/user"))),
        Ok(String::from("/custom")),
    );
    assert_eq!(
        nen::path::home_path(None, Some(String::from("/home/user"))),
        Ok(String::from("/home/user/.nen")),
    );
    assert_eq!(nen::path::home_path(None, None), Err(nen::path::PathError));
}

#[test]
fn new_home_fails_without_any_root() {
    assert!(NenHome::new(None, None).is_err());
    assert_eq!(PathError.message(), "Cannot get home path");
    assert_eq!(nen::path::PathError.message(), "Cannot get home path");
}

#[test]
fn init_home_is_idempotent() {
    let mut fs = Fs::new();
    let home = NenHome::new(Some(String::from("/root-a")), None).unwrap();
    assert!(!home.is_valid_home(&fs));
    let valid = home.init_home(&mut fs);
    assert!(valid.is_ok());

    let again = NenHome::new(Some(String::from("/root-a")), None).unwrap();
    assert!(again.is_valid_home(&fs));
    let valid = again.init_home(&mut fs);
    assert!(valid.is_ok());

    let third = NenHome::new(Some(String::from("/root-a")), None).unwrap();
    assert!(third.is_valid_home(&fs));
}

#[test]
fn init_home_reports_refused_creation() {
    let mut fs = Fs::new();
    fs.mark_unwritable(String::from("/root-b/binaries"));
    let home = NenHome::new(Some(String::from("/root-b")), None).unwrap();
    let result = home.init_home(&mut fs);
    assert!(result.is_err());
}

#[test]
fn has_version_false_before_install_true_after() {
    let mut fs = Fs::new();
    let home = fresh_home(&mut fs);
    let list = catalog(&["v12.3.4/"]);
    let version = FullVersion { major: 12, minor: 3, patch: 4 };

    assert!(!home.has_node_version(&fs, &version));
    let result = home.download_node_version(&mut fs, &NodeVersion::Major(12), &list, &archive());
    assert_eq!(result, Ok(()));
    assert!(home.has_node_version(&fs, &version));
}

#[test]
fn download_without_matching_version_has_no_url() {
    let mut fs = Fs::new();
    let home = fresh_home(&mut fs);
    let list = catalog(&["v12.3.4/"]);
    let result = home.download_node_version(&mut fs, &NodeVersion::Major(99), &list, &archive());
    assert_eq!(result, Err(DownloadError(DownloadErrorKind::NoDownloadUrl)));
}

#[test]
fn create_env_links_bin_to_runtime() {
    let mut fs = Fs::new();
    let home = fresh_home(&mut fs);
    let list = catalog(&["v12.3.4/", "v10.0.0/"]);
    let result = home.create_env(
        &mut fs,
        &String::from("work"),
        &NodeVersion::Major(12),
        &list,
        &archive(),
    );
    assert_eq!(result, Ok(()));
    assert!(fs.dir_exists(&String::from("/home/user/.nen/environments/work")));
    assert!(fs.dir_exists(&String::from("/home/user/.nen/environments/work/.pkg-global")));
    assert_eq!(
        fs.link_target(&String::from("/home/user/.nen/environments/work/bin")),
        Some(String::from("/home/user/.nen/binaries/12.3.4/node-v12.3.4-linux-x64/bin")),
    );
}

#[test]
fn create_env_twice_fails_and_keeps_first() {
    let mut fs = Fs::new();
    let home = fresh_home(&mut fs);
    let list = catalog(&["v12.3.4/"]);
    let name = String::from("work");
    let first = home.create_env(&mut fs, &name, &NodeVersion::Major(12), &list, &archive());
    assert_eq!(first, Ok(()));
    let target_before = fs.link_target(&String::from("/home/user/.nen/environments/work/bin"));

    let second = home.create_env(&mut fs, &name, &NodeVersion::Major(10), &list, &archive());
    assert_eq!(second, Err(CreateEnvError::EnvironmentExists));

    let target_after = fs.link_target(&String::from("/home/user/.nen/environments/work/bin"));
    assert_eq!(target_before, target_after);
    assert!(fs.dir_exists(&String::from("/home/user/.nen/environments/work/.pkg-global")));
}

#[test]
fn create_env_without_matching_version() {
    let mut fs = Fs::new();
    let home = fresh_home(&mut fs);
    let list = catalog(&["v12.3.4/"]);
    let result = home.create_env(
        &mut fs,
        &String::from("work"),
        &NodeVersion::Major(99),
        &list,
        &archive(),
    );
    assert_eq!(result, Err(CreateEnvError::NoMatchingVersion));
}

#[test]
fn create_env_reports_refused_directory() {
    let mut fs = Fs::new();
    let home = fresh_home(&mut fs);
    fs.mark_unwritable(String::from("/home/user/.nen/environments/work"));
    let list = catalog(&["v12.3.4/"]);
    let result = home.create_env(
        &mut fs,
        &String::from("work"),
        &NodeVersion::Major(12),
        &list,
        &archive(),
    );
    assert_eq!(result, Err(CreateEnvError::LayoutFailure));
}

#[test]
fn create_env_reports_refused_extraction() {
    let mut fs = Fs::new();
    let home = fresh_home(&mut fs);
    fs.mark_unwritable(String::from("/home/user/.nen/binaries/12.3.4"));
    let list = catalog(&["v12.3.4/"]);
    let result = home.create_env(
        &mut fs,
        &String::from("work"),
        &NodeVersion::Major(12),
        &list,
        &archive(),
    );
    assert_eq!(result, Err(CreateEnvError::Download(DownloadErrorKind::CannotExtract)));
}

#[test]
fn create_env_with_empty_archive_finds_no_runtime_dir() {
    let mut fs = Fs::new();
    let home = fresh_home(&mut fs);
    let list = catalog(&["v12.3.4/"]);
    let empty = NodeArchive { entries: Vec::new() };
    let result = home.create_env(
        &mut fs,
        &String::from("work"),
        &NodeVersion::Major(12),
        &list,
        &empty,
    );
    assert_eq!(result, Err(CreateEnvError::RuntimeDirNotFound));
    assert_eq!(ReadVersionError.message(), "Cannot read node version.");
}

#[test]
fn extract_places_archive_entries() {
    let mut fs = Fs::new();
    let dest = String::from("/tmp/unpacked");
    let result = NodeDownloader::extract(&mut fs, &archive(), &dest);
    assert_eq!(result, Ok(()));
    assert!(fs.dir_exists(&dest));
    assert!(fs.dir_exists(&String::from("/tmp/unpacked/node-v12.3.4-linux-x64")));
}

#[test]
fn create_dir_is_strict_and_reports_denials() {
    let mut fs = Fs::new();
    let path = String::from("/somewhere");
    assert_eq!(fs.create_dir(&path), Ok(()));
    assert_eq!(fs.create_dir(&path), Err(FsError::AlreadyExists));
    fs.mark_unwritable(String::from("/refused"));
    assert_eq!(fs.create_dir(&String::from("/refused")), Err(FsError::PermissionDenied));
    assert_eq!(fs.ensure_dir(&path), Ok(()));
}

#[test]
fn download_error_messages() {
    assert_eq!(DownloadError(DownloadErrorKind::NoDownloadUrl).message(), "No download URL");
    assert_eq!(
        DownloadError(DownloadErrorKind::RequestError).message(),
        "Error while making the request",
    );
    assert_eq!(
        DownloadError(DownloadErrorKind::NoDestination).message(),
        "No destination for download",
    );
    assert_eq!(DownloadError(DownloadErrorKind::CannotExtract).message(), "Cannot extract archive");
}
