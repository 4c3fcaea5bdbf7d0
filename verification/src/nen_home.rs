//! The home directory: its layout, idempotent initialisation, and the
//! creation of named environments backed by installed runtimes.

use vstd::prelude::*;

use crate::fs_model::{
    create_dir_model, ensure_dir_model, fs_entry_exists, is_direct_child, spec_first_child,
    symlink_model, Fs, FsError, FsModel,
};
use crate::node_downloader::{
    extract_entries_model, extract_model, lemma_extract_entries_grow, DownloadError,
    DownloadErrorKind, NodeArchive, NodeDownloader,
};
use crate::node_version::{spec_render_full, FullVersion, NodeVersion};
use crate::version_list::{spec_resolve, VersionList};

verus! {

/// An error which occurred when getting the home path.
#[derive(Debug, Clone, Copy, PartialEq, Eq, Structural)]
pub struct PathError;

impl PathError {
    /// A human-readable description of the error.
    pub fn message(&self) -> (r: &'static str)
        ensures
            r@ == "Cannot get home path"@,
    {
        "Cannot get home path"
    }
}

/// An error which occurred when reading an installed runtime directory.
#[derive(Debug, Clone, Copy, PartialEq, Eq, Structural)]
pub struct ReadVersionError;

impl ReadVersionError {
    /// A human-readable description of the error.
    pub fn message(&self) -> (r: &'static str)
        ensures
            r@ == "Cannot read node version."@,
    {
        "Cannot read node version."
    }
}

/// Spec-level layout of a home directory.
#[verifier::ext_equal]
pub struct HomeLayoutModel {
    pub home_path: Seq<char>,
    pub bin_path: Seq<char>,
    pub env_path: Seq<char>,
}

/// The layout rooted at `root`.
pub open spec fn layout_of(root: Seq<char>) -> HomeLayoutModel {
    HomeLayoutModel {
        home_path: root,
        bin_path: root + "/binaries"@,
        env_path: root + "/environments"@,
    }
}

/// All three layout paths name existing entries.
pub open spec fn layout_valid(l: HomeLayoutModel, m: FsModel) -> bool {
    fs_entry_exists(m, l.home_path) && fs_entry_exists(m, l.bin_path) && fs_entry_exists(
        m,
        l.env_path,
    )
}

/// Effect of idempotent layout creation: home, environments and binaries
/// directories in order, each created only when missing, stopping at the
/// first refused creation.
pub open spec fn create_dirs_model(l: HomeLayoutModel, m: FsModel) -> (
    FsModel,
    Result<(), FsError>,
) {
    let (m1, r1) = ensure_dir_model(m, l.home_path);
    if r1 is Err {
        (m1, r1)
    } else {
        let (m2, r2) = ensure_dir_model(m1, l.env_path);
        if r2 is Err {
            (m2, r2)
        } else {
            ensure_dir_model(m2, l.bin_path)
        }
    }
}

/// The directory a version's runtime is installed in.
pub open spec fn spec_version_dir(l: HomeLayoutModel, v: FullVersion) -> Seq<char> {
    l.bin_path + seq!['/'] + spec_render_full(v)
}

/// The directory of a named environment.
pub open spec fn spec_env_dir(l: HomeLayoutModel, name: Seq<char>) -> Seq<char> {
    l.env_path + seq!['/'] + name
}

/// Effect of downloading and installing the newest entry satisfying
/// `request`: its archive is unpacked into the version's directory.
pub open spec fn download_model(
    l: HomeLayoutModel,
    m: FsModel,
    request: NodeVersion,
    cat: Seq<FullVersion>,
    entries: Seq<Seq<char>>,
) -> (FsModel, Result<(), DownloadError>) {
    match spec_resolve(cat, request) {
        None => (m, Err(DownloadError(DownloadErrorKind::NoDownloadUrl))),
        Some(v) => {
            let (m1, r1) = extract_model(m, entries, spec_version_dir(l, v));
            match r1 {
                Ok(_) => (m1, Ok(())),
                Err(_) => (m1, Err(DownloadError(DownloadErrorKind::CannotExtract))),
            }
        },
    }
}

/// Why creating an environment failed.
#[derive(Debug, Clone, Copy, PartialEq, Eq, Structural)]
pub enum CreateEnvError {
    /// The environment name is already taken.
    EnvironmentExists,
    /// A directory or link of the environment was refused.
    LayoutFailure,
    /// No catalog entry satisfies the specifier.
    NoMatchingVersion,
    /// The download or the unpacking failed.
    Download(DownloadErrorKind),
    /// The installed runtime directory has no entry.
    RuntimeDirNotFound,
}

/// Effect of creating a named environment: its directory (the name must be
/// free), its package-metadata directory, the runtime installation when
/// missing, and the `bin` link to the runtime's `bin` directory.
pub open spec fn create_env_model(
    l: HomeLayoutModel,
    m: FsModel,
    name: Seq<char>,
    request: NodeVersion,
    cat: Seq<FullVersion>,
    entries: Seq<Seq<char>>,
) -> (FsModel, Result<(), CreateEnvError>) {
    let env_dir = spec_env_dir(l, name);
    let (m1, r1) = create_dir_model(m, env_dir);
    match r1 {
        Err(FsError::AlreadyExists) => (m1, Err(CreateEnvError::EnvironmentExists)),
        Err(_) => (m1, Err(CreateEnvError::LayoutFailure)),
        Ok(_) => {
            let (m2, r2) = create_dir_model(m1, env_dir + "/.pkg-global"@);
            if r2 is Err {
                (m2, Err(CreateEnvError::LayoutFailure))
            } else {
                match spec_resolve(cat, request) {
                    None => (m2, Err(CreateEnvError::NoMatchingVersion)),
                    Some(v) => {
                        let vdir = spec_version_dir(l, v);
                        let (m3, r3) = if fs_entry_exists(m2, vdir) {
                            (m2, Ok::<(), DownloadError>(()))
                        } else {
                            download_model(l, m2, request, cat, entries)
                        };
                        match r3 {
                            Err(e) => (m3, Err(CreateEnvError::Download(e.0))),
                            Ok(_) => match spec_first_child(m3.dirs, vdir) {
                                None => (m3, Err(CreateEnvError::RuntimeDirNotFound)),
                                Some(child) => {
                                    let (m4, r4) = symlink_model(
                                        m3,
                                        child + "/bin"@,
                                        env_dir + "/bin"@,
                                    );
                                    match r4 {
                                        Err(_) => (m4, Err(CreateEnvError::LayoutFailure)),
                                        Ok(_) => (m4, Ok(())),
                                    }
                                },
                            },
                        }
                    },
                }
            }
        },
    }
}

/// The paths of a home directory.
pub struct HomeLayout {
    pub home_path: String,
    pub bin_path: String,
    pub env_path: String,
}

impl View for HomeLayout {
    type V = HomeLayoutModel;

    open spec fn view(&self) -> HomeLayoutModel {
        HomeLayoutModel {
            home_path: self.home_path@,
            bin_path: self.bin_path@,
            env_path: self.env_path@,
        }
    }
}

impl HomeLayout {
    /// The layout rooted at `home_path`: the binaries and environments
    /// directories under it.
    pub fn new(home_path: String) -> (s: Self)
        ensures
            s@ == layout_of(home_path@),
    {
        let mut bin_path = home_path.clone();
        bin_path.append("/binaries");
        let mut env_path = home_path.clone();
        env_path.append("/environments");
        let s = HomeLayout { home_path, bin_path, env_path };
        assert(s@ =~= layout_of(s.home_path@));
        s
    }

    /// All three layout paths name existing entries.
    pub fn validate(&self, fs: &Fs) -> (r: bool)
        ensures
            r == layout_valid(self@, fs@),
    {
        fs.entry_exists(&self.home_path) && fs.entry_exists(&self.bin_path) && fs.entry_exists(
            &self.env_path,
        )
    }

    /// Create any missing layout directory; existing ones are kept as they
    /// are.
    pub fn create_dirs(&self, fs: &mut Fs) -> (r: Result<(), FsError>)
        ensures
            (final(fs)@, r) == create_dirs_model(self@, old(fs)@),
    {
        match fs.ensure_dir(&self.home_path) {
            Err(e) => {
                return Err(e);
            },
            Ok(()) => {},
        }
        match fs.ensure_dir(&self.env_path) {
            Err(e) => {
                return Err(e);
            },
            Ok(()) => {},
        }
        match fs.ensure_dir(&self.bin_path) {
            Err(e) => {
                return Err(e);
            },
            Ok(()) => {},
        }
        Ok(())
    }
}

/// A home directory, before its layout is known to exist.
pub struct NenHome {
    home: HomeLayout,
}

impl View for NenHome {
    type V = HomeLayoutModel;

    closed spec fn view(&self) -> HomeLayoutModel {
        self.home@
    }
}

impl NenHome {
    /// A home rooted at the override value when set, else at `.nen` under
    /// the user's home; fails when neither is available.
    pub fn new(override_path: Option<String>, user_home: Option<String>) -> (r: Result<
        NenHome,
        PathError,
    >)
        ensures
            match r {
                Ok(h) => crate::path::spec_home_root(
                    override_path.deep_view(),
                    user_home.deep_view(),
                ) == Some(h@.home_path) && h@ == layout_of(h@.home_path),
                Err(_) => crate::path::spec_home_root(
                    override_path.deep_view(),
                    user_home.deep_view(),
                ) is None,
            },
    {
        match crate::path::home_path(override_path, user_home) {
            Ok(root) => Ok(NenHome { home: HomeLayout::new(root) }),
            Err(_) => Err(PathError),
        }
    }

    /// All of the necessary folders exist for this home.
    pub fn is_valid_home(&self, fs: &Fs) -> (r: bool)
        ensures
            r == layout_valid(self@, fs@),
    {
        self.home.validate(fs)
    }

    /// Create any missing folder required of a home.
    pub fn init_home(self, fs: &mut Fs) -> (r: Result<ValidNenHome, FsError>)
        ensures
            final(fs)@ == create_dirs_model(self@, old(fs)@).0,
            match r {
                Ok(v) => create_dirs_model(self@, old(fs)@).1 is Ok && v@ == self@,
                Err(e) => create_dirs_model(self@, old(fs)@).1 == Err::<(), FsError>(e),
            },
    {
        match self.home.create_dirs(fs) {
            Ok(()) => Ok(ValidNenHome { home: self.home }),
            Err(e) => Err(e),
        }
    }
}

/// A home directory whose layout has been created or checked.
pub struct ValidNenHome {
    home: HomeLayout,
}

impl View for ValidNenHome {
    type V = HomeLayoutModel;

    closed spec fn view(&self) -> HomeLayoutModel {
        self.home@
    }
}

impl ValidNenHome {
    /// The runtime directory path of a version under the binaries root.
    fn version_dir(&self, version: &FullVersion) -> (r: String)
        ensures
            r@ == spec_version_dir(self@, *version),
    {
        let mut dir = self.home.bin_path.clone();
        dir.append("/");
        let rendered = version.version_string();
        dir.append(rendered.as_str());
        proof {
            reveal_strlit("/");
            assert("/"@ =~= seq!['/']);
            assert(dir@ =~= spec_version_dir(self@, *version));
        }
        dir
    }

    /// The environment directory path of a name under the environments
    /// root.
    fn env_dir(&self, name: &String) -> (r: String)
        ensures
            r@ == spec_env_dir(self@, name@),
    {
        let mut dir = self.home.env_path.clone();
        dir.append("/");
        dir.append(name.as_str());
        proof {
            reveal_strlit("/");
            assert("/"@ =~= seq!['/']);
            assert(dir@ =~= spec_env_dir(self@, name@));
        }
        dir
    }

    /// The version's runtime is installed: its path names an existing
    /// entry under the binaries root.
    pub fn has_node_version(&self, fs: &Fs, version: &FullVersion) -> (r: bool)
        ensures
            r == fs_entry_exists(fs@, spec_version_dir(self@, *version)),
    {
        let dir = self.version_dir(version);
        fs.entry_exists(&dir)
    }

    /// The single entry inside the version's runtime directory, or an
    /// error when there is none.
    fn node_version_dir(&self, fs: &Fs, version: &FullVersion) -> (r: Result<
        String,
        ReadVersionError,
    >)
        ensures
            match r {
                Ok(d) => spec_first_child(fs@.dirs, spec_version_dir(self@, *version)) == Some(d@),
                Err(_) => spec_first_child(fs@.dirs, spec_version_dir(self@, *version)) is None,
            },
    {
        let dir = self.version_dir(version);
        match fs.first_child(&dir) {
            Some(d) => Ok(d),
            None => Err(ReadVersionError),
        }
    }

    /// Resolve the specifier, and install its archive into the resolved
    /// version's directory: `NoDownloadUrl` when nothing satisfies the
    /// specifier, `CannotExtract` when the unpacking is refused.
    pub fn download_node_version(
        &self,
        fs: &mut Fs,
        version: &NodeVersion,
        version_list: &VersionList,
        archive: &NodeArchive,
    ) -> (r: Result<(), DownloadError>)
        requires
            version_list.well_formed(),
        ensures
            (final(fs)@, r) == download_model(
                self@,
                old(fs)@,
                *version,
                version_list@,
                archive.entries.deep_view(),
            ),
    {
        match version_list.download_url(version) {
            None => {
                return Err(DownloadError(DownloadErrorKind::NoDownloadUrl));
            },
            Some(_) => {},
        }
        let resolved = match version_list.latest_version_of(version) {
            Some(v) => v,
            None => {
                return Err(DownloadError(DownloadErrorKind::NoDownloadUrl));
            },
        };
        let node_path = self.version_dir(&resolved);
        match NodeDownloader::extract(fs, archive, &node_path) {
            Ok(()) => Ok(()),
            Err(_) => Err(DownloadError(DownloadErrorKind::CannotExtract)),
        }
    }

    /// Create the named environment: make its directory (failing when the
    /// name is taken) and its package-metadata directory, install the
    /// resolved runtime when missing, and link the environment's `bin`
    /// to the runtime's `bin` directory.
    pub fn create_env(
        &self,
        fs: &mut Fs,
        name: &String,
        version: &NodeVersion,
        version_list: &VersionList,
        archive: &NodeArchive,
    ) -> (r: Result<(), CreateEnvError>)
        requires
            version_list.well_formed(),
        ensures
            (final(fs)@, r) == create_env_model(
                self@,
                old(fs)@,
                name@,
                *version,
                version_list@,
                archive.entries.deep_view(),
            ),
    {
        let env_path = self.env_dir(name);
        match fs.create_dir(&env_path) {
            Err(FsError::AlreadyExists) => {
                return Err(CreateEnvError::EnvironmentExists);
            },
            Err(_) => {
                return Err(CreateEnvError::LayoutFailure);
            },
            Ok(()) => {},
        }
        let mut pkg_path = env_path.clone();
        pkg_path.append("/.pkg-global");
        match fs.create_dir(&pkg_path) {
            Err(_) => {
                return Err(CreateEnvError::LayoutFailure);
            },
            Ok(()) => {},
        }
        let resolved = match version_list.latest_version_of(version) {
            Some(v) => v,
            None => {
                return Err(CreateEnvError::NoMatchingVersion);
            },
        };
        if !self.has_node_version(fs, &resolved) {
            match self.download_node_version(fs, version, version_list, archive) {
                Ok(()) => {},
                Err(e) => {
                    let kind = e.0;
                    return Err(CreateEnvError::Download(kind));
                },
            }
        }
        let node_dir = match self.node_version_dir(fs, &resolved) {
            Ok(d) => d,
            Err(_) => {
                return Err(CreateEnvError::RuntimeDirNotFound);
            },
        };
        let mut node_bin = node_dir;
        node_bin.append("/bin");
        let mut env_bin = env_path;
        env_bin.append("/bin");
        match fs.symlink_dir(&node_bin, &env_bin) {
            Ok(()) => Ok(()),
            Err(_) => Err(CreateEnvError::LayoutFailure),
        }
    }
}

/// A directory kept by a push stays present.
proof fn lemma_push_keeps(s: Seq<Seq<char>>, x: Seq<char>, p: Seq<char>)
    requires
        s.contains(p),
    ensures
        s.push(x).contains(p),
{
    let i = choose|i: int| 0 <= i < s.len() && s[i] == p;
    assert(s.push(x)[i] == p);
}

/// A successful layout creation leaves all three directories existing.
pub proof fn lemma_create_dirs_valid(l: HomeLayoutModel, m: FsModel)
    ensures
        ({
            let (m1, r) = create_dirs_model(l, m);
            r is Ok ==> layout_valid(l, m1)
        }),
{
    let (ma, ra) = ensure_dir_model(m, l.home_path);
    if ra is Ok {
        lemma_ensure_dir_establishes(m, l.home_path);
        let (mb, rb) = ensure_dir_model(ma, l.env_path);
        if rb is Ok {
            lemma_ensure_dir_establishes(ma, l.env_path);
            lemma_ensure_dir_preserves(ma, l.env_path, l.home_path);
            let (mc, rc) = ensure_dir_model(mb, l.bin_path);
            if rc is Ok {
                lemma_ensure_dir_establishes(mb, l.bin_path);
                lemma_ensure_dir_preserves(mb, l.bin_path, l.home_path);
                lemma_ensure_dir_preserves(mb, l.bin_path, l.env_path);
            }
        }
    }
}

/// After a successful create-if-missing, the path names an entry.
proof fn lemma_ensure_dir_establishes(m: FsModel, path: Seq<char>)
    ensures
        ({
            let (m1, r) = ensure_dir_model(m, path);
            r is Ok ==> fs_entry_exists(m1, path)
        }),
{
    let (m1, r) = ensure_dir_model(m, path);
    if r is Ok && !fs_entry_exists(m, path) {
        assert(m1.dirs[m1.dirs.len() - 1] == path);
    }
}

/// A create-if-missing keeps every existing entry.
proof fn lemma_ensure_dir_preserves(m: FsModel, path: Seq<char>, p: Seq<char>)
    requires
        fs_entry_exists(m, p),
    ensures
        fs_entry_exists(ensure_dir_model(m, path).0, p),
{
    let (m1, r) = ensure_dir_model(m, path);
    if m.dirs.contains(p) {
        lemma_push_keeps_any(m.dirs, m1.dirs, p);
    }
}

/// Membership survives when the new list is the old one, or the old one
/// with one more entry.
proof fn lemma_push_keeps_any(s: Seq<Seq<char>>, t: Seq<Seq<char>>, p: Seq<char>)
    requires
        s.contains(p),
        t == s || exists|x: Seq<char>| t == s.push(x),
    ensures
        t.contains(p),
{
    if t != s {
        let x = choose|x: Seq<char>| t == s.push(x);
        lemma_push_keeps(s, x, p);
    }
}

/// Home-layout creation is idempotent: after one successful creation, a
/// second one succeeds and changes nothing.
pub proof fn lemma_init_home_idempotent(l: HomeLayoutModel, m: FsModel)
    ensures
        ({
            let (m1, r1) = create_dirs_model(l, m);
            r1 is Ok ==> create_dirs_model(l, m1) == (m1, Ok::<(), FsError>(()))
        }),
{
    let (m1, r1) = create_dirs_model(l, m);
    if r1 is Ok {
        lemma_create_dirs_valid(l, m);
        assert(create_dirs_model(l, m1) == (m1, Ok::<(), FsError>(())));
    }
}

/// A version is installed exactly after a successful download: nothing is
/// installed in a fresh tree, and the resolved version's directory exists
/// afterwards.
pub proof fn lemma_has_version_after_install(
    l: HomeLayoutModel,
    m: FsModel,
    request: NodeVersion,
    cat: Seq<FullVersion>,
    entries: Seq<Seq<char>>,
)
    ensures
        m.dirs == Seq::<Seq<char>>::empty() && m.links == Map::<Seq<char>, Seq<char>>::empty()
            ==> forall|v: FullVersion| !fs_entry_exists(m, #[trigger] spec_version_dir(l, v)),
        ({
            let (m1, r) = download_model(l, m, request, cat, entries);
            r is Ok ==> spec_resolve(cat, request) is Some && fs_entry_exists(
                m1,
                spec_version_dir(l, spec_resolve(cat, request).unwrap()),
            )
        }),
{
    let (m1, r) = download_model(l, m, request, cat, entries);
    if r is Ok {
        let v = spec_resolve(cat, request).unwrap();
        let vdir = spec_version_dir(l, v);
        let (ma, ra) = ensure_dir_model(m, vdir);
        lemma_ensure_dir_establishes(m, vdir);
        lemma_extract_entries_grow(ma, entries, vdir);
        if ma.dirs.contains(vdir) {
            let (mz, rz) = extract_entries_model(ma, entries, vdir);
            assert(mz.dirs.contains(vdir));
        }
    }
}

/// A created environment's `bin` link points at the `bin` directory of an
/// entry installed under the resolved version's directory.
pub proof fn lemma_env_bin_links_runtime(
    l: HomeLayoutModel,
    m: FsModel,
    name: Seq<char>,
    request: NodeVersion,
    cat: Seq<FullVersion>,
    entries: Seq<Seq<char>>,
)
    ensures
        ({
            let (m1, r) = create_env_model(l, m, name, request, cat, entries);
            let env_bin = spec_env_dir(l, name) + "/bin"@;
            r is Ok ==> spec_resolve(cat, request) is Some && m1.links.contains_key(env_bin)
                && exists|child: Seq<char>|
                {
                    &&& #[trigger] is_direct_child(
                        child,
                        spec_version_dir(l, spec_resolve(cat, request).unwrap()),
                    )
                    &&& m1.dirs.contains(child)
                    &&& m1.links[env_bin] == child + "/bin"@
                }
        }),
{
    let (m1, r1) = create_env_model(l, m, name, request, cat, entries);
    if r1 is Ok {
        let env_dir = spec_env_dir(l, name);
        let (ma, ra) = create_dir_model(m, env_dir);
        let (mb, rb) = create_dir_model(ma, env_dir + "/.pkg-global"@);
        let v = spec_resolve(cat, request).unwrap();
        let vdir = spec_version_dir(l, v);
        let (mc, rc) = if fs_entry_exists(mb, vdir) {
            (mb, Ok::<(), DownloadError>(()))
        } else {
            download_model(l, mb, request, cat, entries)
        };
        let child = spec_first_child(mc.dirs, vdir).unwrap();
        crate::fs_model::lemma_first_child_sound(mc.dirs, vdir);
        let (md, rd) = symlink_model(mc, child + "/bin"@, env_dir + "/bin"@);
        assert(md.links == mc.links.insert(env_dir + "/bin"@, child + "/bin"@));
        assert(md.dirs == mc.dirs);
        assert(m1 == md);
        assert(is_direct_child(child, vdir) && m1.dirs.contains(child) && m1.links[env_dir
            + "/bin"@] == child + "/bin"@);
    }
}

/// Creating two environments under one name: the second attempt fails
/// with `EnvironmentExists` and alters nothing, whatever specifier,
/// catalog and archive it is given.
pub proof fn lemma_env_names_unique(
    l: HomeLayoutModel,
    m: FsModel,
    name: Seq<char>,
    request: NodeVersion,
    cat: Seq<FullVersion>,
    entries: Seq<Seq<char>>,
    request2: NodeVersion,
    cat2: Seq<FullVersion>,
    entries2: Seq<Seq<char>>,
)
    ensures
        ({
            let (m1, r1) = create_env_model(l, m, name, request, cat, entries);
            r1 is Ok ==> create_env_model(l, m1, name, request2, cat2, entries2) == (
                m1,
                Err::<(), CreateEnvError>(CreateEnvError::EnvironmentExists),
            )
        }),
{
    let env_dir = spec_env_dir(l, name);
    let (m1, r1) = create_env_model(l, m, name, request, cat, entries);
    if r1 is Ok {
        let (ma, ra) = create_dir_model(m, env_dir);
        assert(ma.dirs.last() == env_dir);
        assert(ma.dirs.contains(env_dir));
        let (mb, rb) = create_dir_model(ma, env_dir + "/.pkg-global"@);
        lemma_push_keeps_any(ma.dirs, mb.dirs, env_dir);
        let v = spec_resolve(cat, request).unwrap();
        let vdir = spec_version_dir(l, v);
        let (mc, rc) = if fs_entry_exists(mb, vdir) {
            (mb, Ok::<(), DownloadError>(()))
        } else {
            download_model(l, mb, request, cat, entries)
        };
        if !fs_entry_exists(mb, vdir) {
            let (mx, rx) = ensure_dir_model(mb, vdir);
            lemma_push_keeps_any(mb.dirs, mx.dirs, env_dir);
            lemma_extract_entries_grow(mx, entries, vdir);
            assert(mc.dirs.contains(env_dir));
        }
        assert(mc.dirs.contains(env_dir));
        let child = spec_first_child(mc.dirs, vdir).unwrap();
        let (md, rd) = symlink_model(mc, child + "/bin"@, env_dir + "/bin"@);
        assert(md.dirs == mc.dirs);
        assert(m1.dirs.contains(env_dir));
        assert(create_env_model(l, m1, name, request2, cat2, entries2) == (
            m1,
            Err::<(), CreateEnvError>(CreateEnvError::EnvironmentExists),
        ));
    }
}

} // verus!
