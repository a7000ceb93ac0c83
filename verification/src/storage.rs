//! Where Kilo Code keeps its database.
use crate::agent::KiloAgent;
use crate::errors::{concat2, GitAiError, GitAiFault, TranscriptError, TranscriptFault};
use crate::preset::KiloPreset;
use crate::text::{same, views};
use vstd::prelude::*;

verus! {

/// The kinds of host that are told apart.
#[derive(Clone, Copy, Debug, PartialEq, Eq, Structural)]
pub enum Platform {
    MacOs,
    Linux,
    Windows,
    Other,
}

/// A directory that the host names: the home directory, or one that an environment variable
/// gives.
#[derive(Clone, Copy, Debug, PartialEq, Eq, Structural)]
pub enum BaseDir {
    Home,
    XdgDataHome,
    AppData,
    LocalAppData,
}

/// Which of these directories the host names.
#[derive(Clone, Copy, Debug, PartialEq, Eq)]
pub struct HostDirs {
    pub home: bool,
    pub xdg_data_home: bool,
    pub app_data: bool,
    pub local_app_data: bool,
}

/// A path on the host: the components in order below a directory that it names.
#[derive(Debug, PartialEq)]
pub struct HostPath {
    pub base: BaseDir,
    pub components: Vec<String>,
}

/// The content of a [`HostPath`].
pub struct Place {
    pub base: BaseDir,
    pub components: Seq<Seq<char>>,
}

impl View for HostPath {
    type V = Place;

    open spec fn view(&self) -> Place {
        Place { base: self.base, components: views(self.components@) }
    }
}

impl HostPath {
    fn of1(base: BaseDir, a: &str) -> (path: HostPath)
        ensures
            path@ == (Place { base, components: seq![a@] }),
    {
        let mut components: Vec<String> = Vec::new();
        components.push(a.to_owned());
        assert(views(components@) == seq![a@]);
        HostPath { base, components }
    }

    fn of3(base: BaseDir, a: &str, b: &str, c: &str) -> (path: HostPath)
        ensures
            path@ == (Place { base, components: seq![a@, b@, c@] }),
    {
        let mut components: Vec<String> = Vec::new();
        components.push(a.to_owned());
        components.push(b.to_owned());
        components.push(c.to_owned());
        assert(views(components@) == seq![a@, b@, c@]);
        HostPath { base, components }
    }

    pub(crate) fn of4(base: BaseDir, a: &str, b: &str, c: &str, d: &str) -> (path: HostPath)
        ensures
            path@ == (Place { base, components: seq![a@, b@, c@, d@] }),
    {
        let mut path = HostPath::of3(base, a, b, c);
        let ghost before = path.components@;
        path.components.push(d.to_owned());
        assert(views(path.components@) == views(before).push(d@));
        assert(views(path.components@) == seq![a@, b@, c@, d@]);
        path
    }

    pub(crate) fn of5(base: BaseDir, a: &str, b: &str, c: &str, d: &str, e: &str) -> (path:
        HostPath)
        ensures
            path@ == (Place { base, components: seq![a@, b@, c@, d@, e@] }),
    {
        let mut path = HostPath::of4(base, a, b, c, d);
        let ghost before = path.components@;
        path.components.push(e.to_owned());
        assert(views(path.components@) == views(before).push(e@));
        assert(views(path.components@) == seq![a@, b@, c@, d@, e@]);
        path
    }
}

/// Where the transcripts of Kilo Code lie, as the reader looks for them.
pub open spec fn transcript_place(platform: Platform, dirs: HostDirs) -> Option<Place> {
    let below_home = if dirs.home {
        Some(Place { base: BaseDir::Home, components: seq![".local"@, "share"@, "kilo"@] })
    } else {
        None
    };
    match platform {
        Platform::MacOs => below_home,
        Platform::Linux => if dirs.xdg_data_home {
            Some(Place { base: BaseDir::XdgDataHome, components: seq!["kilo"@] })
        } else {
            below_home
        },
        Platform::Windows => windows_place(dirs),
        Platform::Other => None,
    }
}

/// Where Kilo Code keeps its data on Windows.
pub open spec fn windows_place(dirs: HostDirs) -> Option<Place> {
    if dirs.app_data {
        Some(Place { base: BaseDir::AppData, components: seq!["kilo"@] })
    } else if dirs.local_app_data {
        Some(Place { base: BaseDir::LocalAppData, components: seq!["kilo"@] })
    } else {
        None
    }
}

/// Where the data of Kilo Code lies, as the hooks look for it, or why it lies nowhere.
pub open spec fn hook_place(platform: Platform, dirs: HostDirs) -> Result<Place, GitAiFault> {
    let homeless = Err(GitAiFault::Generic("Could not determine home directory"@));
    match platform {
        Platform::MacOs => if dirs.home {
            Ok(Place { base: BaseDir::Home, components: seq![".local"@, "share"@, "kilo"@] })
        } else {
            homeless
        },
        Platform::Linux => if dirs.xdg_data_home {
            Ok(Place { base: BaseDir::XdgDataHome, components: seq!["kilo"@] })
        } else if dirs.home {
            Ok(
                Place {
                    base: BaseDir::Home,
                    components: seq!["Library"@, "Application Support"@, "kilo"@],
                },
            )
        } else {
            homeless
        },
        Platform::Windows => match windows_place(dirs) {
            Some(place) => Ok(place),
            None => Err(GitAiFault::Generic("Neither APPDATA nor LOCALAPPDATA is set"@)),
        },
        Platform::Other => Err(
            GitAiFault::PresetError("Kilo Code storage path not supported on this platform"@),
        ),
    }
}

fn windows_path(dirs: &HostDirs) -> (path: Option<HostPath>)
    ensures
        match path {
            Some(p) => windows_place(*dirs) == Some(p@),
            None => windows_place(*dirs) is None,
        },
{
    if dirs.app_data {
        Some(HostPath::of1(BaseDir::AppData, "kilo"))
    } else if dirs.local_app_data {
        Some(HostPath::of1(BaseDir::LocalAppData, "kilo"))
    } else {
        None
    }
}

impl KiloAgent {
    /// Where the transcripts of Kilo Code lie, as the reader looks for them.
    pub fn kilocode_data_path(platform: Platform, dirs: &HostDirs) -> (path: Option<HostPath>)
        ensures
            match path {
                Some(p) => transcript_place(platform, *dirs) == Some(p@),
                None => transcript_place(platform, *dirs) is None,
            },
    {
        match platform {
            Platform::Linux if dirs.xdg_data_home => Some(
                HostPath::of1(BaseDir::XdgDataHome, "kilo"),
            ),
            Platform::MacOs | Platform::Linux => if dirs.home {
                Some(HostPath::of3(BaseDir::Home, ".local", "share", "kilo"))
            } else {
                None
            },
            Platform::Windows => windows_path(dirs),
            Platform::Other => None,
        }
    }
}

impl KiloPreset {
    /// Where the data of Kilo Code lies, as the hooks look for it.
    pub fn kilocode_data_path(platform: Platform, dirs: &HostDirs) -> (path: Result<
        HostPath,
        GitAiError,
    >)
        ensures
            match path {
                Ok(p) => hook_place(platform, *dirs) == Ok::<Place, GitAiFault>(p@),
                Err(e) => hook_place(platform, *dirs) == Err::<Place, GitAiFault>(e@),
            },
    {
        match platform {
            Platform::MacOs => if dirs.home {
                Ok(HostPath::of3(BaseDir::Home, ".local", "share", "kilo"))
            } else {
                Err(GitAiError::Generic("Could not determine home directory".to_owned()))
            },
            Platform::Linux => if dirs.xdg_data_home {
                Ok(HostPath::of1(BaseDir::XdgDataHome, "kilo"))
            } else if dirs.home {
                Ok(HostPath::of3(BaseDir::Home, "Library", "Application Support", "kilo"))
            } else {
                Err(GitAiError::Generic("Could not determine home directory".to_owned()))
            },
            Platform::Windows => match windows_path(dirs) {
                Some(path) => Ok(path),
                None => Err(
                    GitAiError::Generic("Neither APPDATA nor LOCALAPPDATA is set".to_owned()),
                ),
            },
            Platform::Other => Err(
                GitAiError::PresetError(
                    "Kilo Code storage path not supported on this platform".to_owned(),
                ),
            ),
        }
    }
}

/// What the file system says of a path that may hold the database.
#[derive(Debug, PartialEq)]
pub struct DbProbe {
    /// The path is a file.
    pub is_file: bool,
    /// The path is a directory.
    pub is_dir: bool,
    /// The last name of the path, where it has one that is text.
    pub file_name: Option<String>,
    /// `kilo.db` exists in the directory.
    pub child_exists: bool,
    /// The directory has a parent, and `kilo.db` exists in it.
    pub sibling_exists: bool,
}

/// Where the database lies, seen from the path that was probed.
#[derive(Clone, Copy, Debug, PartialEq, Eq, Structural)]
pub enum DbLocation {
    /// The path itself.
    Itself,
    /// `kilo.db` in the directory.
    Child,
    /// `kilo.db` beside the directory.
    Sibling,
}

/// The last name of the probed path is `name`.
pub open spec fn is_named(probe: DbProbe, name: Seq<char>) -> bool {
    match probe.file_name {
        Some(n) => n@ == name,
        None => false,
    }
}

/// Where the database lies: a file must be the database itself; a directory holds it, or lies
/// beside it under the name `storage`.
pub open spec fn db_location(probe: DbProbe) -> Option<DbLocation> {
    if probe.is_file {
        if is_named(probe, "kilo.db"@) {
            Some(DbLocation::Itself)
        } else {
            None
        }
    } else if !probe.is_dir {
        None
    } else if probe.child_exists {
        Some(DbLocation::Child)
    } else if is_named(probe, "storage"@) && probe.sibling_exists {
        Some(DbLocation::Sibling)
    } else {
        None
    }
}

fn has_name(probe: &DbProbe, name: &str) -> (b: bool)
    ensures
        b == is_named(*probe, name@),
{
    match &probe.file_name {
        Some(n) => same(n.as_str(), name),
        None => false,
    }
}

/// Where the database lies, given what the file system says of the path.
fn locate_db(probe: &DbProbe) -> (location: Option<DbLocation>)
    ensures
        location == db_location(*probe),
{
    if probe.is_file {
        return if has_name(probe, "kilo.db") {
            Some(DbLocation::Itself)
        } else {
            None
        };
    }
    if !probe.is_dir {
        return None;
    }
    if probe.child_exists {
        return Some(DbLocation::Child);
    }
    if has_name(probe, "storage") && probe.sibling_exists {
        return Some(DbLocation::Sibling);
    }
    None
}

impl KiloAgent {
    /// Where the database lies, given what the file system says of the path.
    pub fn resolve_sqlite_db_path(probe: &DbProbe) -> (location: Option<DbLocation>)
        ensures
            location == db_location(*probe),
    {
        locate_db(probe)
    }
}

impl KiloPreset {
    /// Where the database lies, given what the file system says of the path.
    pub fn resolve_sqlite_db_path(probe: &DbProbe) -> (location: Option<DbLocation>)
        ensures
            location == db_location(*probe),
    {
        locate_db(probe)
    }
}

/// A database that is located was seen there: the path is that file, or `kilo.db` exists in the
/// directory or beside it.
pub proof fn law_located_db_was_seen(probe: DbProbe)
    ensures
        match db_location(probe) {
            Some(DbLocation::Itself) => probe.is_file && is_named(probe, "kilo.db"@),
            Some(DbLocation::Child) => probe.is_dir && probe.child_exists,
            Some(DbLocation::Sibling) => probe.is_dir && probe.sibling_exists,
            None => !(probe.is_dir && !probe.is_file && probe.child_exists),
        },
{
}

/// On macOS and Linux a home directory is enough to know where the data lies.
pub proof fn law_home_is_enough(platform: Platform, dirs: HostDirs)
    requires
        platform == Platform::MacOs || platform == Platform::Linux,
        dirs.home,
    ensures
        transcript_place(platform, dirs) is Some,
        hook_place(platform, dirs) is Ok,
{
}

/// Where to look for the database: at a path that overrides the host's, or below one of its
/// directories.
#[derive(Debug, PartialEq)]
pub enum StorageRoot {
    Override(String),
    Host(HostPath),
}

impl KiloAgent {
    /// Where the reader looks for the database; an override comes first.
    pub fn storage_root(
        override_path: Option<String>,
        platform: Platform,
        dirs: &HostDirs,
    ) -> (root: Result<StorageRoot, TranscriptError>)
        ensures
            match root {
                Ok(StorageRoot::Override(path)) => override_path == Some(path),
                Ok(StorageRoot::Host(path)) => {
                    &&& override_path is None
                    &&& transcript_place(platform, *dirs) == Some(path@)
                },
                Err(e) => {
                    &&& override_path is None
                    &&& transcript_place(platform, *dirs) is None
                    &&& e@ == (TranscriptFault::Fatal {
                        message: "Could not determine Kilo Code data path"@,
                    })
                },
            },
    {
        match override_path {
            Some(path) => Ok(StorageRoot::Override(path)),
            None => match KiloAgent::kilocode_data_path(platform, dirs) {
                Some(path) => Ok(StorageRoot::Host(path)),
                None => Err(
                    TranscriptError::Fatal {
                        message: "Could not determine Kilo Code data path".to_owned(),
                    },
                ),
            },
        }
    }
}

impl KiloPreset {
    /// Where the hooks look for the database; an override comes first.
    pub fn storage_root(
        override_path: Option<String>,
        platform: Platform,
        dirs: &HostDirs,
    ) -> (root: Option<StorageRoot>)
        ensures
            match root {
                Some(StorageRoot::Override(path)) => override_path == Some(path),
                Some(StorageRoot::Host(path)) => {
                    &&& override_path is None
                    &&& hook_place(platform, *dirs) == Ok::<Place, GitAiFault>(path@)
                },
                None => override_path is None && hook_place(platform, *dirs) is Err,
            },
    {
        match override_path {
            Some(path) => Some(StorageRoot::Override(path)),
            None => match KiloPreset::kilocode_data_path(platform, dirs) {
                Ok(path) => Some(StorageRoot::Host(path)),
                Err(_) => None,
            },
        }
    }
}

/// The error of a place without a database.
pub fn no_db_at(path: &str) -> (error: TranscriptError)
    ensures
        error@ == (TranscriptFault::Fatal { message: "Could not find kilo.db at "@ + path@ }),
{
    TranscriptError::Fatal { message: concat2("Could not find kilo.db at ", path) }
}

/// Where the reader looks: on Linux below `XDG_DATA_HOME` where it is set, there and on macOS
/// otherwise below the home directory, on Windows below `APPDATA` or else `LOCALAPPDATA`, and
/// nowhere on other platforms or without those directories.
pub proof fn law_where_transcripts_lie(dirs: HostDirs)
    ensures
        dirs.xdg_data_home ==> transcript_place(Platform::Linux, dirs) == Some(
            Place { base: BaseDir::XdgDataHome, components: seq!["kilo"@] },
        ),
        !dirs.xdg_data_home ==> transcript_place(Platform::Linux, dirs) == transcript_place(
            Platform::MacOs,
            dirs,
        ),
        dirs.home ==> transcript_place(Platform::MacOs, dirs) == Some(
            Place { base: BaseDir::Home, components: seq![".local"@, "share"@, "kilo"@] },
        ),
        !dirs.home ==> transcript_place(Platform::MacOs, dirs) is None,
        dirs.app_data ==> transcript_place(Platform::Windows, dirs) == Some(
            Place { base: BaseDir::AppData, components: seq!["kilo"@] },
        ),
        !dirs.app_data && dirs.local_app_data ==> transcript_place(Platform::Windows, dirs) == Some(
            Place { base: BaseDir::LocalAppData, components: seq!["kilo"@] },
        ),
        !dirs.app_data && !dirs.local_app_data ==> transcript_place(
            Platform::Windows,
            dirs,
        ) is None,
        transcript_place(Platform::Other, dirs) is None,
{
}

/// Where the hooks look: where the reader looks, but on Linux without `XDG_DATA_HOME` below the
/// home directory's `Library`. Where the reader finds nowhere to look the hooks fail, for want of
/// a home directory, of either directory of Windows, or of support for the platform.
pub proof fn law_where_hooks_look(platform: Platform, dirs: HostDirs)
    ensures
        hook_place(platform, dirs) is Ok <==> transcript_place(platform, dirs) is Some,
        transcript_place(platform, dirs) is Some && !(platform == Platform::Linux
            && !dirs.xdg_data_home) ==> hook_place(platform, dirs) == Ok::<Place, GitAiFault>(
            transcript_place(platform, dirs)->0,
        ),
        !dirs.xdg_data_home && dirs.home ==> hook_place(Platform::Linux, dirs) == Ok::<
            Place,
            GitAiFault,
        >(
            Place {
                base: BaseDir::Home,
                components: seq!["Library"@, "Application Support"@, "kilo"@],
            },
        ),
        hook_place(platform, dirs) matches Err(fault) ==> fault == match platform {
            Platform::MacOs | Platform::Linux => GitAiFault::Generic(
                "Could not determine home directory"@,
            ),
            Platform::Windows => GitAiFault::Generic("Neither APPDATA nor LOCALAPPDATA is set"@),
            Platform::Other => GitAiFault::PresetError(
                "Kilo Code storage path not supported on this platform"@,
            ),
        },
{
}

/// A database is located exactly where there is one: the path is a file of its name, or a
/// directory that holds it, or a directory called `storage` beside it.
pub proof fn law_db_is_located_exactly_where_it_is(probe: DbProbe)
    ensures
        db_location(probe) == Some(DbLocation::Itself) <==> probe.is_file && (probe.file_name
            is Some && probe.file_name->0@ == "kilo.db"@),
        db_location(probe) == Some(DbLocation::Child) <==> !probe.is_file && probe.is_dir
            && probe.child_exists,
        db_location(probe) == Some(DbLocation::Sibling) <==> !probe.is_file && probe.is_dir
            && !probe.child_exists && probe.sibling_exists && (probe.file_name is Some
            && probe.file_name->0@ == "storage"@),
{
}

/// The content of a path is its directory and the texts of its components.
pub proof fn law_content_of_a_path(path: HostPath)
    ensures
        path@.base == path.base,
        path@.components.len() == path.components@.len(),
        forall|i: int|
            0 <= i < path.components@.len() ==> (#[trigger] path@.components[i])
                == path.components@[i]@,
{
}

} // verus!
