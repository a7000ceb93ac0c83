use kilo::agent::KiloAgent;
use kilo::errors::{GitAiError, TranscriptError};
use kilo::preset::KiloPreset;
use kilo::storage::{
    no_db_at, BaseDir, DbLocation, DbProbe, HostDirs, HostPath, Platform, StorageRoot,
};

const PLATFORMS: [Platform; 4] =
    [Platform::MacOs, Platform::Linux, Platform::Windows, Platform::Other];

fn dirs(home: bool, xdg_data_home: bool, app_data: bool, local_app_data: bool) -> HostDirs {
    HostDirs { home, xdg_data_home, app_data, local_app_data }
}

fn place(base: BaseDir, components: &[&str]) -> HostPath {
    HostPath { base, components: components.iter().map(|c| c.to_string()).collect() }
}

fn nothing() -> DbProbe {
    DbProbe {
        is_file: false,
        is_dir: false,
        file_name: None,
        child_exists: false,
        sibling_exists: false,
    }
}

fn located(probe: &DbProbe) -> Option<DbLocation> {
    let location = KiloAgent::resolve_sqlite_db_path(probe);
    assert_eq!(KiloPreset::resolve_sqlite_db_path(probe), location);
    location
}

#[test]
fn test_resolve_sqlite_db_path_direct_file() {
    let probe = DbProbe { is_file: true, file_name: Some("kilo.db".to_string()), ..nothing() };
    assert_eq!(located(&probe), Some(DbLocation::Itself));
}

#[test]
fn test_resolve_sqlite_db_path_other_file_name() {
    let probe = DbProbe { is_file: true, file_name: Some("not_kilo.db".to_string()), ..nothing() };
    assert_eq!(located(&probe), None);
}

#[test]
fn test_resolve_sqlite_db_path_directory_with_db() {
    let probe = DbProbe {
        is_dir: true,
        file_name: Some("tmp".to_string()),
        child_exists: true,
        ..nothing()
    };
    assert_eq!(located(&probe), Some(DbLocation::Child));
}

#[test]
fn test_resolve_sqlite_db_path_directory_without_db() {
    let probe = DbProbe { is_dir: true, file_name: Some("tmp".to_string()), ..nothing() };
    assert_eq!(located(&probe), None);
}

#[test]
fn test_resolve_sqlite_db_path_storage_dir_with_sibling_db() {
    let probe = DbProbe {
        is_dir: true,
        file_name: Some("storage".to_string()),
        sibling_exists: true,
        ..nothing()
    };
    assert_eq!(located(&probe), Some(DbLocation::Sibling));
}

#[test]
fn databases_elsewhere_are_not_taken() {
    let beside_another_name = DbProbe {
        is_dir: true,
        file_name: Some("tmp".to_string()),
        sibling_exists: true,
        ..nothing()
    };
    assert_eq!(located(&beside_another_name), None);
    let nameless_file = DbProbe { is_file: true, child_exists: true, ..nothing() };
    assert_eq!(located(&nameless_file), None);
    let missing = DbProbe { child_exists: true, sibling_exists: true, ..nothing() };
    assert_eq!(located(&missing), None);
    let both = DbProbe {
        is_dir: true,
        file_name: Some("storage".to_string()),
        child_exists: true,
        sibling_exists: true,
        ..nothing()
    };
    assert_eq!(located(&both), Some(DbLocation::Child));
}

#[test]
fn test_kilocode_data_path_linux_no_xdg() {
    for platform in [Platform::Linux, Platform::MacOs] {
        let path = KiloAgent::kilocode_data_path(platform, &dirs(true, false, false, false));
        assert!(path.is_some());
        assert_eq!(path, Some(place(BaseDir::Home, &[".local", "share", "kilo"])));
    }
}

#[test]
fn data_paths_of_transcripts() {
    let path = |platform, d: HostDirs| KiloAgent::kilocode_data_path(platform, &d);
    assert_eq!(
        path(Platform::Linux, dirs(true, true, true, true)),
        Some(place(BaseDir::XdgDataHome, &["kilo"]))
    );
    assert_eq!(path(Platform::Linux, dirs(false, false, true, true)), None);
    assert_eq!(path(Platform::MacOs, dirs(false, true, true, true)), None);
    assert_eq!(
        path(Platform::Windows, dirs(true, true, true, true)),
        Some(place(BaseDir::AppData, &["kilo"]))
    );
    assert_eq!(
        path(Platform::Windows, dirs(true, true, false, true)),
        Some(place(BaseDir::LocalAppData, &["kilo"]))
    );
    assert_eq!(path(Platform::Windows, dirs(true, true, false, false)), None);
    assert_eq!(path(Platform::Other, dirs(true, true, true, true)), None);
}

#[test]
fn data_paths_of_hooks() {
    let path = |platform, d: HostDirs| KiloPreset::kilocode_data_path(platform, &d);
    let generic = |message: &str| Err(GitAiError::Generic(message.to_string()));
    assert_eq!(
        path(Platform::MacOs, dirs(true, true, true, true)),
        Ok(place(BaseDir::Home, &[".local", "share", "kilo"]))
    );
    assert_eq!(
        path(Platform::Linux, dirs(true, true, true, true)),
        Ok(place(BaseDir::XdgDataHome, &["kilo"]))
    );
    assert_eq!(
        path(Platform::Linux, dirs(true, false, true, true)),
        Ok(place(BaseDir::Home, &["Library", "Application Support", "kilo"]))
    );
    for platform in [Platform::MacOs, Platform::Linux] {
        assert_eq!(
            path(platform, dirs(false, false, true, true)),
            generic("Could not determine home directory")
        );
    }
    assert_eq!(
        path(Platform::Windows, dirs(true, true, true, true)),
        Ok(place(BaseDir::AppData, &["kilo"]))
    );
    assert_eq!(
        path(Platform::Windows, dirs(true, true, false, true)),
        Ok(place(BaseDir::LocalAppData, &["kilo"]))
    );
    assert_eq!(
        path(Platform::Windows, dirs(true, true, false, false)),
        generic("Neither APPDATA nor LOCALAPPDATA is set")
    );
    assert_eq!(
        path(Platform::Other, dirs(true, true, true, true)),
        Err(GitAiError::PresetError(
            "Kilo Code storage path not supported on this platform".to_string()
        ))
    );
}

#[test]
fn an_override_comes_first() {
    let none = dirs(false, false, false, false);
    for platform in PLATFORMS {
        let elsewhere = Some("/elsewhere".to_string());
        assert_eq!(
            KiloAgent::storage_root(elsewhere.clone(), platform, &none),
            Ok(StorageRoot::Override("/elsewhere".to_string()))
        );
        assert_eq!(
            KiloPreset::storage_root(elsewhere, platform, &none),
            Some(StorageRoot::Override("/elsewhere".to_string()))
        );
        assert_eq!(
            KiloAgent::storage_root(None, platform, &none),
            Err(TranscriptError::Fatal {
                message: "Could not determine Kilo Code data path".to_string()
            })
        );
        assert_eq!(KiloPreset::storage_root(None, platform, &none), None);
    }
    let home = dirs(true, false, false, false);
    assert_eq!(
        KiloAgent::storage_root(None, Platform::Linux, &home),
        Ok(StorageRoot::Host(place(BaseDir::Home, &[".local", "share", "kilo"])))
    );
    assert_eq!(
        KiloPreset::storage_root(None, Platform::MacOs, &home),
        Some(StorageRoot::Host(place(BaseDir::Home, &[".local", "share", "kilo"])))
    );
}

#[test]
fn a_missing_database_is_named() {
    assert_eq!(
        no_db_at("/data"),
        TranscriptError::Fatal { message: "Could not find kilo.db at /data".to_string() }
    );
}
