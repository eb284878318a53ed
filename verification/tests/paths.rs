use wsllink::error::LinkError;
use wsllink::path::{basename, to_host_path, to_subsystem_path};

#[test]
fn round_trip_under_shared_mount() {
    let host = "C:\\Users\\me\\project";
    let sub = to_subsystem_path(host).unwrap();
    assert_eq!(sub, "/mnt/C/Users/me/project");
    assert_eq!(to_host_path(&sub).unwrap(), host);
}

#[test]
fn round_trip_drive_root() {
    let host = "D:\\";
    let sub = to_subsystem_path(host).unwrap();
    assert_eq!(sub, "/mnt/D/");
    assert_eq!(to_host_path(&sub).unwrap(), host);
}

#[test]
fn round_trip_lower_case_drive() {
    let host = "c:\\tmp";
    let sub = to_subsystem_path(host).unwrap();
    assert_eq!(sub, "/mnt/c/tmp");
    assert_eq!(to_host_path(&sub).unwrap(), host);
}

#[test]
fn sub_round_trip() {
    let sub = "/mnt/e/data/set";
    let host = to_host_path(sub).unwrap();
    assert_eq!(host, "e:\\data\\set");
    assert_eq!(to_subsystem_path(&host).unwrap(), sub);
}

#[test]
fn unmappable_host_paths() {
    assert_eq!(to_subsystem_path(""), Err(LinkError::UnmappablePath));
    assert_eq!(to_subsystem_path("relative\\path"), Err(LinkError::UnmappablePath));
    assert_eq!(to_subsystem_path("\\\\server\\share"), Err(LinkError::UnmappablePath));
    assert_eq!(to_subsystem_path("C:"), Err(LinkError::UnmappablePath));
    assert_eq!(to_subsystem_path("C:/forward"), Err(LinkError::UnmappablePath));
    assert_eq!(to_subsystem_path("C:\\mixed/sep"), Err(LinkError::UnmappablePath));
    assert_eq!(to_subsystem_path("7:\\digit"), Err(LinkError::UnmappablePath));
}

#[test]
fn unmappable_sub_paths() {
    assert_eq!(to_host_path(""), Err(LinkError::UnmappablePath));
    assert_eq!(to_host_path("/home/me"), Err(LinkError::UnmappablePath));
    assert_eq!(to_host_path("/mnt/c"), Err(LinkError::UnmappablePath));
    assert_eq!(to_host_path("/mnt/cc/x"), Err(LinkError::UnmappablePath));
    assert_eq!(to_host_path("/mnt/c/back\\slash"), Err(LinkError::UnmappablePath));
    assert_eq!(to_host_path("mnt/c/x"), Err(LinkError::UnmappablePath));
}

#[test]
fn basename_strips_directory_and_suffix() {
    assert_eq!(basename("C:\\links\\grep.exe"), "grep");
    assert_eq!(basename("/mnt/c/links/grep.exe"), "grep");
    assert_eq!(basename("grep.exe"), "grep");
    assert_eq!(basename("grep"), "grep");
}

#[test]
fn basename_tolerates_empty_and_odd_inputs() {
    assert_eq!(basename(""), "");
    assert_eq!(basename("C:\\dir\\"), "");
    assert_eq!(basename("notes.txt"), "notes.txt");
    assert_eq!(basename("tool.exe.exe"), "tool.exe");
    assert_eq!(basename(".exe"), "");
}
