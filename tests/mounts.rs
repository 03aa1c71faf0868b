use faux_unix_system::mounts::{trim_trailing_slashes, MountError, MountTable};

fn table() -> MountTable {
    let mut t = MountTable::new(0);
    t.push("/dev", 1).unwrap();
    t
}

#[test]
fn device_path_resolves_to_device_layer() {
    let r = table().resolve("/dev/null").unwrap();
    assert_eq!(r.backing, 1);
    assert_eq!(r.inner, "/null");
}

#[test]
fn parent_step_leaves_device_layer() {
    let r = table().resolve("/dev/../etc").unwrap();
    assert_eq!(r.backing, 0);
    assert_eq!(r.inner, "/etc");
}

#[test]
fn mount_point_itself_and_trailing_slash() {
    let t = table();
    let r = t.resolve("/dev/").unwrap();
    assert_eq!((r.backing, r.inner.as_str()), (1, ""));
    let r = t.resolve("/").unwrap();
    assert_eq!((r.backing, r.inner.as_str()), (0, ""));
    assert_eq!(t.resolve("/dev//").map(|r| r.backing), Err(MountError::InvalidPath));
}

#[test]
fn listing_root_shows_mount_points() {
    let mut t = table();
    t.push("/dev/pts", 2).unwrap();
    assert_eq!(t.mounted_children(""), vec!["dev".to_string()]);
    assert_eq!(t.mounted_children("/dev"), vec!["pts".to_string()]);
    assert!(t.mounted_children("/usr").is_empty());
}

#[test]
fn most_specific_mount_wins() {
    let mut t = MountTable::new(0);
    t.push("/a", 1).unwrap();
    t.push("/a/b", 2).unwrap();
    t.push("/ab", 3).unwrap();
    assert_eq!(t.resolve("/a/b/c").unwrap().backing, 2);
    assert_eq!(t.resolve("/a/bc").unwrap().backing, 1);
    assert_eq!(t.resolve("/ab").unwrap().backing, 3);
    assert_eq!(t.resolve("/x").unwrap().backing, 0);
    assert_eq!(t.push("/bad/", 4), Err(MountError::InvalidPath));
}

#[test]
fn trailing_slashes_are_trimmed() {
    assert_eq!(trim_trailing_slashes("/usr//"), "/usr");
    assert_eq!(trim_trailing_slashes("/"), "/");
    assert_eq!(trim_trailing_slashes("///"), "/");
    assert_eq!(trim_trailing_slashes("a"), "a");
}
