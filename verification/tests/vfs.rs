use futures_lite::future::block_on;
use opendal::Operator;
use opendal_ext::config::{OpenDALConfig, Scheme};
use opendal_ext::error::{ErrorKind, VfsError};
use opendal_ext::layers::ReadOnlyLayer;
use opendal_ext::mount::{MountAccess, MountLister, Operation, StatPlan, Target};
use opendal_ext::path::{entry_path, is_owner, name_under, normalize, rebase, relative_to};
use opendal_ext::quota::{MemoryTracker, QuotaState, QuotaWriter};
use opendal_ext::service::Service;
use opendal_ext::table::Table;
use opendal_ext::vfs::{MountEntry, VfsBuilder, VfsConfig, VfsQuota};

fn memory() -> OpenDALConfig {
    OpenDALConfig::from(Scheme::new(Service::Memory, Table::new()))
}

fn builder() -> VfsBuilder {
    VfsBuilder::new()
}

fn operator<'a>(access: &'a MountAccess, target: &Target) -> &'a Operator {
    &access.mounts.value_at(target.mount).operator
}

fn mount_path<'a>(access: &'a MountAccess, target: &Target) -> &'a str {
    access.mounts.key_at(target.mount)
}

fn kind(e: VfsError) -> ErrorKind {
    match e {
        VfsError::Raised(failure) => failure.kind,
        VfsError::Backend(e) => panic!("{e}"),
    }
}

fn write(access: &MountAccess, path: &str, data: &'static str) -> Result<(), VfsError> {
    let target = access.write(path)?;
    block_on(operator(access, &target).write(&target.path, data)).map_err(VfsError::Backend)?;
    Ok(())
}

fn read(access: &MountAccess, path: &str) -> Result<Vec<u8>, VfsError> {
    let (_, target) = access.read(path)?;
    let data = block_on(operator(access, &target).read(&target.path)).map_err(VfsError::Backend)?;
    Ok(data.to_vec())
}

fn is_dir(access: &MountAccess, path: &str) -> Result<bool, VfsError> {
    match access.metadata(path)? {
        StatPlan::Directory => Ok(true),
        StatPlan::Ask(target) => Ok(block_on(operator(access, &target).stat(&target.path))
            .map_err(VfsError::Backend)?
            .is_dir()),
    }
}

fn list(access: &MountAccess, path: &str) -> Result<Vec<String>, VfsError> {
    let mut lister = access.list(path)?;
    let mut events: Vec<String> = match &lister {
        MountLister::Real { target, .. } => block_on(operator(access, target).list(&target.path))
            .map_err(VfsError::Backend)?
            .into_iter()
            .rev()
            .map(|e| e.path().to_string())
            .collect(),
        MountLister::Virtual { .. } => vec![],
    };
    let mut entries = vec![];
    loop {
        match lister.next(events.pop().map(Ok))? {
            Some(entry) => entries.push(entry),
            None => return Ok(entries),
        }
    }
}

#[test]
fn write_and_read_inside_a_mount_rebases_the_path() {
    let access = builder().mount("/repos/test", memory()).build().unwrap();

    write(&access, "/repos/test/abc.txt", "hello").unwrap();

    let data = read(&access, "/repos/test/abc.txt").unwrap();
    assert_eq!(data, b"hello");
    assert_eq!(access.write("/repos/test/abc.txt").unwrap().path, "abc.txt");
}

#[test]
fn create_dir_rebases_the_path() {
    let access = builder().mount("/repos/test", memory()).build().unwrap();

    let target = access.create_dir("/repos/test/abc/").unwrap();
    assert_eq!(target.path, "abc/");
    block_on(operator(&access, &target).create_dir(&target.path)).unwrap();
    assert!(is_dir(&access, "/repos/test/abc/").unwrap());
}

#[test]
fn path_outside_any_mount_is_not_found() {
    let access = builder().mount("/repos/test", memory()).build().unwrap();

    let err = write(&access, "/elsewhere/file.txt", "x").unwrap_err();
    match &err {
        VfsError::Raised(failure) => {
            assert_eq!(failure.message, "no mount covers this path");
            assert_eq!(
                failure.context,
                vec![("path".to_string(), "/elsewhere/file.txt".to_string())]
            );
        }
        VfsError::Backend(e) => panic!("{e}"),
    }
    assert_eq!(kind(err), ErrorKind::NotFound);
    assert_eq!(kind(read(&access, "/elsewhere").unwrap_err()), ErrorKind::NotFound);
    assert_eq!(kind(list(&access, "/elsewhere").unwrap_err()), ErrorKind::NotFound);
    assert_eq!(kind(is_dir(&access, "/elsewhere").unwrap_err()), ErrorKind::NotFound);
    assert_eq!(kind(access.delete("/elsewhere").err().unwrap()), ErrorKind::NotFound);
    assert_eq!(kind(access.create_dir("/repos").err().unwrap()), ErrorKind::NotFound);
    // A path that only starts like a mount's is not in the mount.
    assert_eq!(kind(write(&access, "/repos/tests/a", "x").unwrap_err()), ErrorKind::NotFound);
}

#[test]
fn listing_an_unmounted_ancestor_shows_virtual_subfolders() {
    let access = builder()
        .mount("/repos/test", memory())
        .mount("/repos/other", memory())
        .mount("/images", memory())
        .build()
        .unwrap();

    assert_eq!(access.virtual_children("/").unwrap(), vec!["images", "repos"]);
    let mut names = list(&access, "/").unwrap();
    assert_eq!(names, vec!["repos/", "images/"]);
    names.sort();
    assert_eq!(names, vec!["images/", "repos/"]);

    assert_eq!(access.virtual_children("/repos/").unwrap(), vec!["other", "test"]);
    let mut names = list(&access, "/repos/").unwrap();
    names.sort();
    assert_eq!(names, vec!["repos/other/", "repos/test/"]);

    assert!(is_dir(&access, "/").unwrap());
    assert!(is_dir(&access, "/repos").unwrap());
    assert!(is_dir(&access, "/repos/test").unwrap());
    assert_eq!(kind(read(&access, "/repos").unwrap_err()), ErrorKind::NotFound);
    for entry in names {
        assert!(is_dir(&access, &entry).unwrap());
    }
}

#[test]
fn listing_inside_a_mount_delegates_and_rebases_entries() {
    let access = builder().mount("/repos/test", memory()).build().unwrap();

    write(&access, "/repos/test/a.txt", "1").unwrap();
    write(&access, "/repos/test/b.txt", "2").unwrap();

    let mut names = list(&access, "/repos/test/").unwrap();
    names.sort();
    assert_eq!(names, vec!["/repos/test/a.txt", "/repos/test/b.txt"]);
    for name in names {
        assert!(read(&access, &name).is_ok());
    }
}

#[test]
fn read_only_mount_rejects_writes_but_allows_reads() {
    let access = builder()
        .mount("/repos/test", memory())
        .read_only()
        .build()
        .unwrap();

    let err = write(&access, "/repos/test/a.txt", "x").unwrap_err();
    assert_eq!(kind(err), ErrorKind::PermissionDenied);

    let err = access.create_dir("/repos/test/dir/").err().unwrap();
    assert_eq!(kind(err), ErrorKind::PermissionDenied);

    let err = access.delete("/repos/test/a.txt").err().unwrap();
    match &err {
        VfsError::Raised(failure) => assert_eq!(failure.message, "mount is read-only"),
        VfsError::Backend(e) => panic!("{e}"),
    }
    assert_eq!(kind(err), ErrorKind::PermissionDenied);

    let err = access.transfer("/repos/test/a.txt", "/repos/test/b.txt");
    assert_eq!(kind(err), ErrorKind::PermissionDenied);

    assert!(access.read("/repos/test/a.txt").is_ok());
    assert!(access.list("/repos/test/").is_ok());
    assert!(is_dir(&access, "/repos/test/").unwrap());
}

#[test]
fn quota_is_enforced_per_mount() {
    let access = builder()
        .mount("/repos/test", memory())
        .quota("", 10)
        .mount("/scratch", memory())
        .build()
        .unwrap();

    let mut tracker = MemoryTracker::default();
    let target = access.write("/repos/test/a.txt").unwrap();
    let mut quota = match &access.mounts.value_at(target.mount).quota {
        VfsQuota::Enabled { id, bytes } => QuotaState::new(id.clone(), *bytes),
        VfsQuota::Disabled => panic!("the mount has a quota"),
    };
    let mut writer = QuotaWriter::new();
    let len = "0123456789".len() as u64;
    writer.write_tracked(&mut quota, &mut tracker, len, Ok(())).unwrap(); // exactly 10
    writer.closed(true);

    assert!(access.write("/repos/test/b.txt").is_ok());
    let mut writer = QuotaWriter::new();
    let err = writer.write_tracked(&mut quota, &mut tracker, 1, Ok(())).unwrap_err();
    assert_eq!(kind(err), ErrorKind::RateLimited);

    // The other mount has no quota.
    let target = access.write("/scratch/big.txt").unwrap();
    assert!(matches!(
        access.mounts.value_at(target.mount).quota,
        VfsQuota::Disabled
    ));
    write(&access, "/scratch/big.txt", "0123456789012345678901234567890").unwrap();
}

#[test]
fn deleting_routes_per_path() {
    let access = builder()
        .mount("/repos/test", memory())
        .mount("/scratch", memory())
        .build()
        .unwrap();

    write(&access, "/repos/test/a.txt", "x").unwrap();
    write(&access, "/scratch/b.txt", "y").unwrap();

    for path in ["/repos/test/a.txt", "/scratch/b.txt"] {
        let target = access.delete(path).unwrap();
        block_on(operator(&access, &target).delete(&target.path)).unwrap();
    }

    for path in ["/repos/test/a.txt", "/scratch/b.txt"] {
        match is_dir(&access, path).unwrap_err() {
            VfsError::Backend(e) => assert_eq!(e.kind(), opendal::ErrorKind::NotFound),
            VfsError::Raised(failure) => panic!("{failure:?}"),
        }
    }
}

#[test]
fn duplicate_mount_paths_are_rejected_at_build() {
    let err = builder()
        .mount("/repos/test", memory())
        .mount("/repos/test", memory())
        .build()
        .err()
        .unwrap();

    match &err {
        VfsError::Raised(failure) => {
            assert_eq!(failure.message, "duplicate mount path");
            assert_eq!(
                failure.context,
                vec![("path".to_string(), "/repos/test".to_string())]
            );
        }
        VfsError::Backend(e) => panic!("{e}"),
    }
    assert_eq!(kind(err), ErrorKind::ConfigInvalid);
    // The same path in another spelling.
    assert!(builder()
        .mount("/repos/test", memory())
        .mount("repos/test/", memory())
        .build()
        .is_err());
}

#[test]
fn mounting_root_is_rejected_at_build() {
    let err = builder().mount("/", memory()).build().err().unwrap();
    assert_eq!(kind(err), ErrorKind::ConfigInvalid);
    let err = builder().mount("", memory()).build().err().unwrap();
    assert_eq!(kind(err), ErrorKind::ConfigInvalid);
}

#[test]
fn the_first_fault_ends_the_build() {
    let unknown = || OpenDALConfig::from_iter("no-such-service", vec![]);
    let err = builder()
        .mount("/a", unknown())
        .mount("/", memory())
        .build()
        .err()
        .unwrap();
    assert!(matches!(err, VfsError::Backend(_)));
    let err = builder()
        .mount("/", memory())
        .mount("/a", unknown())
        .build()
        .err()
        .unwrap();
    assert!(matches!(err, VfsError::Raised(_)));
    let err = builder()
        .mount("/a", memory())
        .mount("/a", unknown())
        .build()
        .err()
        .unwrap();
    assert!(matches!(err, VfsError::Backend(_)));
}

#[test]
fn the_longest_mount_wins() {
    let access = builder()
        .mount("/a", memory())
        .mount("/a/b", memory())
        .mount("/a/bc", memory())
        .build()
        .unwrap();
    for (path, mount, rel) in [
        ("/a", "/a", ""),
        ("/a/", "/a", ""),
        ("/a/x", "/a", "x"),
        ("/a/b", "/a/b", ""),
        ("a/b/x/", "/a/b", "x/"),
        ("/a/bc/y", "/a/bc", "y"),
        ("/a/bcd", "/a", "bcd"),
        ("/a/b//x", "/a/b", "x"),
    ] {
        let target = access.resolve(path).unwrap();
        assert_eq!(mount_path(&access, &target), mount, "{path}");
        assert_eq!(target.path, rel, "{path}");
    }
    assert!(access.resolve("/").is_none());
    assert!(access.resolve("/b").is_none());
}

#[test]
fn an_empty_file_system_has_a_root() {
    let access = builder().build().unwrap();
    assert_eq!(access.virtual_children("/"), Some(vec![]));
    assert_eq!(list(&access, "/").unwrap(), Vec::<String>::new());
    assert!(is_dir(&access, "").unwrap());
    assert_eq!(access.virtual_children("/a"), None);
}

#[test]
fn paths_have_a_normal_form() {
    for (path, normal) in [
        ("", "/"),
        ("/", "/"),
        ("///", "/"),
        ("repos/test", "/repos/test"),
        ("/repos/test/", "/repos/test"),
        ("//repos//test//", "/repos//test"),
    ] {
        assert_eq!(normalize(path), normal);
        assert_eq!(normalize(&normalize(path)), normal);
    }
}

#[test]
fn paths_are_made_relative_and_rebased() {
    assert!(is_owner("/repos/test", "/repos/test"));
    assert!(is_owner("/repos/test", "/repos/test/x"));
    assert!(!is_owner("/repos/test", "/repos/tests"));
    assert_eq!(relative_to("/repos/test", "/repos/test/abc/"), "abc/");
    assert_eq!(relative_to("/repos/test", "/repos/test/"), "");
    assert_eq!(rebase("/repos/test", "a.txt"), "/repos/test/a.txt");
    assert_eq!(rebase("/repos/test/", "/dir/"), "/repos/test/dir/");
    for entry in ["", "a", "a/b", "dir/"] {
        assert_eq!(relative_to("/m", &rebase("/m", entry)), entry);
    }
}

#[test]
fn directories_name_what_lies_under_them() {
    assert_eq!(name_under("/repos/test", "/"), Some("repos".to_string()));
    assert_eq!(name_under("/repos/test", "/repos"), Some("test".to_string()));
    assert_eq!(name_under("/repos/test", "/repos/test"), None);
    assert_eq!(name_under("/repos/test", "/rep"), None);
    assert_eq!(entry_path("/", "repos"), "repos/");
    assert_eq!(entry_path("/repos/", "test"), "repos/test/");
}

#[test]
fn a_listing_hands_errors_on() {
    let mut lister = MountLister::Real {
        target: Target {
            mount: 0,
            path: String::new(),
        },
        mount_path: "/m".to_string(),
    };
    let error = opendal::Error::new(opendal::ErrorKind::Unexpected, "broken");
    assert!(lister.next(Some(Err(VfsError::Backend(error)))).is_err());
    assert_eq!(lister.next(Some(Ok("/x".to_string()))).unwrap(), Some("/m/x".to_string()));
    assert_eq!(lister.next(None).unwrap(), None);
}

#[test]
fn what_is_offered_and_what_is_not() {
    for op in [
        Operation::CreateDir,
        Operation::Stat,
        Operation::Read,
        Operation::Write,
        Operation::Delete,
        Operation::List,
    ] {
        assert!(MountAccess::supports(op));
    }
    assert!(!MountAccess::supports(Operation::Rename));
    assert!(!MountAccess::supports(Operation::Copy));
    let access = builder().mount("/m", memory()).build().unwrap();
    assert_eq!(kind(access.transfer("/m/a", "/m/b")), ErrorKind::Unsupported);
    assert_eq!(kind(access.transfer("/m/a", "/n")), ErrorKind::NotFound);
    let access = builder()
        .mount("/repos/test", memory())
        .mount("/kept", memory())
        .read_only()
        .build()
        .unwrap();
    for (from, to, expected) in [
        ("/repos", "/repos/test/a", ErrorKind::Unsupported),
        ("/repos/test/a", "/repos", ErrorKind::Unsupported),
        ("/repos/test/a", "/", ErrorKind::Unsupported),
        ("/repos", "/elsewhere", ErrorKind::NotFound),
        ("/elsewhere", "/kept/a", ErrorKind::NotFound),
        ("/repos", "/kept/a", ErrorKind::PermissionDenied),
        ("/kept/a", "/repos/test/a", ErrorKind::PermissionDenied),
    ] {
        assert_eq!(kind(access.transfer(from, to)), expected, "{from} to {to}");
    }
}

#[test]
fn the_read_only_layer_rejects_writes_and_deletes() {
    let failure = ReadOnlyLayer::check(Operation::Write).unwrap_err();
    assert_eq!(failure.kind, ErrorKind::PermissionDenied);
    assert_eq!(failure.message, "read-only mount point");
    assert_eq!(
        failure.context,
        vec![("layer".to_string(), "ReadonlyLayer".to_string())]
    );
    assert!(ReadOnlyLayer::check(Operation::Delete).is_err());
    assert!(ReadOnlyLayer::check(Operation::Read).is_ok());
    assert!(ReadOnlyLayer::check(Operation::List).is_ok());
}

#[test]
fn a_builder_changes_the_mount_that_was_added_last() {
    let built = builder()
        .read_only()
        .quota("none", 1)
        .mount("a", memory())
        .mount("b/", memory())
        .read_only()
        .quota("q", 2);
    let mounts = built.config.mounts;
    assert_eq!(mounts.len(), 2);
    assert_eq!(mounts[0].path, "/a");
    assert!(!mounts[0].read_only);
    assert!(matches!(mounts[0].quota, VfsQuota::Disabled));
    assert_eq!(mounts[1].path, "/b");
    assert!(mounts[1].read_only);
    match &mounts[1].quota {
        VfsQuota::Enabled { id, bytes } => assert_eq!((id.as_str(), *bytes), ("q", 2)),
        VfsQuota::Disabled => panic!("the mount has a quota"),
    }
}

fn configured(paths: &[&str]) -> VfsBuilder {
    VfsBuilder::from_config(VfsConfig {
        mounts: paths
            .iter()
            .map(|path| MountEntry {
                path: path.to_string(),
                config: memory(),
                read_only: true,
                quota: VfsQuota::default(),
            })
            .collect(),
    })
}

#[test]
fn the_mounts_of_a_config_are_made_at_normal_paths() {
    let access = configured(&["kept/", "//repos/test"]).build().unwrap();
    assert_eq!(access.mounts.key_texts(), vec!["/kept", "/repos/test"]);
    assert!(access.mounts.value_at(0).read_only);
    assert_eq!(access.resolve("/kept/a").unwrap().path, "a");
    assert_eq!(list(&access, "/repos").unwrap(), vec!["repos/test/"]);
}

#[test]
fn a_config_with_the_root_is_rejected_at_build() {
    for path in ["/", "//", "///", ""] {
        let err = configured(&["/a", path]).build().err().unwrap();
        match err {
            VfsError::Raised(failure) => {
                assert_eq!(failure.kind, ErrorKind::ConfigInvalid);
                assert_eq!(failure.message, "cannot mount at the virtual root '/'");
            }
            VfsError::Backend(e) => panic!("{e}"),
        }
    }
}

#[test]
fn a_config_with_one_path_twice_is_rejected_at_build() {
    for path in ["/a", "a", "/a/", "//a//"] {
        let err = configured(&["/a", "/b", path]).build().err().unwrap();
        match err {
            VfsError::Raised(failure) => {
                assert_eq!(failure.kind, ErrorKind::ConfigInvalid);
                assert_eq!(failure.message, "duplicate mount path");
                assert_eq!(
                    failure.context,
                    vec![("path".to_string(), "/a".to_string())]
                );
            }
            VfsError::Backend(e) => panic!("{e}"),
        }
    }
}

#[test]
fn mounts_are_made_at_normal_paths() {
    let access = builder()
        .mount("//repos/test//", memory())
        .read_only()
        .mount("scratch", memory())
        .build()
        .unwrap();
    assert_eq!(access.mounts.key_texts(), vec!["/repos/test", "/scratch"]);
    assert_eq!(
        kind(access.delete("repos/test/a").unwrap_err()),
        ErrorKind::PermissionDenied
    );
    assert_eq!(access.delete("/scratch/a").unwrap().path, "a");
}

#[test]
fn a_builder_can_be_copied() {
    let first = builder()
        .mount("/a", memory())
        .read_only()
        .quota("q", 5)
        .mount("/b", memory());
    let second = first.clone();
    assert_eq!(first.config, second.config);
    assert!(first.config != builder().mount("/a", memory()).config);
    assert_eq!(
        second.build().unwrap().mounts.key_texts(),
        vec!["/a", "/b"]
    );
}
