use sandbox_rootfs::{
    configure_rootfs, create_rootfs, enter_rootfs, list_child_mounts, EntryKind, FsOp,
    MountTableError, NamespacePhase, PhaseError, SourceEntry,
};

fn b(s: &str) -> Vec<u8> {
    s.as_bytes().to_vec()
}

fn entry(name: &str, kind: EntryKind) -> SourceEntry {
    SourceEntry { name: b(name), source: b(&format!("/image/{name}")), kind }
}

fn skeleton() -> Vec<FsOp> {
    vec![
        FsOp::MakeDir { path: b("/newroot/space") },
        FsOp::MakeDir { path: b("/newroot/dev") },
        FsOp::MakeDir { path: b("/newroot/proc") },
        FsOp::MakeDir { path: b("/newroot/tmp") },
        FsOp::BindMount { source: b("/dev"), target: b("/newroot/dev"), recursive: true },
        FsOp::RemountReadOnly { target: b("/newroot/dev") },
    ]
}

#[test]
fn image_with_dirs_symlink_and_sys() {
    let entries = vec![
        entry("bin", EntryKind::Directory),
        entry("lib", EntryKind::Directory),
        entry("init", EntryKind::Symlink),
        entry("sys", EntryKind::Directory),
    ];
    let ops = create_rootfs(&entries);
    let mut expected = vec![
        FsOp::MakeDir { path: b("/newroot/bin") },
        FsOp::BindMount { source: b("/image/bin"), target: b("/newroot/bin"), recursive: false },
        FsOp::RemountReadOnly { target: b("/newroot/bin") },
        FsOp::MakeDir { path: b("/newroot/lib") },
        FsOp::BindMount { source: b("/image/lib"), target: b("/newroot/lib"), recursive: false },
        FsOp::RemountReadOnly { target: b("/newroot/lib") },
        FsOp::CopySymlink { source: b("/image/init"), link: b("/newroot/init") },
    ];
    expected.extend(skeleton());
    assert_eq!(ops, expected);
    assert!(!ops.iter().any(|op| format!("{op:?}").contains("sys")));
}

#[test]
fn reserved_entries_are_skipped_and_files_get_placeholders() {
    let entries = vec![
        entry("space", EntryKind::Directory),
        entry("dev", EntryKind::Directory),
        entry("proc", EntryKind::Directory),
        entry("tmp", EntryKind::Directory),
        entry("etc.conf", EntryKind::Other),
    ];
    let ops = create_rootfs(&entries);
    let mut expected = vec![
        FsOp::MakeFile { path: b("/newroot/etc.conf") },
        FsOp::BindMount {
            source: b("/image/etc.conf"),
            target: b("/newroot/etc.conf"),
            recursive: false,
        },
        FsOp::RemountReadOnly { target: b("/newroot/etc.conf") },
    ];
    expected.extend(skeleton());
    assert_eq!(ops, expected);
}

#[test]
fn empty_image_gets_only_the_skeleton() {
    assert_eq!(create_rootfs(&Vec::new()), skeleton());
}

#[test]
fn configure_then_enter() {
    let mut phase = NamespacePhase::Unconfigured;
    let ops = configure_rootfs(&mut phase).unwrap();
    assert_eq!(
        ops,
        vec![
            FsOp::MountProc { target: b("/newroot/proc") },
            FsOp::UnshareMountNamespace,
            FsOp::MakePrivate { target: b("/oldroot") },
            FsOp::DetachUnmount { target: b("/oldroot") },
        ]
    );
    assert_eq!(phase, NamespacePhase::Configured);
    let ops = enter_rootfs(&mut phase).unwrap();
    assert_eq!(
        ops,
        vec![
            FsOp::UnshareMountNamespace,
            FsOp::ChangeDir { path: b("/newroot") },
            FsOp::ChangeRootToWorkingDir,
        ]
    );
    assert_eq!(phase, NamespacePhase::Entered);
}

#[test]
fn phases_out_of_order_are_refused() {
    let mut phase = NamespacePhase::Unconfigured;
    assert_eq!(
        enter_rootfs(&mut phase),
        Err(PhaseError { expected: NamespacePhase::Configured, found: NamespacePhase::Unconfigured })
    );
    assert_eq!(phase, NamespacePhase::Unconfigured);
    configure_rootfs(&mut phase).unwrap();
    assert_eq!(
        configure_rootfs(&mut phase),
        Err(PhaseError { expected: NamespacePhase::Unconfigured, found: NamespacePhase::Configured })
    );
    enter_rootfs(&mut phase).unwrap();
    assert!(enter_rootfs(&mut phase).is_err());
    assert_eq!(phase, NamespacePhase::Entered);
}

#[test]
fn mount_listing_keeps_table_order_under_prefix() {
    let lines = vec![
        b("/dev/sda1 / ext4 rw 0 0"),
        b("none /newroot/bin ext4 ro 0 0"),
        b("none /newroot tmpfs rw 0 0"),
        b("devtmpfs /newroot/dev devtmpfs ro 0 0"),
        b("none /newroot/bin ext4 ro 0 0"),
        b("x /newrootx"),
    ];
    let got = list_child_mounts(&lines, &b("/newroot/")).unwrap();
    assert_eq!(got, vec![b("/newroot/bin"), b("/newroot/dev"), b("/newroot/bin")]);
}

#[test]
fn mount_line_without_target_is_fatal() {
    let lines = vec![b("a /newroot/x t"), b("garbage"), b("")];
    assert_eq!(list_child_mounts(&lines, &b("/newroot/")), Err(MountTableError { line: 1 }));
    let lines = vec![b("")];
    assert_eq!(list_child_mounts(&lines, &b("/")), Err(MountTableError { line: 0 }));
}

#[test]
fn mount_line_with_two_fields_or_empty_target() {
    let lines = vec![b("src /newroot/a"), b("src  rest")];
    assert_eq!(list_child_mounts(&lines, &b("/newroot/")).unwrap(), vec![b("/newroot/a")]);
    assert_eq!(list_child_mounts(&lines, &b("")).unwrap(), vec![b("/newroot/a"), b("")]);
}
