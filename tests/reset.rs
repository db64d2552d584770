use sandbox_rootfs::numbers::is_u64_numeral_text;
use sandbox_rootfs::{
    reclaim_terminals, reset, tmpfs_options_text, DiskQuotas, FsOp, Identity, RootfsState,
};

const USER: Identity = Identity { uid: 2, gid: 2 };
const ADMIN: Identity = Identity { uid: 1, gid: 1 };

fn b(s: &str) -> Vec<u8> {
    s.as_bytes().to_vec()
}

fn list(items: &[&str]) -> Vec<Vec<u8>> {
    items.iter().map(|s| b(s)).collect()
}

/// Applies the mount effects of `ops` to a table of mount targets.
fn apply(table: &mut Vec<Vec<u8>>, ops: &[FsOp]) {
    for op in ops {
        match op {
            FsOp::BindMount { target, .. }
            | FsOp::MountProc { target }
            | FsOp::MountTmpfs { target, .. } => table.push(target.clone()),
            FsOp::Unmount { target, tolerate_not_mounted } => {
                match table.iter().rposition(|t| t == target) {
                    Some(i) => {
                        table.remove(i);
                    }
                    None => assert!(*tolerate_not_mounted, "unmounting what is not mounted"),
                }
            }
            FsOp::DetachUnmount { target } => {
                let i = table.iter().rposition(|t| t == target).unwrap();
                table.remove(i);
            }
            _ => {}
        }
    }
}

fn sorted(mut v: Vec<Vec<u8>>) -> Vec<Vec<u8>> {
    v.sort();
    v
}

fn baseline() -> Vec<Vec<u8>> {
    list(&[
        "/newroot/bin",
        "/newroot/bin",
        "/newroot/lib",
        "/newroot/dev",
        "/newroot/dev",
        "/newroot/dev/shm",
        "/newroot/dev/pts",
        "/newroot/dev/mqueue",
    ])
}

fn quotas() -> DiskQuotas {
    DiskQuotas { space: 104857600, max_inodes: 1000 }
}

fn unmounts(ops: &[FsOp]) -> Vec<Vec<u8>> {
    ops.iter()
        .filter_map(|op| match op {
            FsOp::Unmount { target, tolerate_not_mounted: false } => Some(target.clone()),
            _ => None,
        })
        .collect()
}

#[test]
fn baseline_counts_multiplicity() {
    let state = RootfsState::from_mounts(baseline());
    assert_eq!(state.multiplicity_of(&b("/newroot/bin")), 2);
    assert_eq!(state.multiplicity_of(&b("/newroot/lib")), 1);
    assert_eq!(state.multiplicity_of(&b("/newroot/space")), 0);
}

#[test]
fn first_reset_after_setup_unmounts_nothing() {
    let state = RootfsState::from_mounts(baseline());
    let ops = reset(&state, &quotas(), USER, ADMIN, &baseline());
    assert!(unmounts(&ops).is_empty());
    let mut table = baseline();
    apply(&mut table, &ops);
    let mut expected = baseline();
    expected.push(b("/newroot/space"));
    expected.push(b("/newroot/tmp"));
    assert_eq!(sorted(table), sorted(expected));
}

#[test]
fn reset_mounts_sized_storage_owned_by_internal_user() {
    let state = RootfsState::from_mounts(baseline());
    let ops = reset(&state, &quotas(), USER, ADMIN, &baseline());
    assert_eq!(
        ops[0],
        FsOp::MountTmpfs {
            target: b("/newroot/space"),
            options: b("size=104857600,nr_inodes=1000"),
        }
    );
    assert_eq!(ops[1], FsOp::Chown { path: b("/newroot/space"), owner: USER });
    assert_eq!(
        ops[2..7].to_vec(),
        vec![
            FsOp::MakeDir { path: b("/newroot/space/.shm") },
            FsOp::Chown { path: b("/newroot/space/.shm"), owner: ADMIN },
            FsOp::Chmod { path: b("/newroot/space/.shm"), mode: 0o1777 },
            FsOp::Unmount { target: b("/newroot/dev/shm"), tolerate_not_mounted: true },
            FsOp::BindMount {
                source: b("/newroot/space/.shm"),
                target: b("/newroot/dev/shm"),
                recursive: false,
            },
        ]
    );
    assert_eq!(
        ops[7..12].to_vec(),
        vec![
            FsOp::MakeDir { path: b("/newroot/space/.tmp") },
            FsOp::Chown { path: b("/newroot/space/.tmp"), owner: ADMIN },
            FsOp::Chmod { path: b("/newroot/space/.tmp"), mode: 0o1777 },
            FsOp::Unmount { target: b("/newroot/tmp"), tolerate_not_mounted: true },
            FsOp::BindMount {
                source: b("/newroot/space/.tmp"),
                target: b("/newroot/tmp"),
                recursive: false,
            },
        ]
    );
    assert_eq!(ops.len(), 12);
}

#[test]
fn residue_is_unmounted_children_first() {
    let state = RootfsState::from_mounts(baseline());
    let mut current = baseline();
    current.extend(list(&[
        "/newroot/space",
        "/newroot/space/a",
        "/newroot/bin",
        "/newroot/space/a/b",
        "/newroot/proc",
        "/newroot/proc/sys/fs/binfmt_misc",
        "/newroot/dev/mqueue",
    ]));
    let ops = reset(&state, &quotas(), USER, ADMIN, &current);
    assert_eq!(
        unmounts(&ops),
        list(&["/newroot/space/a/b", "/newroot/bin", "/newroot/space/a", "/newroot/space"])
    );
}

#[test]
fn reset_never_goes_below_baseline() {
    let state = RootfsState::from_mounts(baseline());
    let mut current = baseline();
    current.extend(list(&["/newroot/lib", "/newroot/lib", "/newroot/x"]));
    let ops = reset(&state, &quotas(), USER, ADMIN, &current);
    let removed = unmounts(&ops);
    assert_eq!(removed, list(&["/newroot/x", "/newroot/lib", "/newroot/lib"]));
    let mut table = current.clone();
    apply(&mut table, &ops);
    for p in baseline() {
        let kept = table.iter().filter(|t| **t == p).count();
        assert!(kept >= state.multiplicity_of(&p));
    }
}

#[test]
fn reset_twice_gives_the_same_mounts() {
    let state = RootfsState::from_mounts(baseline());
    let mut current = baseline();
    current.extend(list(&["/newroot/space", "/newroot/tmp", "/newroot/dev/shm", "/newroot/proc"]));
    let mut t1 = current.clone();
    apply(&mut t1, &reset(&state, &quotas(), USER, ADMIN, &current));
    let mut t2 = t1.clone();
    apply(&mut t2, &reset(&state, &quotas(), USER, ADMIN, &t1));
    assert_eq!(sorted(t1), sorted(t2));
}

#[test]
fn tmpfs_options_exact_text() {
    let q = DiskQuotas { space: 0, max_inodes: 18446744073709551615 };
    assert_eq!(tmpfs_options_text(&q), b("size=0,nr_inodes=18446744073709551615"));
    assert_eq!(tmpfs_options_text(&quotas()), b("size=104857600,nr_inodes=1000"));
}

#[test]
fn terminal_entries_with_numeric_names_are_removed() {
    let names = list(&["0", "1", "ptmx", "17", "+3", "-1", "", "+", "1a", "18446744073709551616"]);
    let ops = reclaim_terminals(&names);
    assert_eq!(
        ops,
        vec![
            FsOp::RemoveFile { path: b("/newroot/dev/pts/0") },
            FsOp::RemoveFile { path: b("/newroot/dev/pts/1") },
            FsOp::RemoveFile { path: b("/newroot/dev/pts/17") },
            FsOp::RemoveFile { path: b("/newroot/dev/pts/+3") },
        ]
    );
}

#[test]
fn u64_numerals() {
    assert!(is_u64_numeral_text(&b("18446744073709551615")));
    assert!(is_u64_numeral_text(&b("0018446744073709551615")));
    assert!(!is_u64_numeral_text(&b("18446744073709551616")));
    assert!(!is_u64_numeral_text(&b("99999999999999999999")));
    assert!(is_u64_numeral_text(&b("+0")));
    assert!(!is_u64_numeral_text(&b("++1")));
    assert!(!is_u64_numeral_text(&b(" 1")));
}

#[test]
fn mounts_are_told_apart_by_target_and_count_only() {
    // The baseline mount at /newroot/lib is gone and a run mounted something
    // else there: with the count matching, the run's mount is kept as if it
    // were the baseline one.
    let state = RootfsState::from_mounts(list(&["/newroot/lib"]));
    let current = list(&["/newroot/lib"]);
    let ops = reset(&state, &quotas(), USER, ADMIN, &current);
    assert!(unmounts(&ops).is_empty());
}
