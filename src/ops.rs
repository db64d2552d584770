use vstd::prelude::*;

verus! {

/// A user and group that own a file.
#[derive(Clone, Copy, PartialEq, Eq, Debug)]
pub struct Identity {
    pub uid: u32,
    pub gid: u32,
}

/// One filesystem or namespace operation, for a driver to carry out in
/// order. Paths are byte strings.
#[derive(Clone, Debug, PartialEq, Eq)]
pub enum FsOp {
    /// Create an empty directory.
    MakeDir { path: Vec<u8> },
    /// Create an empty regular file.
    MakeFile { path: Vec<u8> },
    /// Create at `link` a symlink with the same target as the symlink at `source`.
    CopySymlink { source: Vec<u8>, link: Vec<u8> },
    /// Bind-mount `source` onto `target`, with its submounts where `recursive`.
    BindMount { source: Vec<u8>, target: Vec<u8>, recursive: bool },
    /// Remount the mount at `target` read-only.
    RemountReadOnly { target: Vec<u8> },
    /// Mount a process-information filesystem at `target`.
    MountProc { target: Vec<u8> },
    /// Mount an in-memory filesystem, without set-user-id, with these options.
    MountTmpfs { target: Vec<u8>, options: Vec<u8> },
    /// Unmount the topmost mount at `target`. Where `tolerate_not_mounted`, a
    /// target that is no mount point is no failure.
    Unmount { target: Vec<u8>, tolerate_not_mounted: bool },
    /// Detach the mount at `target`: it goes once nothing uses it.
    DetachUnmount { target: Vec<u8> },
    /// Make the mount at `target` propagate no events.
    MakePrivate { target: Vec<u8> },
    /// Move the calling process into a mount namespace of its own.
    UnshareMountNamespace,
    /// Change the working directory.
    ChangeDir { path: Vec<u8> },
    /// Make the working directory the root of the calling process.
    ChangeRootToWorkingDir,
    /// Give `path` to an owner.
    Chown { path: Vec<u8>, owner: Identity },
    /// Set the permission bits of `path`.
    Chmod { path: Vec<u8>, mode: u32 },
    /// Remove a file.
    RemoveFile { path: Vec<u8> },
}

/// The mathematical form of an [`FsOp`].
pub enum OpView {
    MakeDir { path: Seq<u8> },
    MakeFile { path: Seq<u8> },
    CopySymlink { source: Seq<u8>, link: Seq<u8> },
    BindMount { source: Seq<u8>, target: Seq<u8>, recursive: bool },
    RemountReadOnly { target: Seq<u8> },
    MountProc { target: Seq<u8> },
    MountTmpfs { target: Seq<u8>, options: Seq<u8> },
    Unmount { target: Seq<u8>, tolerate_not_mounted: bool },
    DetachUnmount { target: Seq<u8> },
    MakePrivate { target: Seq<u8> },
    UnshareMountNamespace,
    ChangeDir { path: Seq<u8> },
    ChangeRootToWorkingDir,
    Chown { path: Seq<u8>, owner: Identity },
    Chmod { path: Seq<u8>, mode: u32 },
    RemoveFile { path: Seq<u8> },
}

impl View for FsOp {
    type V = OpView;

    open spec fn view(&self) -> OpView {
        match self {
            FsOp::MakeDir { path } => OpView::MakeDir { path: path@ },
            FsOp::MakeFile { path } => OpView::MakeFile { path: path@ },
            FsOp::CopySymlink { source, link } => OpView::CopySymlink {
                source: source@,
                link: link@,
            },
            FsOp::BindMount { source, target, recursive } => OpView::BindMount {
                source: source@,
                target: target@,
                recursive: *recursive,
            },
            FsOp::RemountReadOnly { target } => OpView::RemountReadOnly { target: target@ },
            FsOp::MountProc { target } => OpView::MountProc { target: target@ },
            FsOp::MountTmpfs { target, options } => OpView::MountTmpfs {
                target: target@,
                options: options@,
            },
            FsOp::Unmount { target, tolerate_not_mounted } => OpView::Unmount {
                target: target@,
                tolerate_not_mounted: *tolerate_not_mounted,
            },
            FsOp::DetachUnmount { target } => OpView::DetachUnmount { target: target@ },
            FsOp::MakePrivate { target } => OpView::MakePrivate { target: target@ },
            FsOp::UnshareMountNamespace => OpView::UnshareMountNamespace,
            FsOp::ChangeDir { path } => OpView::ChangeDir { path: path@ },
            FsOp::ChangeRootToWorkingDir => OpView::ChangeRootToWorkingDir,
            FsOp::Chown { path, owner } => OpView::Chown { path: path@, owner: *owner },
            FsOp::Chmod { path, mode } => OpView::Chmod { path: path@, mode: *mode },
            FsOp::RemoveFile { path } => OpView::RemoveFile { path: path@ },
        }
    }
}

pub open spec fn op_views(ops: Seq<FsOp>) -> Seq<OpView> {
    ops.map_values(|o: FsOp| o@)
}

/// Number of times `p` occurs in `s`.
pub open spec fn count(s: Seq<Seq<u8>>, p: Seq<u8>) -> nat
    decreases s.len(),
{
    if s.len() == 0 {
        0
    } else {
        count(s.drop_last(), p) + if s.last() == p {
            1nat
        } else {
            0nat
        }
    }
}

/// `s` without its last occurrence of `p`, or unchanged where `p` does not occur.
pub open spec fn remove_last(s: Seq<Seq<u8>>, p: Seq<u8>) -> Seq<Seq<u8>>
    decreases s.len(),
{
    if s.len() == 0 {
        s
    } else if s.last() == p {
        s.drop_last()
    } else {
        remove_last(s.drop_last(), p).push(s.last())
    }
}

/// The mount table, as a list of mount targets in table order, after one
/// operation: a mount adds its target last, an unmount removes the topmost
/// mount at its target; other operations leave the table as it is.
pub open spec fn apply_op(table: Seq<Seq<u8>>, op: OpView) -> Seq<Seq<u8>> {
    match op {
        OpView::BindMount { target, .. } => table.push(target),
        OpView::MountProc { target } => table.push(target),
        OpView::MountTmpfs { target, .. } => table.push(target),
        OpView::Unmount { target, .. } => remove_last(table, target),
        OpView::DetachUnmount { target } => remove_last(table, target),
        _ => table,
    }
}

/// The mount table after a sequence of operations.
pub open spec fn apply_ops(table: Seq<Seq<u8>>, ops: Seq<OpView>) -> Seq<Seq<u8>>
    decreases ops.len(),
{
    if ops.len() == 0 {
        table
    } else {
        apply_op(apply_ops(table, ops.drop_last()), ops.last())
    }
}

/// Whether two byte strings are equal.
pub fn bytes_eq(a: &Vec<u8>, b: &Vec<u8>) -> (r: bool)
    ensures
        r == (a@ == b@),
{
    if a.len() != b.len() {
        return false;
    }
    let mut i: usize = 0;
    while i < a.len()
        invariant
            a@.len() == b@.len(),
            i <= a@.len(),
            a@.take(i as int) == b@.take(i as int),
        decreases a@.len() - i,
    {
        if a[i] != b[i] {
            assert(a@.take(i + 1)[i as int] != b@.take(i + 1)[i as int]);
            assert(a@ != b@) by {
                assert(a@[i as int] != b@[i as int]);
            }
            return false;
        }
        assert(a@.take(i + 1) =~= b@.take(i + 1)) by {
            assert(a@.take(i + 1) =~= a@.take(i as int).push(a@[i as int]));
            assert(b@.take(i + 1) =~= b@.take(i as int).push(b@[i as int]));
        }
        i = i + 1;
    }
    assert(a@ =~= a@.take(i as int));
    assert(b@ =~= b@.take(i as int));
    true
}

/// Whether `s` begins with `prefix`.
pub fn has_prefix(s: &Vec<u8>, prefix: &Vec<u8>) -> (r: bool)
    ensures
        r == (prefix@.len() <= s@.len() && s@.take(prefix@.len() as int) == prefix@),
{
    if prefix.len() > s.len() {
        return false;
    }
    let mut i: usize = 0;
    while i < prefix.len()
        invariant
            prefix@.len() <= s@.len(),
            i <= prefix@.len(),
            s@.take(i as int) == prefix@.take(i as int),
        decreases prefix@.len() - i,
    {
        if s[i] != prefix[i] {
            assert(s@.take(prefix@.len() as int)[i as int] != prefix@[i as int]);
            return false;
        }
        assert(s@.take(i + 1) =~= prefix@.take(i + 1)) by {
            assert(s@.take(i + 1) =~= s@.take(i as int).push(s@[i as int]));
            assert(prefix@.take(i + 1) =~= prefix@.take(i as int).push(prefix@[i as int]));
        }
        i = i + 1;
    }
    assert(prefix@ =~= prefix@.take(i as int));
    true
}

/// A copy of a byte string.
pub fn copy_bytes(a: &Vec<u8>) -> (r: Vec<u8>)
    ensures
        r@ == a@,
{
    let mut r: Vec<u8> = Vec::new();
    let mut i: usize = 0;
    while i < a.len()
        invariant
            i <= a@.len(),
            r@ == a@.take(i as int),
        decreases a@.len() - i,
    {
        r.push(a[i]);
        assert(r@ =~= a@.take(i + 1));
        i = i + 1;
    }
    assert(a@ =~= a@.take(i as int));
    r
}

} // verus!
