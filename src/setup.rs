use vstd::prelude::*;

use crate::layout::{
    dev_dir, dev_path, host_dev, host_dev_path, name_dev, name_proc, name_space, name_sys,
    name_tmp, new_root, new_root_path, old_root, old_root_path, proc_dir, proc_path, space_dir,
    space_path, tmp_dir, tmp_path,
};
use crate::ops::{bytes_eq, copy_bytes, op_views, FsOp, OpView};
use crate::path::{append_name, child_of};

verus! {

/// What a top-level entry of the source image is.
#[derive(Clone, Copy, PartialEq, Eq, Structural, Debug)]
pub enum EntryKind {
    Symlink,
    Directory,
    Other,
}

/// A top-level entry of the source image: its name, its full path, its kind.
#[derive(Clone, Debug)]
pub struct SourceEntry {
    pub name: Vec<u8>,
    pub source: Vec<u8>,
    pub kind: EntryKind,
}

pub struct SourceEntryView {
    pub name: Seq<u8>,
    pub source: Seq<u8>,
    pub kind: EntryKind,
}

impl View for SourceEntry {
    type V = SourceEntryView;

    open spec fn view(&self) -> SourceEntryView {
        SourceEntryView { name: self.name@, source: self.source@, kind: self.kind }
    }
}

/// Entries of the image that are not taken over: the ephemeral storage,
/// device, process-information and temp directories, which the root gets
/// fresh, and the kernel's system information, which is never exposed.
pub open spec fn reserved(name: Seq<u8>) -> bool {
    name == name_space() || name == name_dev() || name == name_proc() || name == name_tmp()
        || name == name_sys()
}

/// How one entry of the image enters the root: a symlink is recreated as it
/// is; anything else gets an empty placeholder of its kind, with the entry
/// bind-mounted onto it and then remounted read-only.
pub open spec fn entry_ops(e: SourceEntryView) -> Seq<OpView> {
    let target = child_of(new_root(), e.name);
    if reserved(e.name) {
        seq![]
    } else {
        match e.kind {
            EntryKind::Symlink => seq![OpView::CopySymlink { source: e.source, link: target }],
            EntryKind::Directory => seq![
                OpView::MakeDir { path: target },
                OpView::BindMount { source: e.source, target, recursive: false },
                OpView::RemountReadOnly { target },
            ],
            EntryKind::Other => seq![
                OpView::MakeFile { path: target },
                OpView::BindMount { source: e.source, target, recursive: false },
                OpView::RemountReadOnly { target },
            ],
        }
    }
}

pub open spec fn entries_ops(es: Seq<SourceEntryView>) -> Seq<OpView>
    decreases es.len(),
{
    if es.len() == 0 {
        seq![]
    } else {
        entries_ops(es.drop_last()) + entry_ops(es.last())
    }
}

/// The reserved directories as empty placeholders, and the host's devices
/// bound in recursively and made read-only. Storage and temp stay unmounted
/// until a reset.
pub open spec fn skeleton_ops() -> Seq<OpView> {
    seq![
        OpView::MakeDir { path: space_dir() },
        OpView::MakeDir { path: dev_dir() },
        OpView::MakeDir { path: proc_dir() },
        OpView::MakeDir { path: tmp_dir() },
        OpView::BindMount { source: host_dev(), target: dev_dir(), recursive: true },
        OpView::RemountReadOnly { target: dev_dir() },
    ]
}

pub open spec fn entry_views(es: Seq<SourceEntry>) -> Seq<SourceEntryView> {
    es.map_values(|e: SourceEntry| e@)
}

fn is_reserved(name: &Vec<u8>) -> (r: bool)
    ensures
        r == reserved(name@),
{
    let space = vec![115u8, 112, 97, 99, 101];
    let dev = vec![100u8, 101, 118];
    let proc = vec![112u8, 114, 111, 99];
    let tmp = vec![116u8, 109, 112];
    let sys = vec![115u8, 121, 115];
    assert(space@ =~= name_space());
    assert(dev@ =~= name_dev());
    assert(proc@ =~= name_proc());
    assert(tmp@ =~= name_tmp());
    assert(sys@ =~= name_sys());
    bytes_eq(name, &space) || bytes_eq(name, &dev) || bytes_eq(name, &proc) || bytes_eq(name, &tmp)
        || bytes_eq(name, &sys)
}

fn push_entry(ops: &mut Vec<FsOp>, e: &SourceEntry)
    ensures
        op_views(final(ops)@) == op_views(old(ops)@) + entry_ops(e@),
{
    if is_reserved(&e.name) {
        assert(op_views(ops@) =~= op_views(old(ops)@) + entry_ops(e@));
        return;
    }
    let mut target = new_root_path();
    append_name(&mut target, &e.name);
    match e.kind {
        EntryKind::Symlink => {
            ops.push(FsOp::CopySymlink { source: copy_bytes(&e.source), link: target });
        },
        EntryKind::Directory => {
            ops.push(FsOp::MakeDir { path: copy_bytes(&target) });
            ops.push(
                FsOp::BindMount {
                    source: copy_bytes(&e.source),
                    target: copy_bytes(&target),
                    recursive: false,
                },
            );
            ops.push(FsOp::RemountReadOnly { target });
        },
        EntryKind::Other => {
            ops.push(FsOp::MakeFile { path: copy_bytes(&target) });
            ops.push(
                FsOp::BindMount {
                    source: copy_bytes(&e.source),
                    target: copy_bytes(&target),
                    recursive: false,
                },
            );
            ops.push(FsOp::RemountReadOnly { target });
        },
    }
    assert(op_views(ops@) =~= op_views(old(ops)@) + entry_ops(e@));
}

/// The operations that build the confined root at `/newroot` from the
/// top-level entries of a source image (after `/newroot` itself exists).
pub fn create_rootfs(entries: &Vec<SourceEntry>) -> (ops: Vec<FsOp>)
    ensures
        op_views(ops@) == entries_ops(entry_views(entries@)) + skeleton_ops(),
{
    let mut ops: Vec<FsOp> = Vec::new();
    let mut i: usize = 0;
    while i < entries.len()
        invariant
            i <= entries@.len(),
            op_views(ops@) == entries_ops(entry_views(entries@).take(i as int)),
        decreases entries@.len() - i,
    {
        let ghost taken = entry_views(entries@).take(i + 1);
        assert(taken.drop_last() =~= entry_views(entries@).take(i as int));
        push_entry(&mut ops, &entries[i]);
        i = i + 1;
    }
    assert(entry_views(entries@).take(i as int) =~= entry_views(entries@));
    let ghost before = op_views(ops@);
    ops.push(FsOp::MakeDir { path: space_path() });
    ops.push(FsOp::MakeDir { path: dev_path() });
    ops.push(FsOp::MakeDir { path: proc_path() });
    ops.push(FsOp::MakeDir { path: tmp_path() });
    ops.push(FsOp::BindMount { source: host_dev_path(), target: dev_path(), recursive: true });
    ops.push(FsOp::RemountReadOnly { target: dev_path() });
    assert(op_views(ops@) =~= before + skeleton_ops());
    ops
}

/// Where the namespace protocol stands.
#[derive(Clone, Copy, PartialEq, Eq, Structural, Debug)]
pub enum NamespacePhase {
    Unconfigured,
    Configured,
    Entered,
}

/// A phase of the namespace protocol asked for out of order.
#[derive(Clone, Copy, PartialEq, Eq, Structural, Debug)]
pub struct PhaseError {
    pub expected: NamespacePhase,
    pub found: NamespacePhase,
}

/// Run inside the new process-id namespace: mount process information at
/// the root's `proc`, take a mount namespace of its own, stop the old root's
/// propagation, and detach it.
pub open spec fn configure_ops() -> Seq<OpView> {
    seq![
        OpView::MountProc { target: proc_dir() },
        OpView::UnshareMountNamespace,
        OpView::MakePrivate { target: old_root() },
        OpView::DetachUnmount { target: old_root() },
    ]
}

/// Run by the controlling process: take a mount namespace of its own, move
/// into the root, make it the process's root.
pub open spec fn enter_ops() -> Seq<OpView> {
    seq![
        OpView::UnshareMountNamespace,
        OpView::ChangeDir { path: new_root() },
        OpView::ChangeRootToWorkingDir,
    ]
}

/// The first phase of entering the root: from `Unconfigured` to `Configured`.
pub fn configure_rootfs(phase: &mut NamespacePhase) -> (r: Result<Vec<FsOp>, PhaseError>)
    ensures
        match r {
            Ok(ops) => *old(phase) == NamespacePhase::Unconfigured && *final(phase)
                == NamespacePhase::Configured && op_views(ops@) == configure_ops(),
            Err(e) => *old(phase) != NamespacePhase::Unconfigured && *final(phase) == *old(phase)
                && e == (PhaseError { expected: NamespacePhase::Unconfigured, found: *old(phase) }),
        },
{
    if *phase != NamespacePhase::Unconfigured {
        return Err(PhaseError { expected: NamespacePhase::Unconfigured, found: *phase });
    }
    let mut ops: Vec<FsOp> = Vec::new();
    ops.push(FsOp::MountProc { target: proc_path() });
    ops.push(FsOp::UnshareMountNamespace);
    ops.push(FsOp::MakePrivate { target: old_root_path() });
    ops.push(FsOp::DetachUnmount { target: old_root_path() });
    assert(op_views(ops@) =~= configure_ops());
    *phase = NamespacePhase::Configured;
    Ok(ops)
}

/// The second phase of entering the root: from `Configured` to `Entered`.
/// The working directory moves into the root before the root changes, so that
/// it never stays outside.
pub fn enter_rootfs(phase: &mut NamespacePhase) -> (r: Result<Vec<FsOp>, PhaseError>)
    ensures
        match r {
            Ok(ops) => *old(phase) == NamespacePhase::Configured && *final(phase)
                == NamespacePhase::Entered && op_views(ops@) == enter_ops(),
            Err(e) => *old(phase) != NamespacePhase::Configured && *final(phase) == *old(phase)
                && e == (PhaseError { expected: NamespacePhase::Configured, found: *old(phase) }),
        },
{
    if *phase != NamespacePhase::Configured {
        return Err(PhaseError { expected: NamespacePhase::Configured, found: *phase });
    }
    let mut ops: Vec<FsOp> = Vec::new();
    ops.push(FsOp::UnshareMountNamespace);
    ops.push(FsOp::ChangeDir { path: new_root_path() });
    ops.push(FsOp::ChangeRootToWorkingDir);
    assert(op_views(ops@) =~= enter_ops());
    *phase = NamespacePhase::Entered;
    Ok(ops)
}

} // verus!
