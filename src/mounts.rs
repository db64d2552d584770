use vstd::prelude::*;

use crate::layout::{
    mqueue_dir, mqueue_path, pts_dir, pts_path, proc_dir, proc_path, shm_backing, shm_backing_path, shm_dir, shm_path,
    space_dir, space_path, tmp_backing, tmp_backing_path, tmp_dir, tmp_path,
};
use crate::numbers::{decimal, is_u64_numeral, is_u64_numeral_text, push_decimal};
use crate::ops::{
    apply_op, apply_ops, bytes_eq, copy_bytes, count, has_prefix, op_views, remove_last, FsOp, Identity,
    OpView,
};
use crate::path::{append_name, child_of, SLASH};
use crate::DiskQuotas;

verus! {

/// The byte that separates the fields of a mount-table line.
pub const FIELD_SEP: u8 = 32;

/// Permission bits of the shared-memory and temp directories: sticky and
/// writable by everyone.
pub const STICKY_WORLD_WRITABLE: u32 = 0o1777;

pub open spec fn paths(s: Seq<Vec<u8>>) -> Seq<Seq<u8>> {
    s.map_values(|v: Vec<u8>| v@)
}

/// Index of the first `b` in `s`, or -1 where there is none.
pub open spec fn first_index(s: Seq<u8>, b: u8) -> int
    decreases s.len(),
{
    if s.len() == 0 {
        -1
    } else if s[0] == b {
        0
    } else {
        let r = first_index(s.drop_first(), b);
        if r < 0 {
            -1
        } else {
            r + 1
        }
    }
}

/// The second space-separated field of a mount-table line (its mount target),
/// or `None` where the line has a single field.
pub open spec fn second_field(line: Seq<u8>) -> Option<Seq<u8>> {
    let k = first_index(line, FIELD_SEP);
    if k < 0 {
        None
    } else {
        let rest = line.skip(k + 1);
        let e = first_index(rest, FIELD_SEP);
        Some(if e < 0 { rest } else { rest.take(e) })
    }
}

/// The mount targets of `lines` that begin with `prefix`, in table order.
pub open spec fn targets_under(lines: Seq<Seq<u8>>, prefix: Seq<u8>) -> Seq<Seq<u8>>
    decreases lines.len(),
{
    if lines.len() == 0 {
        seq![]
    } else {
        let v = targets_under(lines.drop_last(), prefix);
        match second_field(lines.last()) {
            Some(t) => if prefix.len() <= t.len() && t.take(prefix.len() as int) == prefix {
                v.push(t)
            } else {
                v
            },
            None => v,
        }
    }
}

/// A line of the mount table that has no mount target.
#[derive(Clone, Copy, Debug, PartialEq, Eq)]
pub struct MountTableError {
    /// Index of the first such line.
    pub line: usize,
}

proof fn lemma_first_index(s: Seq<u8>, b: u8, i: int)
    requires
        0 <= i <= s.len(),
        forall|k: int| 0 <= k < i ==> s[k] != b,
        i < s.len() ==> s[i] == b,
    ensures
        first_index(s, b) == if i < s.len() {
            i
        } else {
            -1
        },
    decreases i,
{
    if i > 0 {
        let t = s.drop_first();
        assert forall|k: int| 0 <= k < i - 1 implies t[k] != b by {
            assert(t[k] == s[k + 1]);
        }
        lemma_first_index(t, b, i - 1);
    }
}

/// Index of the first `b` in `s` at or after `from`, or `s.len()`.
fn find_byte(s: &Vec<u8>, from: usize, b: u8) -> (r: usize)
    requires
        from <= s@.len(),
    ensures
        from <= r <= s@.len(),
        forall|k: int| from <= k < r ==> s@[k] != b,
        r < s@.len() ==> s@[r as int] == b,
{
    let mut i = from;
    while i < s.len() && s[i] != b
        invariant
            from <= i <= s@.len(),
            forall|k: int| from <= k < i ==> s@[k] != b,
        decreases s@.len() - i,
    {
        i = i + 1;
    }
    i
}

fn copy_range(s: &Vec<u8>, from: usize, to: usize) -> (r: Vec<u8>)
    requires
        from <= to <= s@.len(),
    ensures
        r@ == s@.subrange(from as int, to as int),
{
    let mut r: Vec<u8> = Vec::new();
    let mut i = from;
    while i < to
        invariant
            from <= i <= to <= s@.len(),
            r@ == s@.subrange(from as int, i as int),
        decreases to - i,
    {
        r.push(s[i]);
        assert(r@ =~= s@.subrange(from as int, i + 1));
        i = i + 1;
    }
    r
}

/// The mount target of one mount-table line.
pub fn mount_target(line: &Vec<u8>) -> (r: Option<Vec<u8>>)
    ensures
        match r {
            Some(t) => second_field(line@) == Some(t@),
            None => second_field(line@) is None,
        },
{
    let k = find_byte(line, 0, FIELD_SEP);
    proof {
        lemma_first_index(line@, FIELD_SEP, k as int);
    }
    if k >= line.len() {
        return None;
    }
    let e = find_byte(line, k + 1, FIELD_SEP);
    let ghost rest = line@.skip(k + 1);
    proof {
        assert forall|q: int| 0 <= q < e - (k + 1) implies rest[q] != FIELD_SEP by {
            assert(rest[q] == line@[q + k + 1]);
        }
        if e < line@.len() {
            assert(rest[e - (k + 1)] == line@[e as int]);
        }
        lemma_first_index(rest, FIELD_SEP, e - (k + 1));
    }
    let t = copy_range(line, k + 1, e);
    assert(t@ =~= (if e < line@.len() { rest.take(e - (k + 1)) } else { rest }));
    Some(t)
}

/// Lists, in table order, the mount targets that begin with `prefix`, from the
/// lines of a mount table (source, target, then more fields, separated by
/// spaces). A line without a target fails the whole listing.
pub fn list_child_mounts(lines: &Vec<Vec<u8>>, prefix: &Vec<u8>) -> (r: Result<
    Vec<Vec<u8>>,
    MountTableError,
>)
    ensures
        match r {
            Ok(v) => {
                &&& forall|i: int| 0 <= i < lines@.len() ==> second_field(#[trigger] lines@[i]@) is Some
                &&& paths(v@) == targets_under(paths(lines@), prefix@)
            },
            Err(e) => {
                &&& e.line < lines@.len()
                &&& second_field(lines@[e.line as int]@) is None
                &&& forall|i: int| 0 <= i < e.line ==> second_field(#[trigger] lines@[i]@) is Some
            },
        },
{
    let mut out: Vec<Vec<u8>> = Vec::new();
    let mut i: usize = 0;
    while i < lines.len()
        invariant
            i <= lines@.len(),
            forall|k: int| 0 <= k < i ==> second_field(#[trigger] lines@[k]@) is Some,
            paths(out@) == targets_under(paths(lines@).take(i as int), prefix@),
        decreases lines@.len() - i,
    {
        let ghost taken = paths(lines@).take(i + 1);
        assert(taken.drop_last() =~= paths(lines@).take(i as int));
        assert(taken.last() == lines@[i as int]@);
        match mount_target(&lines[i]) {
            None => {
                return Err(MountTableError { line: i });
            },
            Some(t) => {
                if has_prefix(&t, prefix) {
                    out.push(t);
                    assert(paths(out@) =~= targets_under(taken, prefix@));
                } else {
                    assert(paths(out@) =~= targets_under(taken, prefix@));
                }
            },
        }
        i = i + 1;
    }
    assert(paths(lines@).take(i as int) =~= paths(lines@));
    Ok(out)
}

/// Mounts that a reset never removes: the process-information filesystem
/// with everything beneath it, and the message-queue filesystem.
pub open spec fn preserved(p: Seq<u8>) -> bool {
    ||| p == proc_dir()
    ||| (proc_dir().len() + 1 <= p.len() && p.take(proc_dir().len() + 1 as int) == proc_dir().push(
        SLASH,
    ))
    ||| p == mqueue_dir()
}

/// Whether a reset leaves the mount at `p` alone.
pub fn is_preserved(p: &Vec<u8>) -> (r: bool)
    ensures
        r == preserved(p@),
{
    let proc = proc_path();
    let mut proc_slash = proc_path();
    proc_slash.push(SLASH);
    bytes_eq(p, &proc) || has_prefix(p, &proc_slash) || bytes_eq(p, &mqueue_path())
}

/// The mount topology of a freshly built root: how many times each target is
/// mounted.
pub struct RootfsState {
    mount_points: Vec<Vec<u8>>,
}

impl RootfsState {
    pub closed spec fn mounts(&self) -> Seq<Seq<u8>> {
        paths(self.mount_points@)
    }

    /// How many times `p` is mounted in the baseline.
    pub open spec fn multiplicity(&self, p: Seq<u8>) -> nat {
        count(self.mounts(), p)
    }

    /// The baseline of a mount listing: each target counted as often as it occurs.
    pub fn from_mounts(mounts: Vec<Vec<u8>>) -> (r: RootfsState)
        ensures
            forall|p: Seq<u8>| #[trigger] r.multiplicity(p) == count(paths(mounts@), p),
    {
        RootfsState { mount_points: mounts }
    }

    /// How many times `p` is mounted in the baseline.
    pub fn multiplicity_of(&self, p: &Vec<u8>) -> (r: usize)
        ensures
            r == self.multiplicity(p@),
    {
        let r = count_in(&self.mount_points, self.mount_points.len(), p);
        assert(paths(self.mount_points@).take(self.mount_points@.len() as int) =~= self.mounts());
        r
    }
}

proof fn lemma_count_le(s: Seq<Seq<u8>>, p: Seq<u8>)
    ensures
        count(s, p) <= s.len(),
    decreases s.len(),
{
    if s.len() > 0 {
        lemma_count_le(s.drop_last(), p);
    }
}

/// How many of the first `n` entries of `s` are `p`.
fn count_in(s: &Vec<Vec<u8>>, n: usize, p: &Vec<u8>) -> (r: usize)
    requires
        n <= s@.len(),
    ensures
        r == count(paths(s@).take(n as int), p@),
{
    let mut r: usize = 0;
    let mut i: usize = 0;
    while i < n
        invariant
            i <= n <= s@.len(),
            r == count(paths(s@).take(i as int), p@),
        decreases n - i,
    {
        let ghost taken = paths(s@).take(i + 1);
        assert(taken.drop_last() =~= paths(s@).take(i as int));
        proof {
            lemma_count_le(paths(s@).take(i as int), p@);
        }
        if bytes_eq(&s[i], p) {
            r = r + 1;
        }
        i = i + 1;
    }
    r
}

/// The mounts that a reset removes, in table order: each occurrence of a
/// target, past those that the baseline accounts for, unless it is preserved.
pub open spec fn residue(base: RootfsState, cur: Seq<Seq<u8>>) -> Seq<Seq<u8>>
    decreases cur.len(),
{
    if cur.len() == 0 {
        seq![]
    } else {
        let p = cur.last();
        let before = cur.drop_last();
        let r = residue(base, before);
        if !preserved(p) && count(before, p) >= base.multiplicity(p) {
            r.push(p)
        } else {
            r
        }
    }
}

/// Unmounts of `res`, last first, so that children go before their parents.
pub open spec fn unmounts(res: Seq<Seq<u8>>) -> Seq<OpView> {
    Seq::new(
        res.len(),
        |i: int| OpView::Unmount { target: res[res.len() - 1 - i], tolerate_not_mounted: false },
    )
}

/// `size=<space>,nr_inodes=<max_inodes>`.
pub open spec fn tmpfs_options(space: u64, max_inodes: u64) -> Seq<u8> {
    seq![115u8, 105, 122, 101, 61] + decimal(space as nat) + seq![
        44u8,
        110,
        114,
        95,
        105,
        110,
        111,
        100,
        101,
        115,
        61,
    ] + decimal(max_inodes as nat)
}

/// Backs the public `target` with a fresh directory `backing`: sticky and
/// world-writable, owned by `admin`, bound over whatever was mounted there.
pub open spec fn rebind(target: Seq<u8>, backing: Seq<u8>, admin: Identity) -> Seq<OpView> {
    seq![
        OpView::MakeDir { path: backing },
        OpView::Chown { path: backing, owner: admin },
        OpView::Chmod { path: backing, mode: STICKY_WORLD_WRITABLE },
        OpView::Unmount { target, tolerate_not_mounted: true },
        OpView::BindMount { source: backing, target, recursive: false },
    ]
}

/// Fresh ephemeral storage, owned by `user`, and the shared-memory and temp
/// directories rebuilt on it.
pub open spec fn rebuild(space: u64, max_inodes: u64, user: Identity, admin: Identity) -> Seq<
    OpView,
> {
    seq![
        OpView::MountTmpfs { target: space_dir(), options: tmpfs_options(space, max_inodes) },
        OpView::Chown { path: space_dir(), owner: user },
    ] + rebind(shm_dir(), shm_backing(), admin) + rebind(tmp_dir(), tmp_backing(), admin)
}

/// Everything a reset does to the mounts, given the current listing.
pub open spec fn reset_ops(
    base: RootfsState,
    quotas: DiskQuotas,
    user: Identity,
    admin: Identity,
    cur: Seq<Seq<u8>>,
) -> Seq<OpView> {
    unmounts(residue(base, cur)) + rebuild(quotas.space, quotas.max_inodes, user, admin)
}

/// The options of the ephemeral storage filesystem for these quotas.
pub fn tmpfs_options_text(quotas: &DiskQuotas) -> (r: Vec<u8>)
    ensures
        r@ == tmpfs_options(quotas.space, quotas.max_inodes),
{
    let mut r: Vec<u8> = vec![115u8, 105, 122, 101, 61];
    push_decimal(&mut r, quotas.space);
    let sep: Vec<u8> = vec![44u8, 110, 114, 95, 105, 110, 111, 100, 101, 115, 61];
    let mut i: usize = 0;
    let ghost start = r@;
    while i < sep.len()
        invariant
            i <= sep@.len(),
            r@ == start + sep@.take(i as int),
        decreases sep@.len() - i,
    {
        r.push(sep[i]);
        assert(r@ =~= start + sep@.take(i + 1));
        i = i + 1;
    }
    assert(sep@.take(i as int) =~= sep@);
    push_decimal(&mut r, quotas.max_inodes);
    assert(r@ =~= tmpfs_options(quotas.space, quotas.max_inodes));
    r
}

fn push_rebind(ops: &mut Vec<FsOp>, target: Vec<u8>, backing: Vec<u8>, admin: Identity)
    ensures
        op_views(final(ops)@) == op_views(old(ops)@) + rebind(target@, backing@, admin),
{
    ops.push(FsOp::MakeDir { path: copy_bytes(&backing) });
    ops.push(FsOp::Chown { path: copy_bytes(&backing), owner: admin });
    ops.push(FsOp::Chmod { path: copy_bytes(&backing), mode: STICKY_WORLD_WRITABLE });
    ops.push(FsOp::Unmount { target: copy_bytes(&target), tolerate_not_mounted: true });
    ops.push(FsOp::BindMount { source: backing, target, recursive: false });
    assert(op_views(ops@) =~= op_views(old(ops)@) + rebind(target@, backing@, admin));
}

/// The operations that return the confined root to its pristine state:
/// unmount what runs left behind, last mounted first, then mount fresh
/// ephemeral storage sized by `quotas` and rebuild the shared-memory and temp
/// directories on it. `current` is the mount listing under the root now.
pub fn reset(
    state: &RootfsState,
    quotas: &DiskQuotas,
    user: Identity,
    admin: Identity,
    current: &Vec<Vec<u8>>,
) -> (ops: Vec<FsOp>)
    ensures
        op_views(ops@) == reset_ops(*state, *quotas, user, admin, paths(current@)),
{
    let mut res: Vec<Vec<u8>> = Vec::new();
    let mut i: usize = 0;
    while i < current.len()
        invariant
            i <= current@.len(),
            paths(res@) == residue(*state, paths(current@).take(i as int)),
        decreases current@.len() - i,
    {
        let ghost taken = paths(current@).take(i + 1);
        assert(taken.drop_last() =~= paths(current@).take(i as int));
        assert(taken.last() == current@[i as int]@);
        let p = &current[i];
        if !is_preserved(p) {
            let seen = count_in(current, i, p);
            let base = state.multiplicity_of(p);
            if seen >= base {
                res.push(copy_bytes(p));
            }
        }
        assert(paths(res@) =~= residue(*state, taken));
        i = i + 1;
    }
    assert(paths(current@).take(i as int) =~= paths(current@));
    let ghost rv = paths(res@);
    let mut ops: Vec<FsOp> = Vec::new();
    let mut j = res.len();
    while j > 0
        invariant
            j <= res@.len(),
            rv == paths(res@),
            op_views(ops@) =~= unmounts(rv).take(rv.len() - j),
        decreases j,
    {
        j = j - 1;
        assert(rv[j as int] == res@[j as int]@);
        let ghost prev = op_views(ops@);
        ops.push(FsOp::Unmount { target: copy_bytes(&res[j]), tolerate_not_mounted: false });
        assert(op_views(ops@) =~= prev.push(
            OpView::Unmount { target: rv[j as int], tolerate_not_mounted: false },
        ));
        assert(op_views(ops@) =~= unmounts(rv).take(rv.len() - j));
    }
    assert(unmounts(rv).take(rv.len() as int) =~= unmounts(rv));
    ops.push(FsOp::MountTmpfs { target: space_path(), options: tmpfs_options_text(quotas) });
    ops.push(FsOp::Chown { path: space_path(), owner: user });
    push_rebind(&mut ops, shm_path(), shm_backing_path(), admin);
    push_rebind(&mut ops, tmp_path(), tmp_backing_path(), admin);
    assert(op_views(ops@) =~= reset_ops(*state, *quotas, user, admin, paths(current@)));
    ops
}

/// Removal of every numerically named pseudo-terminal entry among `names`,
/// in order.
pub open spec fn terminal_removals(names: Seq<Seq<u8>>) -> Seq<OpView>
    decreases names.len(),
{
    if names.len() == 0 {
        seq![]
    } else {
        let rest = terminal_removals(names.drop_last());
        if is_u64_numeral(names.last()) {
            rest.push(OpView::RemoveFile { path: child_of(pts_dir(), names.last()) })
        } else {
            rest
        }
    }
}

/// The removals that reclaim pseudo-terminal numbers, from the entry names
/// of `/newroot/dev/pts`. The kernel hands out the lowest free number, so
/// removing every numbered entry makes numbering start over.
pub fn reclaim_terminals(names: &Vec<Vec<u8>>) -> (ops: Vec<FsOp>)
    ensures
        op_views(ops@) == terminal_removals(paths(names@)),
{
    let mut ops: Vec<FsOp> = Vec::new();
    let mut i: usize = 0;
    while i < names.len()
        invariant
            i <= names@.len(),
            op_views(ops@) == terminal_removals(paths(names@).take(i as int)),
        decreases names@.len() - i,
    {
        let ghost taken = paths(names@).take(i + 1);
        assert(taken.drop_last() =~= paths(names@).take(i as int));
        assert(taken.last() == names@[i as int]@);
        if is_u64_numeral_text(&names[i]) {
            let mut path = pts_path();
            append_name(&mut path, &names[i]);
            let ghost prev = op_views(ops@);
            ops.push(FsOp::RemoveFile { path });
            assert(op_views(ops@) =~= prev.push(
                OpView::RemoveFile { path: child_of(pts_dir(), names@[i as int]@) },
            ));
        }
        i = i + 1;
    }
    assert(paths(names@).take(i as int) =~= paths(names@));
    ops
}

proof fn lemma_count_push(s: Seq<Seq<u8>>, x: Seq<u8>, p: Seq<u8>)
    ensures
        count(s.push(x), p) == count(s, p) + if x == p {
            1nat
        } else {
            0nat
        },
{
    assert(s.push(x).drop_last() =~= s);
}

proof fn lemma_count_first(s: Seq<Seq<u8>>, p: Seq<u8>)
    requires
        s.len() > 0,
    ensures
        count(s, p) == count(s.drop_first(), p) + if s[0] == p {
            1nat
        } else {
            0nat
        },
    decreases s.len(),
{
    if s.len() > 1 {
        lemma_count_first(s.drop_last(), p);
        assert(s.drop_first().drop_last() =~= s.drop_last().drop_first());
    } else {
        assert(s.drop_first() =~= Seq::<Seq<u8>>::empty());
        assert(s.drop_last() =~= Seq::<Seq<u8>>::empty());
    }
}

proof fn lemma_count_remove_last(s: Seq<Seq<u8>>, q: Seq<u8>, p: Seq<u8>)
    ensures
        count(remove_last(s, q), p) == if q == p && count(s, p) > 0 {
            (count(s, p) - 1) as nat
        } else {
            count(s, p)
        },
    decreases s.len(),
{
    if s.len() > 0 && s.last() != q {
        lemma_count_remove_last(s.drop_last(), q, p);
        lemma_count_push(remove_last(s.drop_last(), q), s.last(), p);
    }
}

proof fn lemma_apply_concat(t: Seq<Seq<u8>>, a: Seq<OpView>, b: Seq<OpView>)
    ensures
        apply_ops(t, a + b) == apply_ops(apply_ops(t, a), b),
    decreases b.len(),
{
    if b.len() == 0 {
        assert(a + b =~= a);
    } else {
        assert((a + b).drop_last() =~= a + b.drop_last());
        lemma_apply_concat(t, a, b.drop_last());
    }
}

/// A reset never unmounts a target whose baseline multiplicity is not used
/// up, whatever the baseline and the listing: the residue that it unmounts holds
/// each target exactly as often as the listing mounts it beyond its baseline
/// multiplicity, and a preserved target never.
pub proof fn lemma_reset_spares_baseline(base: RootfsState, cur: Seq<Seq<u8>>, p: Seq<u8>)
    ensures
        count(residue(base, cur), p) == if preserved(p) || count(cur, p) <= base.multiplicity(p) {
            0
        } else {
            (count(cur, p) - base.multiplicity(p)) as nat
        },
    decreases cur.len(),
{
    if cur.len() > 0 {
        let before = cur.drop_last();
        lemma_reset_spares_baseline(base, before, p);
        lemma_count_push(residue(base, before), cur.last(), p);
    }
}

proof fn lemma_unmounts_count(t: Seq<Seq<u8>>, res: Seq<Seq<u8>>, p: Seq<u8>)
    requires
        forall|q: Seq<u8>| count(res, q) <= count(t, q),
    ensures
        count(apply_ops(t, unmounts(res)), p) == count(t, p) - count(res, p),
    decreases res.len(),
{
    if res.len() > 0 {
        let rest = res.drop_first();
        assert forall|q: Seq<u8>| count(rest, q) <= count(t, q) by {
            lemma_count_first(res, q);
        }
        assert(unmounts(res).drop_last() =~= unmounts(rest));
        lemma_unmounts_count(t, rest, p);
        lemma_unmounts_count(t, rest, res[0]);
        lemma_count_first(res, p);
        lemma_count_first(res, res[0]);
        lemma_count_remove_last(apply_ops(t, unmounts(rest)), res[0], p);
    } else {
        assert(unmounts(res) =~= Seq::<OpView>::empty());
    }
}

/// How often a target is mounted after the rebuilding part of a reset, where it
/// was mounted `c` times before.
pub open spec fn rebuilt_count(p: Seq<u8>, c: nat) -> nat {
    let a = if p == space_dir() {
        c + 1
    } else {
        c
    };
    let b = if p == shm_dir() && a == 0 {
        1
    } else {
        a
    };
    if p == tmp_dir() && b == 0 {
        1
    } else {
        b
    }
}

proof fn lemma_rebind_count(t: Seq<Seq<u8>>, target: Seq<u8>, backing: Seq<u8>, admin: Identity, p: Seq<u8>)
    ensures
        count(apply_ops(t, rebind(target, backing, admin)), p) == if p == target && count(t, p) == 0 {
            1
        } else {
            count(t, p)
        },
{
    let ops = rebind(target, backing, admin);
    reveal_with_fuel(apply_ops, 6);
    assert(ops.drop_last().drop_last().drop_last().drop_last().drop_last() =~= Seq::<OpView>::empty());
    let u = remove_last(t, target);
    assert(apply_ops(t, ops) == u.push(target));
    lemma_count_remove_last(t, target, p);
    lemma_count_push(u, target, p);
}

proof fn lemma_rebuild_count(t: Seq<Seq<u8>>, space: u64, max_inodes: u64, user: Identity, admin: Identity, p: Seq<u8>)
    ensures
        count(apply_ops(t, rebuild(space, max_inodes, user, admin)), p) == rebuilt_count(p, count(t, p)),
{
    let first = seq![
        OpView::MountTmpfs { target: space_dir(), options: tmpfs_options(space, max_inodes) },
        OpView::Chown { path: space_dir(), owner: user },
    ];
    let r1 = rebind(shm_dir(), shm_backing(), admin);
    let r2 = rebind(tmp_dir(), tmp_backing(), admin);
    lemma_apply_concat(t, first + r1, r2);
    lemma_apply_concat(t, first, r1);
    reveal_with_fuel(apply_ops, 3);
    assert(first.drop_last().drop_last() =~= Seq::<OpView>::empty());
    let t1 = apply_ops(t, first);
    assert(t1 == t.push(space_dir()));
    lemma_count_push(t, space_dir(), p);
    lemma_rebind_count(t1, shm_dir(), shm_backing(), admin, p);
    lemma_rebind_count(apply_ops(t1, r1), tmp_dir(), tmp_backing(), admin, p);
}

/// The mount table after a reset, from the listing `cur`.
pub open spec fn after_reset(
    base: RootfsState,
    quotas: DiskQuotas,
    user: Identity,
    admin: Identity,
    cur: Seq<Seq<u8>>,
) -> Seq<Seq<u8>> {
    apply_ops(cur, reset_ops(base, quotas, user, admin, cur))
}

/// Where the listing holds every baseline mount, a reset leaves each target
/// mounted at least as often as the baseline says: exactly as often, but for
/// preserved targets and what the reset mounts itself.
pub proof fn lemma_reset_keeps_baseline(
    base: RootfsState,
    quotas: DiskQuotas,
    user: Identity,
    admin: Identity,
    cur: Seq<Seq<u8>>,
    p: Seq<u8>,
)
    requires
        forall|q: Seq<u8>| #[trigger] count(cur, q) >= base.multiplicity(q),
    ensures
        count(residue(base, cur), p) == if preserved(p) {
            0
        } else {
            (count(cur, p) - base.multiplicity(p)) as nat
        },
        count(after_reset(base, quotas, user, admin, cur), p) == rebuilt_count(
            p,
            if preserved(p) {
                count(cur, p)
            } else {
                base.multiplicity(p)
            },
        ),
        count(after_reset(base, quotas, user, admin, cur), p) >= base.multiplicity(p),
{
    let res = residue(base, cur);
    assert forall|q: Seq<u8>| count(res, q) <= count(cur, q) by {
        lemma_reset_spares_baseline(base, cur, q);
    }
    lemma_reset_spares_baseline(base, cur, p);
    lemma_unmounts_count(cur, res, p);
    let rb = rebuild(quotas.space, quotas.max_inodes, user, admin);
    lemma_apply_concat(cur, unmounts(res), rb);
    lemma_rebuild_count(apply_ops(cur, unmounts(res)), quotas.space, quotas.max_inodes, user, admin, p);
}

proof fn lemma_space_not_preserved()
    ensures
        !preserved(space_dir()),
{
    let s = space_dir();
    assert(s.len() == 14);
    assert(s[9] == 115u8);
    let ps = proc_dir().push(SLASH);
    assert(ps[9] == 112u8);
    assert(s.take(14)[9] == 115u8);
}

/// A reset is idempotent: where the listing holds every baseline mount, a
/// second reset right after the first leaves every target mounted as often
/// as the first did.
pub proof fn lemma_reset_idempotent(
    base: RootfsState,
    quotas: DiskQuotas,
    user: Identity,
    admin: Identity,
    cur: Seq<Seq<u8>>,
)
    requires
        forall|q: Seq<u8>| #[trigger] count(cur, q) >= base.multiplicity(q),
    ensures
        forall|p: Seq<u8>|
            #[trigger] count(after_reset(base, quotas, user, admin, after_reset(base, quotas, user, admin, cur)), p)
                == count(after_reset(base, quotas, user, admin, cur), p),
{
    let t1 = after_reset(base, quotas, user, admin, cur);
    assert forall|q: Seq<u8>| #[trigger] count(t1, q) >= base.multiplicity(q) by {
        lemma_reset_keeps_baseline(base, quotas, user, admin, cur, q);
    }
    assert forall|p: Seq<u8>| #[trigger] count(after_reset(base, quotas, user, admin, t1), p) == count(t1, p) by {
        lemma_reset_keeps_baseline(base, quotas, user, admin, cur, p);
        lemma_reset_keeps_baseline(base, quotas, user, admin, t1, p);
        lemma_space_not_preserved();
    }
}

} // verus!
