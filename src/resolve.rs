use vstd::prelude::*;

use crate::layout::{new_root, new_root_path, old_root, old_root_path, space_dir, space_path};
use crate::path::{
    append_name, child_of, comp_views, components, split_components, CompView, PathComponent, SLASH,
};

verus! {

/// The deepest level of symlink indirection that a resolution follows.
pub const MAX_LINK_DEPTH: usize = 255;

/// `acc` lies at `root` or beneath it: it starts with `root`, and what follows
/// begins with a separator.
pub open spec fn confined(root: Seq<u8>, acc: Seq<u8>) -> bool {
    &&& root.len() <= acc.len()
    &&& acc.take(root.len() as int) == root
    &&& acc.len() > root.len() ==> acc[root.len() as int] == SLASH
}

/// Index of the last separator in `s`, or -1 where there is none.
pub open spec fn last_slash(s: Seq<u8>) -> int
    decreases s.len(),
{
    if s.len() == 0 {
        -1
    } else if s.last() == SLASH {
        s.len() - 1
    } else {
        last_slash(s.drop_last())
    }
}

/// The accumulator after a `..` component: its last segment removed, never
/// shorter than the declared root.
pub open spec fn parent_of(root: Seq<u8>, acc: Seq<u8>) -> Seq<u8> {
    if acc.len() > root.len() {
        acc.take(last_slash(acc))
    } else {
        acc
    }
}

/// The state of a resolution, as the contracts see it.
pub struct ResolverView {
    pub root: Seq<u8>,
    pub acc: Seq<u8>,
    /// What is left of each path being walked, outermost first; the last one
    /// is the innermost link target.
    pub frames: Seq<Seq<CompView>>,
    /// Where a name was just appended and the entry is being probed: the
    /// accumulator's length before the append.
    pub probe: Option<int>,
    pub failed: bool,
}

/// What a step of the resolution asks of its driver, as the contracts see it.
pub enum StepView {
    Continue,
    ReadLink(Seq<u8>),
    Resolved(Seq<u8>),
    LinkLoop,
}

/// What a step of the resolution asks of its driver.
#[derive(Clone, Debug, PartialEq, Eq)]
pub enum ResolveStep {
    /// Nothing to look at: call again.
    Continue,
    /// Read the entry at this path without following it, and hand its link
    /// target (if it is a symlink) to the next call.
    ReadLink(Vec<u8>),
    /// The resolution is complete.
    Resolved(Vec<u8>),
    /// Symlinks nest deeper than [`MAX_LINK_DEPTH`]: a filesystem loop.
    LinkLoop,
}

impl View for ResolveStep {
    type V = StepView;

    open spec fn view(&self) -> StepView {
        match self {
            ResolveStep::Continue => StepView::Continue,
            ResolveStep::ReadLink(p) => StepView::ReadLink(p@),
            ResolveStep::Resolved(p) => StepView::Resolved(p@),
            ResolveStep::LinkLoop => StepView::LinkLoop,
        }
    }
}

/// The effect of the driver's answer to a probe. Without a pending probe the
/// answer is ignored. A link target replaces the probed name and is walked as a
/// path of its own, one level deeper; past the depth bound the resolution fails.
pub open spec fn after_answer(v: ResolverView, link: Option<Seq<u8>>) -> ResolverView {
    match v.probe {
        None => v,
        Some(mark) => match link {
            None => ResolverView { probe: None, ..v },
            Some(t) => if v.frames.len() > MAX_LINK_DEPTH {
                ResolverView { acc: v.acc.take(mark), frames: seq![], probe: None, failed: true, ..v }
            } else {
                ResolverView {
                    acc: v.acc.take(mark),
                    frames: v.frames.push(components(t)),
                    probe: None,
                    ..v
                }
            },
        },
    }
}

/// One transition of the resolution.
pub open spec fn step(v: ResolverView) -> (ResolverView, StepView) {
    if v.failed {
        (v, StepView::LinkLoop)
    } else if v.frames.len() == 0 {
        (v, StepView::Resolved(v.acc))
    } else {
        let top = v.frames.last();
        let k = v.frames.len() - 1;
        if top.len() == 0 {
            (ResolverView { frames: v.frames.drop_last(), ..v }, StepView::Continue)
        } else {
            let frames = v.frames.update(k, top.drop_first());
            match top[0] {
                CompView::Root => (
                    ResolverView { acc: v.acc.take(v.root.len() as int), frames, ..v },
                    StepView::Continue,
                ),
                CompView::Parent => (
                    ResolverView { acc: parent_of(v.root, v.acc), frames, ..v },
                    StepView::Continue,
                ),
                CompView::Normal(name) => (
                    ResolverView {
                        acc: child_of(v.acc, name),
                        frames,
                        probe: Some(v.acc.len() as int),
                        ..v
                    },
                    StepView::ReadLink(child_of(v.acc, name)),
                ),
            }
        }
    }
}

/// A path being walked: its components and the index of the next one.
struct Frame {
    comps: Vec<PathComponent>,
    next: usize,
}

impl Frame {
    spec fn rest(&self) -> Seq<CompView> {
        comp_views(self.comps@).subrange(self.next as int, self.comps@.len() as int)
    }
}

/// A symlink-safe resolution of a path beneath a declared root. It never lets
/// the operating system follow a link: each time a name is appended it asks
/// its driver to read that one entry, and follows a link itself.
pub struct Resolver {
    root: Vec<u8>,
    acc: Vec<u8>,
    frames: Vec<Frame>,
    probe: Option<usize>,
    failed: bool,
}

proof fn lemma_last_slash(s: Seq<u8>)
    ensures
        -1 <= last_slash(s) < s.len(),
        last_slash(s) >= 0 ==> s[last_slash(s)] == SLASH,
        forall|j: int| last_slash(s) < j < s.len() ==> s[j] != SLASH,
    decreases s.len(),
{
    if s.len() > 0 && s.last() != SLASH {
        lemma_last_slash(s.drop_last());
        assert forall|j: int| last_slash(s) < j < s.len() implies s[j] != SLASH by {
            if j < s.len() - 1 {
                assert(s[j] == s.drop_last()[j]);
            }
        }
    }
}

/// Finds the last separator of an accumulator that extends beyond the root.
fn last_separator(acc: &Vec<u8>, root_len: usize) -> (j: usize)
    requires
        root_len < acc@.len(),
        acc@[root_len as int] == SLASH,
    ensures
        j as int == last_slash(acc@),
{
    proof {
        lemma_last_slash(acc@);
    }
    let mut j = acc.len() - 1;
    while acc[j] != SLASH
        invariant
            root_len <= j < acc@.len(),
            acc@[root_len as int] == SLASH,
            last_slash(acc@) <= j,
            -1 <= last_slash(acc@) < acc@.len(),
            last_slash(acc@) >= 0 ==> acc@[last_slash(acc@)] == SLASH,
            forall|q: int| last_slash(acc@) < q < acc@.len() ==> acc@[q] != SLASH,
        decreases j,
    {
        j = j - 1;
    }
    j
}

/// A `..` step keeps the accumulator beneath the root.
proof fn lemma_parent_confined(root: Seq<u8>, acc: Seq<u8>)
    requires
        confined(root, acc),
    ensures
        confined(root, parent_of(root, acc)),
        parent_of(root, acc).len() <= acc.len(),
{
    if acc.len() > root.len() {
        lemma_last_slash(acc);
        let k = last_slash(acc);
        assert(k >= root.len());
        let p = acc.take(k);
        assert(p.take(root.len() as int) =~= acc.take(root.len() as int));
    }
}

proof fn lemma_child_confined(root: Seq<u8>, acc: Seq<u8>, name: Seq<u8>)
    requires
        confined(root, acc),
    ensures
        confined(root, child_of(acc, name)),
        child_of(acc, name).take(acc.len() as int) == acc,
{
    let c = child_of(acc, name);
    assert(c.take(root.len() as int) =~= acc.take(root.len() as int));
    assert(c.take(acc.len() as int) =~= acc);
}

impl View for Resolver {
    type V = ResolverView;

    closed spec fn view(&self) -> ResolverView {
        ResolverView {
            root: self.root@,
            acc: self.acc@,
            frames: Seq::new(self.frames@.len(), |i: int| self.frames@[i].rest()),
            probe: match self.probe {
                Some(m) => Some(m as int),
                None => None,
            },
            failed: self.failed,
        }
    }
}

impl Resolver {
    /// The accumulator is confined to the root, and so is what it returns to
    /// when a probed name turns out to be a link; the link depth is bounded.
    pub closed spec fn wf(&self) -> bool {
        &&& confined(self.root@, self.acc@)
        &&& self.frames@.len() <= MAX_LINK_DEPTH + 1
        &&& forall|i: int| 0 <= i < self.frames@.len() ==> self.frames@[i].next
            <= self.frames@[i].comps@.len()
        &&& match self.probe {
            Some(m) => m <= self.acc@.len() && confined(self.root@, self.acc@.take(m as int)),
            None => true,
        }
        &&& self.failed ==> self.frames@.len() == 0 && self.probe is None
    }

    /// Starts resolving `path` with the accumulator at `seed`.
    fn start(root: Vec<u8>, seed: Vec<u8>, path: &Vec<u8>) -> (r: Resolver)
        requires
            confined(root@, seed@),
        ensures
            r.wf(),
            r@ == initial(root@, seed@, path@),
    {
        let comps = split_components(path);
        let mut frames: Vec<Frame> = Vec::new();
        frames.push(Frame { comps, next: 0 });
        let r = Resolver { root, acc: seed, frames, probe: None, failed: false };
        assert(r@.frames =~= seq![components(path@)]) by {
            assert(r.frames@[0].rest() =~= components(path@));
        }
        r
    }

    /// Takes one step of the resolution, after applying `link`, the answer to
    /// the previous [`ResolveStep::ReadLink`] (`None` where the entry is no
    /// symlink or cannot be read).
    pub fn advance(&mut self, link: Option<Vec<u8>>) -> (r: ResolveStep)
        requires
            old(self).wf(),
        ensures
            final(self).wf(),
            (final(self)@, r@) == step(after_answer(old(self)@, link_view(&link))),
            final(self)@.root == old(self)@.root,
            confined(final(self)@.root, final(self)@.acc),
            match r {
                ResolveStep::Resolved(p) => confined(final(self)@.root, p@),
                _ => true,
            },
    {
        let ghost answered = after_answer(self@, link_view(&link));
        if let Some(mark) = self.probe {
            self.probe = None;
            match link {
                None => {},
                Some(target) => {
                    self.acc.truncate(mark);
                    assert(self.acc@ =~= old(self).acc@.take(mark as int));
                    if self.frames.len() > MAX_LINK_DEPTH {
                        self.frames = Vec::new();
                        self.failed = true;
                    } else {
                        let comps = split_components(&target);
                        let ghost before = self.frames@;
                        self.frames.push(Frame { comps, next: 0 });
                        assert(self.frames@.last().rest() =~= components(target@));
                        assert forall|i: int| 0 <= i < self.frames@.len() implies self.frames@[i].next
                            <= self.frames@[i].comps@.len() by {
                            if i < before.len() {
                                assert(self.frames@[i] == before[i]);
                            }
                        }
                    }
                },
            }
        }
        assert(self@.frames =~= answered.frames);
        assert(self@ == answered);
        assert(self.wf());
        if self.failed {
            return ResolveStep::LinkLoop;
        }
        if self.frames.len() == 0 {
            return ResolveStep::Resolved(self.acc.clone());
        }
        let mut frame = self.frames.pop().unwrap();
        let ghost k = self.frames@.len() as int;
        let ghost top = answered.frames[k];
        assert(frame.rest() == top);
        if frame.next >= frame.comps.len() {
            assert(self@.frames =~= answered.frames.drop_last());
            return ResolveStep::Continue;
        }
        let i = frame.next;
        assert(top[0] == frame.comps@[i as int]@);
        let r = match &frame.comps[i] {
            PathComponent::RootDir => {
                self.acc.truncate(self.root.len());
                assert(self.acc@ =~= answered.acc.take(answered.root.len() as int));
                assert(self.acc@.take(self.root@.len() as int) =~= self.root@);
                ResolveStep::Continue
            },
            PathComponent::ParentDir => {
                proof {
                    lemma_parent_confined(self.root@, self.acc@);
                    lemma_last_slash(self.acc@);
                }
                if self.acc.len() > self.root.len() {
                    let j = last_separator(&self.acc, self.root.len());
                    self.acc.truncate(j);
                }
                assert(self.acc@ =~= parent_of(answered.root, answered.acc));
                ResolveStep::Continue
            },
            PathComponent::Normal(name) => {
                let mark = self.acc.len();
                proof {
                    lemma_child_confined(self.root@, self.acc@, name@);
                }
                append_name(&mut self.acc, name);
                assert(self.acc@ =~= child_of(answered.acc, name@));
                self.probe = Some(mark);
                let seen = self.acc.clone();
                assert(seen@ =~= self.acc@);
                ResolveStep::ReadLink(seen)
            },
        };
        frame.next = i + 1;
        let ghost below = self.frames@;
        self.frames.push(frame);
        assert forall|q: int| 0 <= q < self.frames@.len() implies self.frames@[q].next
            <= self.frames@[q].comps@.len() by {
            if q < below.len() {
                assert(self.frames@[q] == below[q]);
            }
        }
        assert(self.frames@.last().rest() =~= top.drop_first());
        assert(self@.frames =~= answered.frames.update(k, top.drop_first()));
        r
    }
}

/// The link target that a driver reports, as the contracts see it.
pub open spec fn link_view(link: &Option<Vec<u8>>) -> Option<Seq<u8>> {
    match link {
        Some(t) => Some(t@),
        None => None,
    }
}

/// The state in which a resolution of `path` begins.
pub open spec fn initial(root: Seq<u8>, seed: Seq<u8>, path: Seq<u8>) -> ResolverView {
    ResolverView { root, acc: seed, frames: seq![components(path)], probe: None, failed: false }
}

/// Begins resolving `path` inside the confined root `/newroot`, relative
/// paths starting from its writable storage `/newroot/space`.
pub fn resolve_abs_box_root(path: &Vec<u8>) -> (r: Resolver)
    ensures
        r.wf(),
        r@ == initial(new_root(), space_dir(), path@),
{
    let root = new_root_path();
    let seed = space_path();
    proof {
        assert(new_root().take(new_root().len() as int) =~= new_root());
        lemma_child_confined(new_root(), new_root(), seq![115u8, 112, 97, 99, 101]);
    }
    Resolver::start(root, seed, path)
}

/// Begins resolving `path` inside the host's root, kept at `/oldroot`.
pub fn resolve_abs_old_root(path: &Vec<u8>) -> (r: Resolver)
    ensures
        r.wf(),
        r@ == initial(old_root(), old_root(), path@),
{
    let root = old_root_path();
    let seed = old_root_path();
    assert(old_root().take(old_root().len() as int) =~= old_root());
    Resolver::start(root, seed, path)
}

/// The accumulator after `n` parent steps.
pub open spec fn parents(root: Seq<u8>, acc: Seq<u8>, n: nat) -> Seq<u8>
    decreases n,
{
    if n == 0 {
        acc
    } else {
        parent_of(root, parents(root, acc, (n - 1) as nat))
    }
}

/// However many `..` components a path starts with, they never lead out of
/// the declared root: each one keeps the accumulator at the root or beneath it.
pub proof fn lemma_parents_stay_confined(root: Seq<u8>, acc: Seq<u8>, n: nat)
    requires
        confined(root, acc),
    ensures
        confined(root, parents(root, acc, n)),
    decreases n,
{
    if n > 0 {
        lemma_parents_stay_confined(root, acc, (n - 1) as nat);
        lemma_parent_confined(root, parents(root, acc, (n - 1) as nat));
    }
}

/// The state after `n` steps of a driver that answers every probe with the
/// link target `t`.
pub open spec fn run_linked(v: ResolverView, t: Seq<u8>, n: nat) -> ResolverView
    decreases n,
{
    if n == 0 {
        v
    } else {
        step(after_answer(run_linked(v, t, (n - 1) as nat), Some(t))).0
    }
}

/// What step number `n + 1` of that driver's resolution asks for.
pub open spec fn output_linked(v: ResolverView, t: Seq<u8>, n: nat) -> StepView {
    step(after_answer(run_linked(v, t, n), Some(t))).1
}

/// `t` names something: its first component other than a root or a parent
/// step, at index `k`, is a name.
pub open spec fn first_name_at(t: Seq<u8>, k: nat) -> bool {
    &&& k < components(t).len()
    &&& components(t)[k as int] is Normal
    &&& forall|j: int| 0 <= j < k ==> !(#[trigger] components(t)[j] is Normal)
}

proof fn lemma_run_linked_split(v: ResolverView, t: Seq<u8>, a: nat, b: nat)
    ensures
        run_linked(v, t, a + b) == run_linked(run_linked(v, t, a), t, b),
    decreases b,
{
    if b > 0 {
        lemma_run_linked_split(v, t, a, (b - 1) as nat);
        assert((a + b - 1) as nat == a + (b - 1) as nat);
    }
}

/// Between following a link to `t` and probing the first name of `t`, the
/// resolution walks the roots and parent steps before it.
proof fn lemma_linked_walk(v: ResolverView, t: Seq<u8>, k: nat, i: nat)
    requires
        v.probe is Some,
        !v.failed,
        v.frames.len() <= MAX_LINK_DEPTH,
        first_name_at(t, k),
        1 <= i <= k,
    ensures
        run_linked(v, t, i).probe is None,
        !run_linked(v, t, i).failed,
        run_linked(v, t, i).frames.len() == v.frames.len() + 1,
        run_linked(v, t, i).frames.last() == components(t).skip(i as int),
    decreases i,
{
    let c = components(t);
    if i == 1 {
        let a = after_answer(v, Some(t));
        assert(a.frames.last() == c);
        assert(!(c[0] is Normal));
        assert(c.drop_first() =~= c.skip(1));
    } else {
        lemma_linked_walk(v, t, k, (i - 1) as nat);
        let w = run_linked(v, t, (i - 1) as nat);
        assert(after_answer(w, Some(t)) == w);
        assert(w.frames.last()[0] == c[i - 1]);
        assert(!(c[i - 1] is Normal));
        assert(w.frames.last().drop_first() =~= c.skip(i as int));
    }
}

/// After following a link to `t`, the resolution probes the first name of
/// `t` one level deeper.
proof fn lemma_linked_round(v: ResolverView, t: Seq<u8>, k: nat)
    requires
        v.probe is Some,
        !v.failed,
        v.frames.len() <= MAX_LINK_DEPTH,
        first_name_at(t, k),
    ensures
        run_linked(v, t, k + 1).probe is Some,
        !run_linked(v, t, k + 1).failed,
        run_linked(v, t, k + 1).frames.len() == v.frames.len() + 1,
{
    let c = components(t);
    if k == 0 {
        let a = after_answer(v, Some(t));
        assert(a.frames.last() == c);
        assert(run_linked(v, t, 1) == step(a).0);
    } else {
        lemma_linked_walk(v, t, k, k);
        let w = run_linked(v, t, k);
        assert(after_answer(w, Some(t)) == w);
        assert(w.frames.last()[0] == c[k as int]);
    }
}

/// A symlink cycle fails: from a pending probe, where every probed name turns
/// out to be a link to a target that names something, the resolution comes to
/// a loop failure once links nest deeper than the bound.
pub proof fn lemma_link_cycle_fails(v: ResolverView, t: Seq<u8>, k: nat)
    requires
        v.probe is Some,
        !v.failed,
        v.frames.len() <= MAX_LINK_DEPTH + 1,
        first_name_at(t, k),
    ensures
        exists|n: nat| output_linked(v, t, n) == StepView::LinkLoop,
    decreases MAX_LINK_DEPTH + 1 - v.frames.len(),
{
    if v.frames.len() > MAX_LINK_DEPTH {
        assert(output_linked(v, t, 0) == StepView::LinkLoop);
    } else {
        lemma_linked_round(v, t, k);
        let w = run_linked(v, t, k + 1);
        lemma_link_cycle_fails(w, t, k);
        let n = choose|n: nat| output_linked(w, t, n) == StepView::LinkLoop;
        lemma_run_linked_split(v, t, k + 1, n);
        assert(output_linked(v, t, k + 1 + n) == StepView::LinkLoop);
    }
}

} // verus!
