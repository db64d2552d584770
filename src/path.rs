use vstd::prelude::*;

verus! {

/// The byte that separates path segments.
pub const SLASH: u8 = 47;

/// The byte of a current-directory segment.
pub const DOT: u8 = 46;

/// One component of a path, as the resolver consumes it. Current-directory
/// components (`.`) never change a resolution and are not produced.
pub enum PathComponent {
    RootDir,
    ParentDir,
    Normal(Vec<u8>),
}

/// The mathematical form of a [`PathComponent`].
pub enum CompView {
    Root,
    Parent,
    Normal(Seq<u8>),
}

impl View for PathComponent {
    type V = CompView;

    open spec fn view(&self) -> CompView {
        match self {
            PathComponent::RootDir => CompView::Root,
            PathComponent::ParentDir => CompView::Parent,
            PathComponent::Normal(p) => CompView::Normal(p@),
        }
    }
}

pub open spec fn comp_views(s: Seq<PathComponent>) -> Seq<CompView> {
    s.map_values(|c: PathComponent| c@)
}

/// What one segment between separators contributes: nothing for an empty
/// segment or `.`, a parent step for `..`, a name otherwise.
pub open spec fn classify(seg: Seq<u8>) -> Seq<CompView> {
    if seg.len() == 0 || seg == seq![DOT] {
        seq![]
    } else if seg == seq![DOT, DOT] {
        seq![CompView::Parent]
    } else {
        seq![CompView::Normal(seg)]
    }
}

/// Scanning `p` from the left: the components completed so far and the
/// segment still being read. A separator in first position is the root.
pub open spec fn scan(p: Seq<u8>) -> (Seq<CompView>, Seq<u8>)
    decreases p.len(),
{
    if p.len() == 0 {
        (seq![], seq![])
    } else {
        let (cs, cur) = scan(p.drop_last());
        if p.last() == SLASH {
            if p.len() == 1 {
                (seq![CompView::Root], seq![])
            } else {
                (cs + classify(cur), seq![])
            }
        } else {
            (cs, cur.push(p.last()))
        }
    }
}

/// The components of a path: a leading root, then one entry for each
/// non-empty segment other than `.`, separators collapsed.
pub open spec fn components(p: Seq<u8>) -> Seq<CompView> {
    scan(p).0 + classify(scan(p).1)
}

/// `base` with a separator and `name` appended.
pub open spec fn child_of(acc: Seq<u8>, name: Seq<u8>) -> Seq<u8> {
    acc.push(SLASH) + name
}

/// Appends a separator and `name` to `acc`.
pub fn append_name(acc: &mut Vec<u8>, name: &Vec<u8>)
    ensures
        final(acc)@ == child_of(old(acc)@, name@),
{
    acc.push(SLASH);
    let mut j: usize = 0;
    while j < name.len()
        invariant
            acc@ == old(acc)@.push(SLASH) + name@.take(j as int),
            j <= name@.len(),
        decreases name@.len() - j,
    {
        acc.push(name[j]);
        assert(acc@ =~= old(acc)@.push(SLASH) + name@.take(j + 1));
        j = j + 1;
    }
    assert(name@.take(name@.len() as int) =~= name@);
}

fn push_segment(comps: &mut Vec<PathComponent>, seg: Vec<u8>)
    ensures
        comp_views(final(comps)@) == comp_views(old(comps)@) + classify(seg@),
{
    let n = seg.len();
    let is_dot = n == 1 && seg[0] == DOT;
    let is_dot_dot = n == 2 && seg[0] == DOT && seg[1] == DOT;
    proof {
        if n == 1 && seg@[0] == DOT {
            assert(seg@ =~= seq![DOT]);
        }
        if n == 2 && seg@[0] == DOT && seg@[1] == DOT {
            assert(seg@ =~= seq![DOT, DOT]);
        }
    }
    if n == 0 || is_dot {
        assert(comp_views(comps@) + classify(seg@) =~= comp_views(comps@));
    } else if is_dot_dot {
        comps.push(PathComponent::ParentDir);
        assert(comp_views(comps@) =~= comp_views(old(comps)@) + classify(seg@));
    } else {
        let ghost s = seg@;
        comps.push(PathComponent::Normal(seg));
        assert(comp_views(comps@) =~= comp_views(old(comps)@) + classify(s));
    }
}

/// Splits a path into the components that the resolver walks.
pub fn split_components(path: &Vec<u8>) -> (r: Vec<PathComponent>)
    ensures
        comp_views(r@) == components(path@),
{
    let mut comps: Vec<PathComponent> = Vec::new();
    let mut cur: Vec<u8> = Vec::new();
    let n = path.len();
    let mut i: usize = 0;
    while i < n
        invariant
            n == path@.len(),
            0 <= i <= n,
            comp_views(comps@) == scan(path@.take(i as int)).0,
            cur@ == scan(path@.take(i as int)).1,
        decreases n - i,
    {
        let b = path[i];
        assert(path@.take(i + 1).drop_last() =~= path@.take(i as int));
        if b == SLASH {
            if i == 0 {
                comps.push(PathComponent::RootDir);
                assert(comp_views(comps@) =~= seq![CompView::Root]);
                cur = Vec::new();
            } else {
                let seg = cur;
                cur = Vec::new();
                push_segment(&mut comps, seg);
            }
        } else {
            cur.push(b);
        }
        i = i + 1;
    }
    assert(path@.take(n as int) =~= path@);
    push_segment(&mut comps, cur);
    comps
}

} // verus!
