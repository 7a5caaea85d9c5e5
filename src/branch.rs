use vstd::prelude::*;
use crate::commit::CommitId;

verus! {

/// Whether a branch lives in the working repository or tracks one on a remote.
#[derive(Clone, Copy, Debug, PartialEq, Eq, Structural)]
pub enum BranchKind {
    Local,
    Remote,
}

/// A named pointer to a commit, as the repository lists it. `target` is
/// `None` for a branch whose reference does not resolve to a commit.
#[derive(Debug)]
pub struct Branch {
    pub name: String,
    pub kind: BranchKind,
    pub target: Option<CommitId>,
}

/// The mathematical value of a branch.
pub struct BranchView {
    pub name: Seq<char>,
    pub kind: BranchKind,
    pub target: Option<Seq<u8>>,
}

pub open spec fn target_view(t: Option<CommitId>) -> Option<Seq<u8>> {
    match t {
        Some(id) => Some(id@),
        None => None,
    }
}

impl View for Branch {
    type V = BranchView;

    open spec fn view(&self) -> BranchView {
        BranchView { name: self.name@, kind: self.kind, target: target_view(self.target) }
    }
}

impl Clone for Branch {
    fn clone(&self) -> (r: Branch)
        ensures
            r@ == self@,
    {
        let target = match &self.target {
            Some(id) => Some(id.clone()),
            None => None,
        };
        Branch { name: self.name.clone(), kind: self.kind, target }
    }
}

pub open spec fn views(bs: Seq<Branch>) -> Seq<BranchView> {
    bs.map_values(|b: Branch| b@)
}

/// The branches that resolve to a commit, in listing order.
pub open spec fn resolved(bs: Seq<BranchView>) -> Seq<BranchView>
    decreases bs.len(),
{
    if bs.len() == 0 {
        Seq::empty()
    } else if bs.last().target is Some {
        resolved(bs.drop_last()).push(bs.last())
    } else {
        resolved(bs.drop_last())
    }
}

/// Whether `b` is a local branch pointing at commit `c`.
pub open spec fn local_at(b: BranchView, c: Seq<u8>) -> bool {
    b.kind == BranchKind::Local && b.target == Some(c)
}

/// The name of the first local branch in `bs` that points at commit `c`.
pub open spec fn first_local(bs: Seq<BranchView>, c: Seq<u8>) -> Option<Seq<char>>
    decreases bs.len(),
{
    if bs.len() == 0 {
        None
    } else {
        let earlier = first_local(bs.drop_last(), c);
        if earlier is Some {
            earlier
        } else if local_at(bs.last(), c) {
            Some(bs.last().name)
        } else {
            None
        }
    }
}

/// The branches of a repository that resolve to a commit, grouped for lookup
/// by commit id. Within one commit the listing order of the repository is kept.
pub struct BranchIndex {
    entries: Vec<Branch>,
}

impl View for BranchIndex {
    type V = Seq<BranchView>;

    closed spec fn view(&self) -> Seq<BranchView> {
        views(self.entries@)
    }
}

impl BranchIndex {
    /// Every branch held resolves to a commit.
    pub open spec fn wf(&self) -> bool {
        forall|i: int| 0 <= i < self@.len() ==> (#[trigger] self@[i]).target is Some
    }

    /// The label a stack entry for commit `c` carries.
    pub open spec fn label_of(&self, c: Seq<u8>) -> Option<Seq<char>> {
        first_local(self@, c)
    }

    /// Indexes the branches of a repository, skipping those that do not
    /// resolve to a commit.
    pub fn build(branches: &Vec<Branch>) -> (r: BranchIndex)
        ensures
            r.wf(),
            r@ == resolved(views(branches@)),
    {
        let mut entries: Vec<Branch> = Vec::new();
        let mut i: usize = 0;
        while i < branches.len()
            invariant
                i <= branches@.len(),
                views(entries@) == resolved(views(branches@).take(i as int)),
                forall|j: int| 0 <= j < entries@.len() ==> (#[trigger] entries@[j])@.target is Some,
            decreases branches@.len() - i,
        {
            let b = &branches[i];
            let ghost before = entries@;
            assert(views(branches@).take(i + 1).drop_last() =~= views(branches@).take(i as int));
            if b.target.is_some() {
                entries.push(b.clone());
                assert(views(entries@) =~= views(before).push(b@));
            }
            i = i + 1;
        }
        assert(views(branches@).take(branches@.len() as int) =~= views(branches@));
        let r = BranchIndex { entries };
        assert forall|j: int| 0 <= j < r@.len() implies (#[trigger] r@[j]).target is Some by {
            assert(r.entries@[j]@.target is Some);
        }
        r
    }

    /// The name of the first local branch pointing at commit `c`, if any.
    pub fn local_branch(&self, c: &CommitId) -> (r: Option<String>)
        ensures
            match r {
                Some(s) => self.label_of(c@) == Some(s@),
                None => self.label_of(c@) is None,
            },
    {
        let mut i: usize = 0;
        while i < self.entries.len()
            invariant
                i <= self@.len(),
                first_local(self@.take(i as int), c@) is None,
            decreases self@.len() - i,
        {
            let b = &self.entries[i];
            let ghost bv = self@[i as int];
            assert(self@.take(i + 1).drop_last() =~= self@.take(i as int));
            let points = match &b.target {
                Some(t) => t.same_as(c),
                None => false,
            };
            if points && b.kind == BranchKind::Local {
                assert(first_local(self@.take(i + 1), c@) == Some(bv.name));
                proof { lemma_first_local_prefix(self@, (i + 1) as int, c@); }
                return Some(b.name.clone());
            }
            i = i + 1;
        }
        assert(self@.take(self@.len() as int) =~= self@);
        None
    }
}

/// Once a prefix of the listing holds a local branch at `c`, further branches
/// do not change which one is first.
proof fn lemma_first_local_prefix(bs: Seq<BranchView>, k: int, c: Seq<u8>)
    requires
        0 <= k <= bs.len(),
        first_local(bs.take(k), c) is Some,
    ensures
        first_local(bs, c) == first_local(bs.take(k), c),
    decreases bs.len() - k,
{
    if k < bs.len() {
        assert(bs.take(k + 1).drop_last() =~= bs.take(k));
        lemma_first_local_prefix(bs, k + 1, c);
    } else {
        assert(bs.take(k) =~= bs);
    }
}

/// Skipping the branches that do not resolve does not change which local
/// branch comes first at a commit.
proof fn lemma_first_local_resolved(bs: Seq<BranchView>, c: Seq<u8>)
    ensures
        first_local(resolved(bs), c) == first_local(bs, c),
    decreases bs.len(),
{
    if bs.len() > 0 {
        lemma_first_local_resolved(bs.drop_last(), c);
        if bs.last().target is Some {
            assert(resolved(bs).drop_last() =~= resolved(bs.drop_last()));
        }
    }
}

/// A commit that no local branch points at gets no branch label.
pub proof fn lemma_no_local_branch_no_label(branches: Seq<BranchView>, c: Seq<u8>)
    requires
        forall|k: int| 0 <= k < branches.len() ==> !local_at(#[trigger] branches[k], c),
    ensures
        first_local(resolved(branches), c) is None,
    decreases branches.len(),
{
    lemma_first_local_resolved(branches, c);
    if branches.len() > 0 {
        let rest = branches.drop_last();
        assert forall|k: int| 0 <= k < rest.len() implies !local_at(#[trigger] rest[k], c) by {
            assert(rest[k] == branches[k]);
        }
        lemma_no_local_branch_no_label(rest, c);
        lemma_first_local_resolved(rest, c);
    }
}

/// A commit that exactly one local branch points at is labelled with that
/// branch's name.
pub proof fn lemma_single_local_branch_label(branches: Seq<BranchView>, c: Seq<u8>, j: int)
    requires
        0 <= j < branches.len(),
        local_at(branches[j], c),
        forall|k: int| 0 <= k < branches.len() && k != j ==> !local_at(#[trigger] branches[k], c),
    ensures
        first_local(resolved(branches), c) == Some(branches[j].name),
    decreases branches.len(),
{
    lemma_first_local_resolved(branches, c);
    let rest = branches.drop_last();
    if j == branches.len() - 1 {
        assert forall|k: int| 0 <= k < rest.len() implies !local_at(#[trigger] rest[k], c) by {
            assert(rest[k] == branches[k]);
        }
        lemma_no_local_branch_no_label(rest, c);
        lemma_first_local_resolved(rest, c);
    } else {
        assert forall|k: int| 0 <= k < rest.len() && k != j implies !local_at(#[trigger] rest[k], c) by {
            assert(rest[k] == branches[k]);
        }
        lemma_single_local_branch_label(rest, c, j);
        lemma_first_local_resolved(rest, c);
    }
}

} // verus!
