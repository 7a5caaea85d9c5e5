use vstd::prelude::*;
use vstd::string::StringExecFns;
use crate::branch::BranchIndex;
use crate::commit::{Commit, CommitId, CommitView, SHORT_ID_DIGITS, commit_views, short_id_spec};

verus! {

/// One commit of a stack, with the local branch that points at it, if any.
#[derive(Debug)]
pub struct StackEntry {
    pub id: CommitId,
    pub summary: String,
    pub local_branch: Option<String>,
}

/// The mathematical value of a stack entry.
pub struct EntryView {
    pub id: Seq<u8>,
    pub summary: Seq<char>,
    pub local_branch: Option<Seq<char>>,
}

pub open spec fn label_view(l: Option<String>) -> Option<Seq<char>> {
    match l {
        Some(s) => Some(s@),
        None => None,
    }
}

impl View for StackEntry {
    type V = EntryView;

    open spec fn view(&self) -> EntryView {
        EntryView { id: self.id@, summary: self.summary@, local_branch: label_view(self.local_branch) }
    }
}

pub open spec fn entry_views(s: Seq<StackEntry>) -> Seq<EntryView> {
    s.map_values(|e: StackEntry| e@)
}

/// The entry a commit of the walk becomes, given the index of branches.
pub open spec fn entry_of(c: CommitView, index: BranchIndex) -> EntryView {
    EntryView { id: c.id, summary: c.summary, local_branch: index.label_of(c.id) }
}

/// The text of an entry: a line with the branch in brackets when there is
/// one, then an indented line with the abbreviated id and the summary.
pub open spec fn render_spec(e: EntryView) -> Seq<char> {
    let label = match e.local_branch {
        Some(b) => "["@ + b + "]\n"@,
        None => Seq::empty(),
    };
    label + "    "@ + short_id_spec(e.id) + " "@ + e.summary
}

/// The text of a whole stack: each entry's text on its own lines, in order.
pub open spec fn render_stack_spec(s: Seq<EntryView>) -> Seq<char>
    decreases s.len(),
{
    if s.len() == 0 {
        Seq::empty()
    } else {
        render_stack_spec(s.drop_last()) + render_spec(s.last()) + "\n"@
    }
}

/// Whether every id in the entries is long enough to be abbreviated.
pub open spec fn abbreviable(s: Seq<EntryView>) -> bool {
    forall|i: int| 0 <= i < s.len() ==> 2 * (#[trigger] s[i]).id.len() >= SHORT_ID_DIGITS
}

impl StackEntry {
    /// Renders the entry as `render_spec` describes.
    pub fn render(&self) -> (r: String)
        requires
            2 * self.id@.len() >= SHORT_ID_DIGITS,
        ensures
            r@ == render_spec(self@),
    {
        let mut out = String::new();
        match &self.local_branch {
            Some(b) => {
                out.append("[");
                out.append(b.as_str());
                out.append("]\n");
            },
            None => {},
        }
        out.append("    ");
        out.append(self.id.short_hex().as_str());
        out.append(" ");
        out.append(self.summary.as_str());
        out
    }
}

/// Renders every entry of a stack, most recent first, one after another.
pub fn render_stack(stack: &Vec<StackEntry>) -> (r: String)
    requires
        abbreviable(entry_views(stack@)),
    ensures
        r@ == render_stack_spec(entry_views(stack@)),
{
    let mut out = String::new();
    let mut i: usize = 0;
    while i < stack.len()
        invariant
            i <= stack@.len(),
            abbreviable(entry_views(stack@)),
            out@ == render_stack_spec(entry_views(stack@).take(i as int)),
        decreases stack@.len() - i,
    {
        assert(entry_views(stack@)[i as int] == stack@[i as int]@);
        let text = stack[i].render();
        out.append(text.as_str());
        out.append("\n");
        assert(entry_views(stack@).take(i + 1).drop_last() =~= entry_views(stack@).take(i as int));
        i = i + 1;
    }
    assert(entry_views(stack@).take(stack@.len() as int) =~= entry_views(stack@));
    out
}

/// Collects a stack one commit at a time while the history is walked from
/// the current head. The walk stops at the first commit the walker refuses.
pub struct StackWalker {
    base: CommitId,
    entries: Vec<StackEntry>,
}

impl StackWalker {
    /// The commit the stack is computed relative to.
    pub closed spec fn base(&self) -> Seq<u8> {
        self.base@
    }

    /// The entries collected so far, most recent first.
    pub closed spec fn entries(&self) -> Seq<EntryView> {
        entry_views(self.entries@)
    }

    pub fn new(base: CommitId) -> (r: StackWalker)
        ensures
            r.base() == base@,
            r.entries() == Seq::<EntryView>::empty(),
    {
        let r = StackWalker { base, entries: Vec::new() };
        assert(r.entries() =~= Seq::<EntryView>::empty());
        r
    }

    /// Whether the walk goes on past commit `id`: it stops at the base.
    pub fn accepts(&self, id: &CommitId) -> (r: bool)
        ensures
            r == (id@ != self.base()),
    {
        !id.same_as(&self.base)
    }

    /// Adds the next commit of the walk, labelled with its local branch.
    pub fn push(&mut self, commit: &Commit, index: &BranchIndex)
        requires
            commit.id@ != old(self).base(),
        ensures
            final(self).base() == old(self).base(),
            final(self).entries() == old(self).entries().push(entry_of(commit@, *index)),
    {
        let local_branch = index.local_branch(&commit.id);
        let entry = StackEntry { id: commit.id.clone(), summary: commit.summary.clone(), local_branch };
        let ghost before = self.entries@;
        self.entries.push(entry);
        assert(entry_views(self.entries@) =~= entry_views(before).push(entry_of(commit@, *index)));
    }

    /// The collected stack.
    pub fn finish(self) -> (r: Vec<StackEntry>)
        ensures
            entry_views(r@) == self.entries(),
    {
        self.entries
    }
}

/// Whether `s` is the stack of `walk` relative to `base`: the walk's commits
/// before the first one that is `base` (all of them where none is), in the
/// walk's order, each labelled by `index`.
pub open spec fn is_stack_of(s: Seq<EntryView>, walk: Seq<CommitView>, base: Seq<u8>, index: BranchIndex) -> bool {
    &&& s.len() <= walk.len()
    &&& forall|i: int| 0 <= i < s.len() ==> #[trigger] s[i] == entry_of(walk[i], index)
    &&& forall|i: int| 0 <= i < s.len() ==> (#[trigger] walk[i]).id != base
    &&& s.len() == walk.len() || walk[s.len() as int].id == base
}

/// The stack of `walk` relative to `base`: the commits the walk yields before
/// it reaches `base`, in the walk's order, each labelled with its local branch.
/// `walk` is the history from the current head, most recent first; where
/// `base` never comes, the whole walk is the stack.
pub fn current(walk: &Vec<Commit>, base: &CommitId, index: &BranchIndex) -> (r: Vec<StackEntry>)
    ensures
        is_stack_of(entry_views(r@), commit_views(walk@), base@, *index),
        forall|i: int| 0 <= i < r@.len() ==> (#[trigger] r@[i]).id@ != base@,
        walk@.len() > 0 && walk@[0].id@ == base@ ==> r@.len() == 0,
{
    let mut walker = StackWalker::new(base.clone());
    let mut i: usize = 0;
    while i < walk.len() && walker.accepts(&walk[i].id)
        invariant
            i <= walk@.len(),
            walker.base() == base@,
            walker.entries().len() == i,
            forall|j: int| 0 <= j < i ==> (#[trigger] walker.entries()[j]) == entry_of(walk@[j]@, *index),
            forall|j: int| 0 <= j < i ==> (#[trigger] walk@[j]).id@ != base@,
        decreases walk@.len() - i,
    {
        walker.push(&walk[i], index);
        i = i + 1;
    }
    let r = walker.finish();
    assert(r@.len() == i);
    assert forall|j: int| 0 <= j < r@.len() implies (#[trigger] r@[j]).id@ != base@ by {
        assert(entry_views(r@)[j] == r@[j]@);
        assert(commit_views(walk@)[j] == walk@[j]@);
    }
    assert forall|j: int| 0 <= j < r@.len() implies (#[trigger] commit_views(walk@)[j]).id != base@ by {
        assert(commit_views(walk@)[j] == walk@[j]@);
    }
    if i < walk.len() {
        assert(commit_views(walk@)[i as int] == walk@[i as int]@);
    }
    r
}

/// Where the walk lists no commit twice and reaches the base at position `k`,
/// the stack holds exactly the commits the walk yields before the base, and
/// none of the base and the commits after it: on a linear history, those the
/// base reaches.
pub proof fn lemma_stack_is_history_above_base(
    s: Seq<EntryView>,
    walk: Seq<CommitView>,
    base: Seq<u8>,
    index: BranchIndex,
    k: int,
)
    requires
        is_stack_of(s, walk, base, index),
        0 <= k < walk.len(),
        walk[k].id == base,
        forall|i: int, j: int| 0 <= i < walk.len() && 0 <= j < walk.len() && i != j ==> walk[i].id != walk[j].id,
    ensures
        s.len() == k,
        forall|i: int| 0 <= i < k ==> (#[trigger] s[i]).id == walk[i].id,
        forall|i: int, j: int| 0 <= j < s.len() && k <= i < walk.len() ==> (#[trigger] s[j]).id != (#[trigger] walk[i]).id,
{
    if k < s.len() {
        assert(walk[k].id != base);
    }
    if s.len() < k {
        assert(walk[s.len() as int].id == walk[k].id);
    }
    assert forall|i: int| 0 <= i < k implies (#[trigger] s[i]).id == walk[i].id by {
        assert(s[i] == entry_of(walk[i], index));
    }
    assert forall|i: int, j: int| 0 <= j < s.len() && k <= i < walk.len() implies (#[trigger] s[j]).id != (#[trigger] walk[i]).id by {
        assert(s[j] == entry_of(walk[j], index));
    }
}

} // verus!
