use vstd::prelude::*;
use vstd::string::StringExecFns;
use crate::commit::{CommitId, hex_of};
use crate::stack::{EntryView, StackEntry, entry_views};

verus! {

/// Options of the command that shows the stack.
#[derive(Debug)]
pub struct ShowOptions {
    /// The base branch of the stack.
    pub base: String,
}

/// Options of the command that publishes the stack's branches.
#[derive(Debug)]
pub struct PushOptions {
    /// The base branch of the stack.
    pub base: String,
    /// The remote to push to; the base branch's upstream remote when absent.
    pub remote: Option<String>,
    /// Whether the remote branches are overwritten whatever they hold.
    pub force: bool,
}

/// Why publishing a stack fails before anything is sent.
#[derive(Debug, PartialEq, Eq)]
pub enum PushError {
    /// The local branch of a stack entry no longer resolves to a reference.
    Resolution(String),
    /// No remote was named and the base branch has no upstream remote.
    RemoteNotFound,
    /// The remote asks for a kind of credential other than an SSH key.
    UnsupportedCredentialType,
    /// The remote's URL names no user to authenticate as.
    MissingUsername,
}

pub open spec fn opt_view(o: Option<String>) -> Option<Seq<char>> {
    match o {
        Some(s) => Some(s@),
        None => None,
    }
}

pub open spec fn opt_views(os: Seq<Option<String>>) -> Seq<Option<Seq<char>>> {
    os.map_values(|o: Option<String>| opt_view(o))
}

pub open spec fn string_views(ss: Seq<String>) -> Seq<Seq<char>> {
    ss.map_values(|s: String| s@)
}

/// The refspec that publishes reference `full` under the same name, with the
/// force marker in front when `force` holds.
pub open spec fn refspec_spec(full: Seq<char>, force: bool) -> Seq<char> {
    let marker = if force { "+"@ } else { Seq::empty() };
    marker + full + ":"@ + full
}

/// Whether entry `i` carries a branch that did not resolve.
pub open spec fn unresolved(entries: Seq<EntryView>, full: Seq<Option<Seq<char>>>, i: int) -> bool {
    entries[i].local_branch is Some && full[i] is None
}

/// The refspecs for the first `n` entries: one for each entry that carries a
/// local branch, built from that branch's full reference name `full[i]`.
pub open spec fn plan_upto(
    entries: Seq<EntryView>,
    full: Seq<Option<Seq<char>>>,
    force: bool,
    n: int,
) -> Seq<Seq<char>>
    decreases n,
{
    if n <= 0 {
        Seq::empty()
    } else {
        let earlier = plan_upto(entries, full, force, n - 1);
        if entries[n - 1].local_branch is Some && full[n - 1] is Some {
            earlier.push(refspec_spec(full[n - 1]->0, force))
        } else {
            earlier
        }
    }
}

/// How many of the first `n` entries carry a local branch.
pub open spec fn labelled_upto(entries: Seq<EntryView>, n: int) -> nat
    decreases n,
{
    if n <= 0 {
        0
    } else if entries[n - 1].local_branch is Some {
        labelled_upto(entries, n - 1) + 1
    } else {
        labelled_upto(entries, n - 1)
    }
}

/// Builds the refspecs that publish every local branch of `stack`, in stack
/// order. `resolved[i]` is the full reference name that the branch of entry
/// `i` resolves to now, or `None` where it no longer resolves. Fails with the
/// branch of the first entry whose branch does not resolve.
pub fn plan(stack: &Vec<StackEntry>, resolved: &Vec<Option<String>>, force: bool) -> (r: Result<
    Vec<String>,
    PushError,
>)
    requires
        resolved@.len() == stack@.len(),
    ensures
        r is Ok <==> forall|i: int| 0 <= i < stack@.len() ==> !unresolved(entry_views(stack@), opt_views(resolved@), i),
        r matches Ok(v) ==> string_views(v@) == plan_upto(
            entry_views(stack@),
            opt_views(resolved@),
            force,
            stack@.len() as int,
        ),
        r matches Err(e) ==> exists|i: int|
            0 <= i < stack@.len()
            && unresolved(entry_views(stack@), opt_views(resolved@), i)
            && (forall|j: int| 0 <= j < i ==> !unresolved(entry_views(stack@), opt_views(resolved@), j))
            && e == PushError::Resolution(stack@[i].local_branch->0),
{
    let ghost entries = entry_views(stack@);
    let ghost full = opt_views(resolved@);
    let mut out: Vec<String> = Vec::new();
    let mut i: usize = 0;
    while i < stack.len()
        invariant
            i <= stack@.len(),
            resolved@.len() == stack@.len(),
            entries == entry_views(stack@),
            full == opt_views(resolved@),
            string_views(out@) == plan_upto(entries, full, force, i as int),
            forall|j: int| 0 <= j < i ==> !unresolved(entries, full, j),
        decreases stack@.len() - i,
    {
        assert(entries[i as int] == stack@[i as int]@);
        assert(full[i as int] == opt_view(resolved@[i as int]));
        match &stack[i].local_branch {
            Some(b) => match &resolved[i] {
                Some(name) => {
                    let mut spec = String::new();
                    if force {
                        spec.append("+");
                    }
                    spec.append(name.as_str());
                    spec.append(":");
                    spec.append(name.as_str());
                    let ghost before = out@;
                    assert(spec@ =~= refspec_spec(name@, force));
                    out.push(spec);
                    assert(string_views(out@) =~= string_views(before).push(refspec_spec(name@, force)));
                },
                None => {
                    let name = b.clone();
                    assert(unresolved(entries, full, i as int));
                    assert(stack@[i as int].local_branch->0 == name);
                    return Err(PushError::Resolution(name));
                },
            },
            None => {},
        }
        i = i + 1;
    }
    Ok(out)
}

impl PushOptions {
    /// The remote to push to: the one named in the options, else `upstream`,
    /// the remote that the base branch tracks, if it has one.
    pub fn remote_name(&self, upstream: Option<String>) -> (r: Result<String, PushError>)
        ensures
            match self.remote {
                Some(n) => r matches Ok(s) && s@ == n@,
                None => match upstream {
                    Some(u) => r matches Ok(s) && s@ == u@,
                    None => r == Err::<String, PushError>(PushError::RemoteNotFound),
                },
            },
    {
        match &self.remote {
            Some(n) => Ok(n.clone()),
            None => match upstream {
                Some(u) => Ok(u),
                None => Err(PushError::RemoteNotFound),
            },
        }
    }
}

/// Decides how to answer a remote that asks for credentials: only a key from
/// the local SSH agent is offered, for the user that the remote's URL names.
/// Returns that user.
pub fn credential_user(ssh_key_allowed: bool, username_from_url: Option<String>) -> (r: Result<
    String,
    PushError,
>)
    ensures
        !ssh_key_allowed ==> r == Err::<String, PushError>(PushError::UnsupportedCredentialType),
        ssh_key_allowed && username_from_url is None ==> r == Err::<String, PushError>(PushError::MissingUsername),
        ssh_key_allowed && username_from_url is Some ==> (r matches Ok(u) && u@ == username_from_url->0@),
{
    if !ssh_key_allowed {
        Err(PushError::UnsupportedCredentialType)
    } else {
        match username_from_url {
            Some(u) => Ok(u),
            None => Err(PushError::MissingUsername),
        }
    }
}

/// One reference update that a push is about to perform.
#[derive(Debug)]
pub struct RefUpdate {
    pub src_refname: String,
    pub src: CommitId,
    pub dst_refname: String,
    pub dst: CommitId,
}

/// The line that reports an update: each side's reference and commit id.
pub open spec fn update_line_spec(u: RefUpdate) -> Seq<char> {
    u.src_refname@ + " ("@ + hex_of(u.src@) + ") -> "@ + u.dst_refname@ + " ("@ + hex_of(u.dst@) + ")"@
}

impl RefUpdate {
    /// Describes the update as `update_line_spec` states.
    pub fn describe(&self) -> (r: String)
        ensures
            r@ == update_line_spec(*self),
    {
        let mut out = self.src_refname.clone();
        out.append(" (");
        out.append(self.src.to_hex().as_str());
        out.append(") -> ");
        out.append(self.dst_refname.as_str());
        out.append(" (");
        out.append(self.dst.to_hex().as_str());
        out.append(")");
        out
    }
}

/// The lines that report the updates a push negotiated, in order.
pub fn negotiate(updates: &Vec<RefUpdate>) -> (r: Vec<String>)
    ensures
        r@.len() == updates@.len(),
        forall|i: int| 0 <= i < r@.len() ==> (#[trigger] r@[i])@ == update_line_spec(updates@[i]),
{
    let mut out: Vec<String> = Vec::new();
    let mut i: usize = 0;
    while i < updates.len()
        invariant
            i <= updates@.len(),
            out@.len() == i,
            forall|j: int| 0 <= j < i ==> (#[trigger] out@[j])@ == update_line_spec(updates@[j]),
        decreases updates@.len() - i,
    {
        out.push(updates[i].describe());
        i = i + 1;
    }
    out
}

/// Each entry that carries a local branch gives exactly one refspec and the
/// others none, so a stack never gives more refspecs than it has entries.
pub proof fn lemma_one_refspec_per_branch(entries: Seq<EntryView>, full: Seq<Option<Seq<char>>>, force: bool, n: int)
    requires
        0 <= n <= entries.len(),
        full.len() == entries.len(),
        forall|i: int| 0 <= i < n ==> !unresolved(entries, full, i),
    ensures
        plan_upto(entries, full, force, n).len() == labelled_upto(entries, n),
        labelled_upto(entries, n) <= n,
    decreases n,
{
    if n > 0 {
        assert(!unresolved(entries, full, n - 1));
        lemma_one_refspec_per_branch(entries, full, force, n - 1);
    }
}

/// Forcing adds the force marker to every refspec and changes nothing else:
/// the same entries give refspecs, in the same order.
pub proof fn lemma_force_only_marks(entries: Seq<EntryView>, full: Seq<Option<Seq<char>>>, n: int)
    requires
        0 <= n <= entries.len(),
        full.len() == entries.len(),
    ensures
        plan_upto(entries, full, true, n).len() == plan_upto(entries, full, false, n).len(),
        forall|k: int| 0 <= k < plan_upto(entries, full, false, n).len() ==>
            #[trigger] plan_upto(entries, full, true, n)[k] == "+"@ + plan_upto(entries, full, false, n)[k],
    decreases n,
{
    if n > 0 {
        lemma_force_only_marks(entries, full, n - 1);
        let a = plan_upto(entries, full, true, n);
        let b = plan_upto(entries, full, false, n);
        if entries[n - 1].local_branch is Some && full[n - 1] is Some {
            let f = full[n - 1]->0;
            assert(refspec_spec(f, true) =~= "+"@ + refspec_spec(f, false));
        }
    }
}

} // verus!
