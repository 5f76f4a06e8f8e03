use vstd::prelude::*;

verus! {

/// Why a CI invocation does not publish.
#[derive(Debug, Clone, Copy, PartialEq, Eq, Structural)]
pub enum SkipReason {
    NotAllowedBranch,
    IsPullRequest,
}

/// Outcome of the trigger policy.
#[derive(Debug, Clone, Copy, PartialEq, Eq, Structural)]
pub enum Decision {
    Proceed,
    Skip(SkipReason),
}

/// The branch that is eligible when no allowlist is given.
pub open spec fn default_branch() -> Seq<char> {
    seq!['m', 'a', 's', 't', 'e', 'r']
}

/// The allowlist in force: the given branches, or the default branch when none is given.
pub open spec fn effective_allowed(allowed: Seq<Seq<char>>) -> Set<Seq<char>> {
    if allowed.len() == 0 {
        set![default_branch()]
    } else {
        allowed.to_set()
    }
}

/// The decision for a CI context. The branch is checked before the pull-request flag.
pub open spec fn decide(allowed: Seq<Seq<char>>, current: Seq<char>, is_pull_request: bool) -> Decision {
    if current.len() == 0 || !effective_allowed(allowed).contains(current) {
        Decision::Skip(SkipReason::NotAllowedBranch)
    } else if is_pull_request {
        Decision::Skip(SkipReason::IsPullRequest)
    } else {
        Decision::Proceed
    }
}

/// A branch outside the allowlist in force is skipped as not allowed, whatever the
/// pull-request flag says.
pub proof fn lemma_not_allowed_branch_skips(allowed: Seq<Seq<char>>, current: Seq<char>, is_pull_request: bool)
    requires
        !effective_allowed(allowed).contains(current),
    ensures
        decide(allowed, current, is_pull_request) == Decision::Skip(SkipReason::NotAllowedBranch),
{
}

/// A pull request on an allowed branch is skipped as a pull request.
pub proof fn lemma_pull_request_skips(allowed: Seq<Seq<char>>, current: Seq<char>)
    requires
        current.len() > 0,
        effective_allowed(allowed).contains(current),
    ensures
        decide(allowed, current, true) == Decision::Skip(SkipReason::IsPullRequest),
{
}

/// The string view of each branch name.
pub open spec fn names_view(v: Seq<String>) -> Seq<Seq<char>> {
    v.map_values(|s: String| s@)
}

/// The name of the default branch.
pub fn default_branch_name() -> (r: String)
    ensures
        r@ == default_branch(),
{
    let mut r = String::new();
    r.append("master");
    proof {
        reveal_strlit("master");
        assert(r@ =~= default_branch());
    }
    r
}

/// Whether `name` is one of `names`.
pub fn contains_name(names: &Vec<String>, name: &String) -> (r: bool)
    ensures
        r == names_view(names@).contains(name@),
{
    let mut i: usize = 0;
    while i < names.len()
        invariant
            i <= names@.len(),
            forall|j: int| 0 <= j < i ==> names@[j]@ != name@,
        decreases names@.len() - i,
    {
        if names[i] == *name {
            assert(names_view(names@)[i as int] == name@);
            return true;
        }
        i = i + 1;
    }
    proof {
        if names_view(names@).contains(name@) {
            let j = choose|j: int| 0 <= j < names_view(names@).len() && names_view(names@)[j] == name@;
            assert(names@[j]@ == name@);
        }
    }
    false
}

/// Decides whether this CI invocation publishes.
pub fn evaluate(allowed: &Vec<String>, current: &String, is_pull_request: bool) -> (r: Decision)
    ensures
        r == decide(names_view(allowed@), current@, is_pull_request),
{
    let listed = if allowed.len() == 0 {
        let d = default_branch_name();
        proof {
            assert(set![default_branch()].contains(current@) <==> current@ == d@);
        }
        *current == d
    } else {
        let b = contains_name(allowed, current);
        proof {
            assert(names_view(allowed@).to_set().contains(current@) <==> names_view(allowed@).contains(current@));
        }
        b
    };
    if current.as_str().is_empty() || !listed {
        Decision::Skip(SkipReason::NotAllowedBranch)
    } else if is_pull_request {
        Decision::Skip(SkipReason::IsPullRequest)
    } else {
        Decision::Proceed
    }
}

} // verus!
