use vstd::prelude::*;
use crate::tree::{Entry, path_view, tree_view, published, rebuild, same_tree, distinct_paths, lemma_publish_idempotent};

verus! {

/// How many times a publish is tried when pushes lose the race to other publishers.
pub const MAX_ATTEMPTS: u32 = 3;

/// One publish attempt, consumed once by a [`Publisher`].
pub struct PublishRequest {
    pub commit_message: String,
    pub remote: String,
    pub target_branch: String,
    pub sub_path: Vec<String>,
    pub local_docs: Vec<Entry>,
    pub clobber_index: bool,
}

/// The tip of the target branch as fetched: its commit and its files.
pub struct Snapshot {
    pub commit: String,
    pub tree: Vec<Entry>,
}

/// A failure of fetching the target branch.
#[derive(Debug, Clone, Copy, PartialEq, Eq, Structural)]
pub enum FetchFault {
    Auth,
    Transport,
}

/// What the remote answered to a push.
#[derive(Debug, Clone, Copy, PartialEq, Eq, Structural)]
pub enum PushOutcome {
    Accepted,
    NonFastForward,
    AuthFailure,
    PolicyRejected,
    TransportFailure,
}

/// What the outside world reports back to the engine.
pub enum Event {
    Fetched(Option<Snapshot>),
    FetchFailed(FetchFault),
    Committed(String),
    CommitFailed,
    Pushed(PushOutcome),
}

/// Why a publish failed.
#[derive(Debug, Clone, Copy, PartialEq, Eq, Structural)]
pub enum PublishError {
    InvalidSubPath,
    Auth,
    PushRejected,
    Transport,
    CommitFailed,
    RaceConflict,
    UnexpectedEvent,
}

/// What the engine asks the outside world to do next.
pub enum Action {
    /// Fetch the tip of the target branch.
    Fetch,
    /// Write `tree` as a commit with `message`, on `parent` or as a new root.
    Commit { tree: Vec<Entry>, parent: Option<String>, message: String },
    /// Push `commit` to the target branch.
    Push { commit: String },
    /// The publish succeeded with this commit.
    Done { commit: String },
    /// The branch already held exactly this tree at `commit`: nothing was committed.
    Unchanged { commit: String },
    /// The publish failed.
    Fail(PublishError),
}

/// Where a publish stands.
#[derive(Debug, Clone, Copy, PartialEq, Eq, Structural)]
pub enum Phase {
    Fetching,
    Committing,
    Pushing,
    Finished,
}

/// The publish engine: fetch, rebuild the tree, commit, push, and fetch again when
/// another publisher won the race, at most [`MAX_ATTEMPTS`] times in all.
pub struct Publisher {
    pub request: PublishRequest,
    pub phase: Phase,
    pub attempts: u32,
    pub pending: Option<String>,
}

/// A path that names a subtree: at least one component, none empty, `.` or `..`.
pub open spec fn valid_sub_path(p: Seq<Seq<char>>) -> bool {
    p.len() > 0 && forall|i: int|
        0 <= i < p.len() ==> p[i].len() > 0 && p[i] != seq!['.'] && p[i] != seq!['.', '.']
}

/// The failure that a failed fetch stands for.
pub open spec fn fetch_error(f: FetchFault) -> PublishError {
    match f {
        FetchFault::Auth => PublishError::Auth,
        FetchFault::Transport => PublishError::Transport,
    }
}

/// The failure that a refused push stands for, other than a lost race.
pub open spec fn push_error(o: PushOutcome) -> PublishError {
    match o {
        PushOutcome::AuthFailure => PublishError::Auth,
        PushOutcome::PolicyRejected => PublishError::PushRejected,
        _ => PublishError::Transport,
    }
}

/// The tree that a publish of `req` makes over `base` (`None`: no branch yet).
pub open spec fn target_tree(req: PublishRequest, base: Option<Snapshot>) -> Map<Seq<Seq<char>>, Seq<u8>> {
    let old = match base {
        Some(s) => tree_view(s.tree@),
        None => Map::empty(),
    };
    published(old, path_view(req.sub_path@), tree_view(req.local_docs@), req.clobber_index)
}

/// Whether the fetched tree, if any, lists each path once.
pub open spec fn base_distinct(base: Option<Snapshot>) -> bool {
    match base {
        Some(s) => distinct_paths(s.tree@),
        None => true,
    }
}

/// Whether the branch tip `base` already holds the tree that publishing `req` makes.
pub open spec fn unchanged_by(req: PublishRequest, base: Option<Snapshot>) -> bool {
    match base {
        Some(s) => target_tree(req, base) == tree_view(s.tree@),
        None => false,
    }
}

/// Publishing again what a publish just left on the branch changes nothing: the
/// engine then makes no commit.
pub proof fn lemma_republish_unchanged(req: PublishRequest, earlier: Option<Snapshot>, tip: Snapshot)
    requires
        tree_view(tip.tree@) == target_tree(req, earlier),
    ensures
        unchanged_by(req, Some(tip)),
{
    let old = match earlier {
        Some(s) => tree_view(s.tree@),
        None => Map::empty(),
    };
    lemma_publish_idempotent(old, path_view(req.sub_path@), tree_view(req.local_docs@), req.clobber_index);
}

/// Whether `a` commits the tree that publishing `req` over `base` makes.
pub open spec fn commits_publish(a: Action, req: PublishRequest, base: Option<Snapshot>) -> bool {
    match a {
        Action::Commit { tree, parent, message } => {
            &&& tree_view(tree@) == target_tree(req, base)
            &&& distinct_paths(req.local_docs@) && base_distinct(base) ==> distinct_paths(tree@)
            &&& message@ == req.commit_message@
            &&& parent == match base {
                Some(s) => Some(s.commit),
                None => None,
            }
        },
        _ => false,
    }
}

/// Whether `a` ends the publish with error `e`.
pub open spec fn fails_with(a: Action, e: PublishError) -> bool {
    match a {
        Action::Fail(x) => x == e,
        _ => false,
    }
}

impl Publisher {
    /// The engine's own invariant.
    pub open spec fn wf(&self) -> bool {
        &&& 1 <= self.attempts <= MAX_ATTEMPTS
        &&& (self.phase == Phase::Pushing) == self.pending.is_some()
    }

    /// Starts a publish: asks for a fetch, or fails at once when the sub-path names
    /// no subtree.
    pub fn new(request: PublishRequest) -> (r: (Publisher, Action))
        ensures
            r.0.wf(),
            r.0.request == request,
            r.0.attempts == 1,
            valid_sub_path(path_view(request.sub_path@)) ==> r.0.phase == Phase::Fetching && r.1 is Fetch,
            !valid_sub_path(path_view(request.sub_path@)) ==> r.0.phase == Phase::Finished
                && fails_with(r.1, PublishError::InvalidSubPath),
    {
        let ok = check_sub_path(&request.sub_path);
        let phase = if ok { Phase::Fetching } else { Phase::Finished };
        let action = if ok { Action::Fetch } else { Action::Fail(PublishError::InvalidSubPath) };
        (Publisher { request, phase, attempts: 1, pending: None }, action)
    }

    fn finish(&mut self, e: PublishError) -> (a: Action)
        requires
            old(self).wf(),
        ensures
            final(self).wf(),
            final(self).request == old(self).request,
            final(self).attempts == old(self).attempts,
            final(self).phase == Phase::Finished,
            fails_with(a, e),
    {
        self.phase = Phase::Finished;
        self.pending = None;
        Action::Fail(e)
    }

    /// Takes the next report of the outside world and says what to do next.
    pub fn step(&mut self, event: Event) -> (a: Action)
        requires
            old(self).wf(),
        ensures
            final(self).wf(),
            final(self).request == old(self).request,
            match (old(self).phase, event) {
                (Phase::Fetching, Event::Fetched(base)) => {
                    if unchanged_by(old(self).request, base) {
                        &&& final(self).phase == Phase::Finished
                        &&& a == Action::Unchanged { commit: base.unwrap().commit }
                    } else {
                        &&& final(self).phase == Phase::Committing
                        &&& final(self).attempts == old(self).attempts
                        &&& commits_publish(a, old(self).request, base)
                    }
                },
                (Phase::Fetching, Event::FetchFailed(f)) => {
                    final(self).phase == Phase::Finished && fails_with(a, fetch_error(f))
                },
                (Phase::Committing, Event::Committed(c)) => {
                    &&& final(self).phase == Phase::Pushing
                    &&& final(self).attempts == old(self).attempts
                    &&& final(self).pending == Some(c)
                    &&& a == Action::Push { commit: c }
                },
                (Phase::Committing, Event::CommitFailed) => {
                    final(self).phase == Phase::Finished && fails_with(a, PublishError::CommitFailed)
                },
                (Phase::Pushing, Event::Pushed(PushOutcome::Accepted)) => {
                    final(self).phase == Phase::Finished && a == Action::Done { commit: old(self).pending.unwrap() }
                },
                (Phase::Pushing, Event::Pushed(PushOutcome::NonFastForward)) => {
                    if old(self).attempts < MAX_ATTEMPTS {
                        &&& final(self).phase == Phase::Fetching
                        &&& final(self).attempts == old(self).attempts + 1
                        &&& a is Fetch
                    } else {
                        final(self).phase == Phase::Finished && fails_with(a, PublishError::RaceConflict)
                    }
                },
                (Phase::Pushing, Event::Pushed(o)) => {
                    final(self).phase == Phase::Finished && fails_with(a, push_error(o))
                },
                _ => final(self).phase == Phase::Finished && fails_with(a, PublishError::UnexpectedEvent),
            },
    {
        match (self.phase, event) {
            (Phase::Fetching, Event::Fetched(base)) => {
                let tree = match &base {
                    Some(s) => rebuild(&s.tree, &self.request.sub_path, &self.request.local_docs, self.request.clobber_index),
                    None => rebuild(&Vec::new(), &self.request.sub_path, &self.request.local_docs, self.request.clobber_index),
                };
                let parent = match base {
                    Some(s) => {
                        if same_tree(&tree, &s.tree) {
                            self.phase = Phase::Finished;
                            return Action::Unchanged { commit: s.commit };
                        }
                        Some(s.commit)
                    },
                    None => None,
                };
                self.phase = Phase::Committing;
                Action::Commit { tree, parent, message: self.request.commit_message.clone() }
            },
            (Phase::Fetching, Event::FetchFailed(f)) => {
                let e = match f {
                    FetchFault::Auth => PublishError::Auth,
                    FetchFault::Transport => PublishError::Transport,
                };
                self.finish(e)
            },
            (Phase::Committing, Event::Committed(c)) => {
                self.phase = Phase::Pushing;
                self.pending = Some(c.clone());
                Action::Push { commit: c }
            },
            (Phase::Committing, Event::CommitFailed) => self.finish(PublishError::CommitFailed),
            (Phase::Pushing, Event::Pushed(o)) => {
                match o {
                    PushOutcome::Accepted => {
                        let c = match self.pending.take() {
                            Some(c) => c,
                            None => String::new(),
                        };
                        self.phase = Phase::Finished;
                        Action::Done { commit: c }
                    },
                    PushOutcome::NonFastForward => {
                        if self.attempts < MAX_ATTEMPTS {
                            self.attempts = self.attempts + 1;
                            self.phase = Phase::Fetching;
                            self.pending = None;
                            Action::Fetch
                        } else {
                            self.finish(PublishError::RaceConflict)
                        }
                    },
                    PushOutcome::AuthFailure => self.finish(PublishError::Auth),
                    PushOutcome::PolicyRejected => self.finish(PublishError::PushRejected),
                    PushOutcome::TransportFailure => self.finish(PublishError::Transport),
                }
            },
            _ => self.finish(PublishError::UnexpectedEvent),
        }
    }
}

/// Whether `p` names a subtree.
pub fn check_sub_path(p: &Vec<String>) -> (r: bool)
    ensures
        r == valid_sub_path(path_view(p@)),
{
    let mut dot = String::new();
    dot.append(".");
    let mut dot_dot = String::new();
    dot_dot.append("..");
    proof {
        reveal_strlit(".");
        reveal_strlit("..");
        assert(dot@ =~= seq!['.']);
        assert(dot_dot@ =~= seq!['.', '.']);
    }
    if p.len() == 0 {
        return false;
    }
    let mut i: usize = 0;
    while i < p.len()
        invariant
            i <= p@.len(),
            dot@ == seq!['.'],
            dot_dot@ == seq!['.', '.'],
            forall|j: int| 0 <= j < i ==> p@[j]@.len() > 0 && p@[j]@ != seq!['.'] && p@[j]@ != seq!['.', '.'],
        decreases p@.len() - i,
    {
        if p[i].as_str().is_empty() || p[i] == dot || p[i] == dot_dot {
            assert(path_view(p@)[i as int] == p@[i as int]@);
            return false;
        }
        i = i + 1;
    }
    assert forall|j: int| 0 <= j < path_view(p@).len() implies path_view(p@)[j].len() > 0
        && path_view(p@)[j] != seq!['.'] && path_view(p@)[j] != seq!['.', '.'] by {
        assert(path_view(p@)[j] == p@[j]@);
    }
    true
}

} // verus!
