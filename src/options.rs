use vstd::prelude::*;
use crate::policy::{Decision, SkipReason, decide, evaluate, names_view};

verus! {

/// The command-line flags.
pub struct Options {
    pub flag_version: bool,
    pub flag_branch: Vec<String>,
    pub flag_token: Option<String>,
    pub flag_message: Option<String>,
    pub flag_deploy: Option<String>,
    pub flag_path: Option<String>,
    pub flag_clobber_index: bool,
    pub flag_target: Option<String>,
}

/// What the CI environment says about this build.
pub struct CiContext {
    pub branch: Option<String>,
    pub pull_request: Option<String>,
    pub repo_slug: Option<String>,
    pub gh_token: Option<String>,
}

/// A CI variable that a run needs.
#[derive(Debug, Clone, Copy, PartialEq, Eq, Structural)]
pub enum CiVar {
    Branch,
    PullRequest,
    RepoSlug,
}

/// Everything a publish needs, resolved from flags and environment.
pub struct Settings {
    pub message: String,
    pub origin: String,
    pub ssh_fallback: bool,
    pub deploy_branch: String,
    pub path: String,
    pub local_doc_path: String,
    pub clobber_index: bool,
}

/// What a run does.
pub enum Plan {
    ShowVersion,
    Missing(CiVar),
    Skip(SkipReason),
    Publish(Settings),
}

pub open spec fn opt_view(o: Option<String>) -> Option<Seq<char>> {
    match o {
        Some(s) => Some(s@),
        None => None,
    }
}

/// The remote to push to: HTTPS with the token when there is one, else SSH.
pub open spec fn remote_url(token: Option<Seq<char>>, slug: Seq<char>) -> Seq<char> {
    match token {
        Some(t) => "https://"@ + t + "@github.com/"@ + slug + ".git"@,
        None => "git@github.com:"@ + slug + ".git"@,
    }
}

/// Where the built documentation lies.
pub open spec fn doc_dir(target: Option<Seq<char>>) -> Seq<char> {
    match target {
        Some(t) => "target/"@ + t + "/doc"@,
        None => "target/doc"@,
    }
}

/// The value given, or the default.
pub open spec fn or_default(o: Option<Seq<char>>, d: Seq<char>) -> Seq<char> {
    match o {
        Some(s) => s,
        None => d,
    }
}

/// The flag's token, else the environment's.
pub open spec fn token_of(flag: Option<Seq<char>>, env: Option<Seq<char>>) -> Option<Seq<char>> {
    if flag is Some { flag } else { env }
}

/// Whether the pull-request variable marks a pull request.
pub open spec fn marks_pull_request(v: Seq<char>) -> bool {
    v != "false"@
}

/// Whether `s` are the settings that the flags and the environment resolve to.
pub open spec fn settles(s: Settings, o: Options, branch: Seq<char>, slug: Seq<char>, env_token: Option<Seq<char>>) -> bool {
    let token = token_of(opt_view(o.flag_token), env_token);
    &&& s.message@ == or_default(opt_view(o.flag_message), "Automatic Travis documentation build"@)
    &&& s.origin@ == remote_url(token, slug)
    &&& s.ssh_fallback == (token is None)
    &&& s.deploy_branch@ == or_default(opt_view(o.flag_deploy), "gh-pages"@)
    &&& s.path@ == or_default(opt_view(o.flag_path), branch)
    &&& s.local_doc_path@ == doc_dir(opt_view(o.flag_target))
    &&& s.clobber_index == o.flag_clobber_index
}

fn text(s: &str) -> (r: String)
    ensures
        r@ == s@,
{
    let mut r = String::new();
    r.append(s);
    r
}

fn value_or(o: Option<String>, d: &str) -> (r: String)
    ensures
        r@ == or_default(opt_view(o), d@),
{
    match o {
        Some(s) => s,
        None => text(d),
    }
}

/// The remote URL for a token, or the SSH endpoint when there is none.
pub fn origin_url(token: &Option<String>, slug: &String) -> (r: String)
    ensures
        r@ == remote_url(opt_view(*token), slug@),
{
    let mut r = String::new();
    match token {
        Some(t) => {
            r.append("https://");
            r.append(t.as_str());
            r.append("@github.com/");
        },
        None => {
            r.append("git@github.com:");
        },
    }
    r.append(slug.as_str());
    r.append(".git");
    r
}

/// The directory of the built documentation for a target triple.
pub fn local_doc_dir(target: &Option<String>) -> (r: String)
    ensures
        r@ == doc_dir(opt_view(*target)),
{
    match target {
        Some(t) => {
            let mut r = String::new();
            r.append("target/");
            r.append(t.as_str());
            r.append("/doc");
            r
        },
        None => text("target/doc"),
    }
}

/// Whether the pull-request variable marks a pull request.
pub fn is_pull_request(v: &String) -> (r: bool)
    ensures
        r == marks_pull_request(v@),
{
    let f = text("false");
    *v != f
}

/// Decides what a run does from its flags and its CI environment.
pub fn plan(options: Options, ctx: CiContext) -> (r: Plan)
    ensures
        options.flag_version ==> r is ShowVersion,
        !options.flag_version ==> match (ctx.branch, ctx.pull_request, ctx.repo_slug) {
            (None, _, _) => r == Plan::Missing(CiVar::Branch),
            (Some(b), pr, slug) => match decide(names_view(options.flag_branch@), b@, false) {
                Decision::Skip(reason) => r == Plan::Skip(reason),
                _ => match pr {
                    None => r == Plan::Missing(CiVar::PullRequest),
                    Some(p) => if marks_pull_request(p@) {
                        r == Plan::Skip(SkipReason::IsPullRequest)
                    } else {
                        match slug {
                            None => r == Plan::Missing(CiVar::RepoSlug),
                            Some(sl) => match r {
                                Plan::Publish(s) => settles(s, options, b@, sl@, opt_view(ctx.gh_token)),
                                _ => false,
                            },
                        }
                    },
                },
            },
        },
{
    if options.flag_version {
        return Plan::ShowVersion;
    }
    let branch = match ctx.branch {
        Some(b) => b,
        None => return Plan::Missing(CiVar::Branch),
    };
    match evaluate(&options.flag_branch, &branch, false) {
        Decision::Skip(reason) => return Plan::Skip(reason),
        Decision::Proceed => {},
    }
    let pr = match ctx.pull_request {
        Some(p) => p,
        None => return Plan::Missing(CiVar::PullRequest),
    };
    if is_pull_request(&pr) {
        return Plan::Skip(SkipReason::IsPullRequest);
    }
    let slug = match ctx.repo_slug {
        Some(s) => s,
        None => return Plan::Missing(CiVar::RepoSlug),
    };
    let token = match options.flag_token {
        Some(t) => Some(t),
        None => ctx.gh_token,
    };
    let origin = origin_url(&token, &slug);
    let ssh_fallback = token.is_none();
    let path = value_or(options.flag_path, branch.as_str());
    Plan::Publish(Settings {
        message: value_or(options.flag_message, "Automatic Travis documentation build"),
        origin,
        ssh_fallback,
        deploy_branch: value_or(options.flag_deploy, "gh-pages"),
        path,
        local_doc_path: local_doc_dir(&options.flag_target),
        clobber_index: options.flag_clobber_index,
    })
}

} // verus!
