//! Values exchanged with GitHub, and the address of its GraphQL endpoint.

use vstd::prelude::*;
use crate::forge::GithubAccountIdentifier;
use crate::chars::{
    append, ends_with, from_chars, has_suffix, same_text, slice, to_chars, trim_end_char,
    trim_end_char_spec,
};
use crate::snapshot::opt_view;

verus! {

/// The global node id of a pull request.
pub struct PullRequestNodeId {
    id: String,
}

impl PullRequestNodeId {
    /// The text of the id.
    pub closed spec fn spec_id(&self) -> Seq<char> {
        self.id@
    }

    /// The node id with the given text.
    pub fn from_string(value: String) -> (r: Self)
        ensures
            r.spec_id() == value@,
    {
        PullRequestNodeId { id: value }
    }

    /// The text of the id.
    pub fn as_string(&self) -> (r: String)
        ensures
            r@ == self.spec_id(),
    {
        self.id.clone()
    }
}

pub struct CreatePullRequestParams<'a> {
    pub title: &'a str,
    pub body: &'a str,
    pub head: &'a str,
    pub base: &'a str,
    pub draft: bool,
    pub owner: &'a str,
    pub repo: &'a str,
}

pub struct UpdatePullRequestParams<'a> {
    pub owner: &'a str,
    pub repo: &'a str,
    pub pr_number: i64,
    pub title: Option<&'a str>,
    pub body: Option<&'a str>,
    pub base: Option<&'a str>,
    pub state: Option<&'a str>,
}

/// How a pull request is merged.
#[derive(Debug, Clone, Copy, PartialEq, Eq, Structural)]
pub enum MergeMethod {
    Merge,
    Squash,
    Rebase,
}

impl Default for MergeMethod {
    fn default() -> (r: Self)
        ensures
            r == MergeMethod::Merge,
    {
        MergeMethod::Merge
    }
}

/// A merge method as the GraphQL interface names it.
#[derive(Debug, Clone, Copy, PartialEq, Eq, Structural)]
pub enum GraphQlMergeMethod {
    Merge,
    Squash,
    Rebase,
}

impl MergeMethod {
    /// The name of the method in the REST interface.
    pub open spec fn spec_name(&self) -> Seq<char> {
        match self {
            MergeMethod::Merge => "merge"@,
            MergeMethod::Rebase => "rebase"@,
            MergeMethod::Squash => "squash"@,
        }
    }

    /// The name of the method in the REST interface.
    pub fn as_str(&self) -> (r: &'static str)
        ensures
            r@ == self.spec_name(),
    {
        match self {
            MergeMethod::Merge => "merge",
            MergeMethod::Rebase => "rebase",
            MergeMethod::Squash => "squash",
        }
    }

    /// The same method as the GraphQL interface names it.
    pub fn to_graphql(&self) -> (r: GraphQlMergeMethod)
        ensures
            r == (match self {
                MergeMethod::Merge => GraphQlMergeMethod::Merge,
                MergeMethod::Squash => GraphQlMergeMethod::Squash,
                MergeMethod::Rebase => GraphQlMergeMethod::Rebase,
            }),
    {
        match self {
            MergeMethod::Merge => GraphQlMergeMethod::Merge,
            MergeMethod::Squash => GraphQlMergeMethod::Squash,
            MergeMethod::Rebase => GraphQlMergeMethod::Rebase,
        }
    }
}

impl GraphQlMergeMethod {
    /// The name of the method in the GraphQL interface.
    pub fn as_str(&self) -> (r: &'static str)
        ensures
            r@ == (match self {
                GraphQlMergeMethod::Merge => "MERGE"@,
                GraphQlMergeMethod::Squash => "SQUASH"@,
                GraphQlMergeMethod::Rebase => "REBASE"@,
            }),
    {
        match self {
            GraphQlMergeMethod::Merge => "MERGE",
            GraphQlMergeMethod::Squash => "SQUASH",
            GraphQlMergeMethod::Rebase => "REBASE",
        }
    }
}

#[derive(Debug, Clone)]
pub struct MergePullRequestParams<'a> {
    pub owner: &'a str,
    pub repo: &'a str,
    pub pr_number: i64,
    pub commit_title: Option<&'a str>,
    pub commit_message: Option<&'a str>,
    pub merge_method: Option<MergeMethod>,
}

#[derive(Debug, Clone)]
pub struct SetPullRequestDraftStateParams<'a> {
    pub owner: &'a str,
    pub repo: &'a str,
    pub pr_number: i64,
    pub draft: bool,
}

#[derive(Debug, Clone)]
pub struct AutoMergeEnableParams<'a> {
    pub merge_method: Option<MergeMethod>,
    pub expected_head_oid: Option<&'a str>,
    pub commit_headline: Option<&'a str>,
    pub commit_body: Option<&'a str>,
    pub author_email: Option<&'a str>,
}

#[derive(Debug, Clone)]
pub enum AutoMergeState<'a> {
    Disabled,
    Enabled(AutoMergeEnableParams<'a>),
}

impl<'a> AutoMergeState<'a> {
    /// The state that a switch asks for: enabled with nothing set, or
    /// disabled.
    pub fn from_enabled(value: bool) -> (r: Self)
        ensures
            value ==> (r matches AutoMergeState::Enabled(p) && p.merge_method is None
                && p.expected_head_oid is None && p.commit_headline is None && p.commit_body
                is None && p.author_email is None),
            !value ==> r is Disabled,
    {
        if value {
            AutoMergeState::Enabled(
                AutoMergeEnableParams {
                    merge_method: None,
                    expected_head_oid: None,
                    commit_headline: None,
                    commit_body: None,
                    author_email: None,
                },
            )
        } else {
            AutoMergeState::Disabled
        }
    }
}

#[derive(Debug, Clone)]
pub struct SetPullRequestAutoMergeParams<'a> {
    pub owner: &'a str,
    pub repo: &'a str,
    pub pr_number: i64,
    pub state: AutoMergeState<'a>,
}

#[derive(Debug)]
pub struct AuthenticatedUser {
    pub login: String,
    pub avatar_url: Option<String>,
    pub name: Option<String>,
    pub email: Option<String>,
}

#[derive(Debug, Clone)]
pub struct CheckRun {
    pub id: i64,
    pub name: String,
    pub status: String,
    pub conclusion: Option<String>,
    pub html_url: Option<String>,
    pub head_sha: Option<String>,
    pub started_at: Option<String>,
    pub completed_at: Option<String>,
    pub url: Option<String>,
    pub details_url: Option<String>,
}

#[derive(Debug)]
pub struct GitHubUser {
    pub id: i64,
    pub login: String,
    pub name: Option<String>,
    pub email: Option<String>,
    pub avatar_url: Option<String>,
    pub is_bot: bool,
}

/// A user as the REST interface describes it.
#[derive(Debug)]
pub struct GitHubApiUser {
    pub id: i64,
    pub login: String,
    pub name: Option<String>,
    pub email: Option<String>,
    pub avatar_url: Option<String>,
    pub user_type: Option<String>,
}

impl GitHubUser {
    /// The user that the REST interface describes; a bot is a user whose
    /// type is `bot`.
    pub fn from_api(user: GitHubApiUser) -> (r: Self)
        ensures
            r.id == user.id,
            r.login@ == user.login@,
            opt_view(r.name) == opt_view(user.name),
            opt_view(r.email) == opt_view(user.email),
            opt_view(r.avatar_url) == opt_view(user.avatar_url),
            r.is_bot == (opt_view(user.user_type) == Some("bot"@)),
    {
        let is_bot = match &user.user_type {
            Some(t) => same_text(&to_chars(t.as_str()), &to_chars("bot")),
            None => false,
        };
        GitHubUser {
            id: user.id,
            login: user.login,
            name: user.name,
            email: user.email,
            avatar_url: user.avatar_url,
            is_bot,
        }
    }
}

#[derive(Debug)]
pub struct GitHubPrLabel {
    pub id: i64,
    pub name: String,
    pub description: Option<String>,
    pub color: Option<String>,
}

#[derive(Debug)]
pub struct PullRequest {
    pub html_url: String,
    pub number: i64,
    pub title: String,
    pub body: Option<String>,
    pub author: Option<GitHubUser>,
    pub labels: Vec<GitHubPrLabel>,
    pub draft: bool,
    pub source_branch: String,
    pub target_branch: String,
    pub sha: String,
    pub created_at: Option<String>,
    pub modified_at: Option<String>,
    pub merged_at: Option<String>,
    pub closed_at: Option<String>,
    pub repository_ssh_url: Option<String>,
    pub repository_https_url: Option<String>,
    pub repo_owner: Option<String>,
    pub requested_reviewers: Vec<GitHubUser>,
}

/// The address of the public GitHub interface.
pub open spec fn github_api_base_url() -> Seq<char> {
    "https://api.github.com"@
}

/// The address of the GraphQL endpoint that belongs to a REST base
/// address.
///
/// Trailing slashes do not count. An Enterprise address that ends in
/// `/api/v3` has its endpoint at `/api/graphql` beside it. The public
/// address has it at `/graphql`. An address that names a GraphQL endpoint
/// already is that endpoint. Any other address gets `/graphql` appended.
pub open spec fn graphql_endpoint_spec(base_url: Seq<char>) -> Seq<char> {
    let base = trim_end_char_spec(base_url, '/');
    if ends_with(base, "/api/v3"@) {
        base.take(base.len() - "/api/v3"@.len()) + "/api/graphql"@
    } else if base == github_api_base_url() {
        base + "/graphql"@
    } else if ends_with(base, "/graphql"@) || ends_with(base, "/api/graphql"@) {
        base
    } else {
        base + "/graphql"@
    }
}

/// Compute the address of the GraphQL endpoint from a REST base address.
pub fn graphql_endpoint_from_base_url(base_url: &str) -> (r: String)
    ensures
        r@ == graphql_endpoint_spec(base_url@),
{
    let base = trim_end_char(&to_chars(base_url), '/');
    let v3 = to_chars("/api/v3");
    if has_suffix(&base, &v3) {
        let mut text = slice(&base, 0, base.len() - v3.len());
        assert(text@ =~= base@.take(base@.len() - v3@.len()));
        append(&mut text, &to_chars("/api/graphql"));
        return from_chars(&text);
    }
    if same_text(&base, &to_chars("https://api.github.com")) {
        let mut text = base;
        append(&mut text, &to_chars("/graphql"));
        return from_chars(&text);
    }
    if has_suffix(&base, &to_chars("/graphql")) || has_suffix(&base, &to_chars("/api/graphql")) {
        return from_chars(&base);
    }
    let mut text = base;
    append(&mut text, &to_chars("/graphql"));
    from_chars(&text)
}

/// Why no account could be chosen.
#[derive(Debug, Clone, Copy, PartialEq, Eq, Structural)]
pub enum ResolveAccountError {
    /// No account has authenticated.
    NoKnownAccounts,
    /// The preferred account has not authenticated.
    PreferredAccountUnknown,
}

impl ResolveAccountError {
    /// The text of the error, where `account` is the text of the preferred
    /// account.
    pub fn to_string(&self, account: &str) -> (r: String)
        ensures
            r@ == (match self {
                ResolveAccountError::NoKnownAccounts => "No authenticated GitHub users found.\nRun 'but config forge auth' to authenticate with GitHub."@,
                ResolveAccountError::PreferredAccountUnknown => "Preferred GitHub account '"@ + account@
                    + "' has not authenticated yet.\nRun 'but config forge auth' to authenticate, or choose another account."@,
            }),
    {
        match self {
            ResolveAccountError::NoKnownAccounts => "No authenticated GitHub users found.\nRun 'but config forge auth' to authenticate with GitHub.".to_owned(),
            ResolveAccountError::PreferredAccountUnknown => {
                let mut text = to_chars("Preferred GitHub account '");
                append(&mut text, &to_chars(account));
                append(
                    &mut text,
                    &to_chars(
                        "' has not authenticated yet.\nRun 'but config forge auth' to authenticate, or choose another account.",
                    ),
                );
                from_chars(&text)
            },
        }
    }
}

/// The position among the known accounts of the account to use: that of
/// the preferred account where one is preferred, the first otherwise.
pub open spec fn resolve_account_spec(preferred: Option<GithubAccountIdentifier>, known: Seq<GithubAccountIdentifier>) -> Result<
    int,
    ResolveAccountError,
> {
    if known.len() == 0 {
        Err(ResolveAccountError::NoKnownAccounts)
    } else {
        match preferred {
            None => Ok(0),
            Some(p) => match first_same_account(p, known, 0) {
                Some(i) => Ok(i),
                None => Err(ResolveAccountError::PreferredAccountUnknown),
            },
        }
    }
}

/// The first position at or after `i` of an account that is the same as
/// `account`.
pub open spec fn first_same_account(account: GithubAccountIdentifier, known: Seq<GithubAccountIdentifier>, i: int) -> Option<int>
    decreases known.len() - i,
{
    if i < 0 || i >= known.len() {
        None
    } else if account.same_as(&known[i]) {
        Some(i)
    } else {
        first_same_account(account, known, i + 1)
    }
}

/// Choose the account to use among the known ones, and return its
/// position.
#[verifier::loop_isolation(false)]
pub fn resolve_account(preferred: Option<&GithubAccountIdentifier>, known_accounts: &Vec<GithubAccountIdentifier>) -> (r: Result<
    usize,
    ResolveAccountError,
>)
    ensures
        (match r {
            Ok(i) => Ok::<int, ResolveAccountError>(i as int),
            Err(e) => Err::<int, ResolveAccountError>(e),
        }) == resolve_account_spec(
            match preferred {
                Some(p) => Some(*p),
                None => None,
            },
            known_accounts@,
        ),
        r is Ok ==> r->Ok_0 < known_accounts.len(),
{
    if known_accounts.len() == 0 {
        return Err(ResolveAccountError::NoKnownAccounts);
    }
    let account = match preferred {
        Some(a) => a,
        None => {
            return Ok(0);
        },
    };
    let mut i: usize = 0;
    while i < known_accounts.len()
        invariant
            i <= known_accounts.len(),
            first_same_account(*account, known_accounts@, 0) == first_same_account(
                *account,
                known_accounts@,
                i as int,
            ),
        decreases known_accounts.len() - i,
    {
        if account.is_same(&known_accounts[i]) {
            return Ok(i);
        }
        i += 1;
    }
    Err(ResolveAccountError::PreferredAccountUnknown)
}

} // verus!
