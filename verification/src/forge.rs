//! Recognizing the forge that hosts a repository.
//!
//! The forge is read off the host of the remote URL where the host is a
//! well-known one, and otherwise found by comparing the host with the custom
//! hosts of the known accounts.

use vstd::prelude::*;
use crate::chars::{
    all_digits, contains, ends_with, find, find_any, find_any_from, find_from, from_chars,
    has_prefix, has_suffix, has_text, is_all_digits, lower_spec, rfind, rfind_char, same_text,
    slice, starts_with, to_chars, to_lower, trim, trim_end_char, trim_end_char_spec, trim_spec,
};
use git_url_parse::types::provider::GenericProvider;
use git_url_parse::GitUrl;

verus! {

/// A forge that the engine knows.
#[derive(Debug, Clone, Copy, PartialEq, Eq, Structural)]
pub enum ForgeName {
    GitHub,
    GitLab,
    Bitbucket,
    Azure,
}

/// How a GitHub account is known.
#[derive(Debug, Clone, PartialEq, Eq)]
pub enum GithubAccountIdentifier {
    /// An account authorized through OAuth.
    OAuthUsername { username: String },
    /// An account with a personal access token.
    PatUsername { username: String },
    /// An account on a GitHub Enterprise host.
    Enterprise { username: String, host: String },
}

/// How a GitLab account is known.
#[derive(Debug, Clone, PartialEq, Eq)]
pub enum GitlabAccountIdentifier {
    /// An account with a personal access token.
    PatUsername { username: String },
    /// An account on a self-hosted GitLab.
    SelfHosted { username: String, host: String },
}

/// A known account on some forge.
#[derive(Debug, Clone, PartialEq, Eq)]
pub enum ForgeUser {
    GitHub(GithubAccountIdentifier),
    GitLab(GitlabAccountIdentifier),
}

/// What a remote URL tells about the repository it names.
#[derive(Debug, Clone, PartialEq, Eq)]
pub struct ForgeRepoInfo {
    /// The forge that hosts the repository.
    pub forge: ForgeName,
    /// The owner of the repository.
    pub owner: String,
    /// The name of the repository.
    pub repo: String,
    /// The protocol of the URL.
    pub protocol: String,
}

impl GithubAccountIdentifier {
    /// An account authorized through OAuth.
    pub fn oauth(username: &str) -> (r: Self)
        ensures
            r.spec_custom_host() is None,
            r matches GithubAccountIdentifier::OAuthUsername { username: u } && u@ == username@,
    {
        GithubAccountIdentifier::OAuthUsername { username: username.to_owned() }
    }

    /// An account with a personal access token.
    pub fn pat(username: &str) -> (r: Self)
        ensures
            r.spec_custom_host() is None,
            r matches GithubAccountIdentifier::PatUsername { username: u } && u@ == username@,
    {
        GithubAccountIdentifier::PatUsername { username: username.to_owned() }
    }

    /// An account on a GitHub Enterprise host.
    pub fn enterprise(username: &str, host: &str) -> (r: Self)
        ensures
            r.spec_custom_host() == Some(host@),
            r matches GithubAccountIdentifier::Enterprise { username: u, host: h } && u@
                == username@ && h@ == host@,
    {
        GithubAccountIdentifier::Enterprise { username: username.to_owned(), host: host.to_owned() }
    }

    /// The custom host of the account, if it has one.
    pub open spec fn spec_custom_host(&self) -> Option<Seq<char>> {
        match self {
            GithubAccountIdentifier::Enterprise { username, host } => Some(host@),
            _ => None,
        }
    }

    /// Whether two identifiers name the same account: they are of the same
    /// kind and agree in their texts.
    pub open spec fn same_as(&self, other: &Self) -> bool {
        match (self, other) {
            (
                GithubAccountIdentifier::OAuthUsername { username: a },
                GithubAccountIdentifier::OAuthUsername { username: b },
            ) => a@ == b@,
            (
                GithubAccountIdentifier::PatUsername { username: a },
                GithubAccountIdentifier::PatUsername { username: b },
            ) => a@ == b@,
            (
                GithubAccountIdentifier::Enterprise { username: a, host: h },
                GithubAccountIdentifier::Enterprise { username: b, host: g },
            ) => a@ == b@ && h@ == g@,
            _ => false,
        }
    }

    /// Decide whether two identifiers name the same account.
    pub fn is_same(&self, other: &Self) -> (r: bool)
        ensures
            r == self.same_as(other),
    {
        match (self, other) {
            (
                GithubAccountIdentifier::OAuthUsername { username: a },
                GithubAccountIdentifier::OAuthUsername { username: b },
            ) => *a == *b,
            (
                GithubAccountIdentifier::PatUsername { username: a },
                GithubAccountIdentifier::PatUsername { username: b },
            ) => *a == *b,
            (
                GithubAccountIdentifier::Enterprise { username: a, host: h },
                GithubAccountIdentifier::Enterprise { username: b, host: g },
            ) => *a == *b && *h == *g,
            _ => false,
        }
    }

    /// The custom host of the account, if it has one.
    pub fn custom_host(&self) -> (r: Option<String>)
        ensures
            crate::snapshot::opt_view(r) == self.spec_custom_host(),
    {
        match self {
            GithubAccountIdentifier::Enterprise { username: _, host } => Some(host.clone()),
            _ => None,
        }
    }
}

impl GitlabAccountIdentifier {
    /// An account with a personal access token.
    pub fn pat(username: &str) -> (r: Self)
        ensures
            r.spec_custom_host() is None,
            r matches GitlabAccountIdentifier::PatUsername { username: u } && u@ == username@,
    {
        GitlabAccountIdentifier::PatUsername { username: username.to_owned() }
    }

    /// An account on a self-hosted GitLab.
    pub fn selfhosted(username: &str, host: &str) -> (r: Self)
        ensures
            r.spec_custom_host() == Some(host@),
            r matches GitlabAccountIdentifier::SelfHosted { username: u, host: h } && u@
                == username@ && h@ == host@,
    {
        GitlabAccountIdentifier::SelfHosted { username: username.to_owned(), host: host.to_owned() }
    }

    /// The custom host of the account, if it has one.
    pub open spec fn spec_custom_host(&self) -> Option<Seq<char>> {
        match self {
            GitlabAccountIdentifier::SelfHosted { username, host } => Some(host@),
            _ => None,
        }
    }

    /// Whether two identifiers name the same account: they are of the same
    /// kind and agree in their texts.
    pub open spec fn same_as(&self, other: &Self) -> bool {
        match (self, other) {
            (
                GitlabAccountIdentifier::PatUsername { username: a },
                GitlabAccountIdentifier::PatUsername { username: b },
            ) => a@ == b@,
            (
                GitlabAccountIdentifier::SelfHosted { username: a, host: h },
                GitlabAccountIdentifier::SelfHosted { username: b, host: g },
            ) => a@ == b@ && h@ == g@,
            _ => false,
        }
    }

    /// Decide whether two identifiers name the same account.
    pub fn is_same(&self, other: &Self) -> (r: bool)
        ensures
            r == self.same_as(other),
    {
        match (self, other) {
            (
                GitlabAccountIdentifier::PatUsername { username: a },
                GitlabAccountIdentifier::PatUsername { username: b },
            ) => *a == *b,
            (
                GitlabAccountIdentifier::SelfHosted { username: a, host: h },
                GitlabAccountIdentifier::SelfHosted { username: b, host: g },
            ) => *a == *b && *h == *g,
            _ => false,
        }
    }

    /// The custom host of the account, if it has one.
    pub fn custom_host(&self) -> (r: Option<String>)
        ensures
            crate::snapshot::opt_view(r) == self.spec_custom_host(),
    {
        match self {
            GitlabAccountIdentifier::SelfHosted { username: _, host } => Some(host.clone()),
            _ => None,
        }
    }
}

impl ForgeUser {
    /// The forge of the account.
    pub open spec fn forge(&self) -> ForgeName {
        match self {
            ForgeUser::GitHub(_) => ForgeName::GitHub,
            ForgeUser::GitLab(_) => ForgeName::GitLab,
        }
    }

    /// The custom host of the account, if it has one.
    pub open spec fn spec_custom_host(&self) -> Option<Seq<char>> {
        match self {
            ForgeUser::GitHub(a) => a.spec_custom_host(),
            ForgeUser::GitLab(a) => a.spec_custom_host(),
        }
    }
}

/// The forge of a well-known host.
pub open spec fn determine_forge_spec(host: Seq<char>) -> Option<ForgeName> {
    if has_text(host, "github.com"@) || starts_with(host, "github."@) {
        Some(ForgeName::GitHub)
    } else if has_text(host, "gitlab.com"@) || starts_with(host, "gitlab."@) {
        Some(ForgeName::GitLab)
    } else if has_text(host, "bitbucket.org"@) {
        Some(ForgeName::Bitbucket)
    } else if has_text(host, "azure.com"@) {
        Some(ForgeName::Azure)
    } else {
        None
    }
}

/// Recognize the forge of a well-known host.
pub fn determine_forge_from_host(host: &str) -> (r: Option<ForgeName>)
    ensures
        r == determine_forge_spec(host@),
{
    let h = to_chars(host);
    if contains(&h, &to_chars("github.com")) || has_prefix(&h, &to_chars("github.")) {
        Some(ForgeName::GitHub)
    } else if contains(&h, &to_chars("gitlab.com")) || has_prefix(&h, &to_chars("gitlab.")) {
        Some(ForgeName::GitLab)
    } else if contains(&h, &to_chars("bitbucket.org")) {
        Some(ForgeName::Bitbucket)
    } else if contains(&h, &to_chars("azure.com")) {
        Some(ForgeName::Azure)
    } else {
        None
    }
}

/// `s` without a scheme: what follows the first `://`, if there is one.
pub open spec fn after_scheme(s: Seq<char>) -> Seq<char> {
    match find_from(s, "://"@, 0) {
        Some(i) => s.skip(i + "://"@.len()),
        None => s,
    }
}

/// The characters that end the host part of a URL.
pub open spec fn path_starts() -> Seq<char> {
    seq!['/', '?', '#']
}

/// `s` up to its path, query or fragment.
pub open spec fn before_path(s: Seq<char>) -> Seq<char> {
    s.take(find_any_from(s, path_starts(), 0))
}

/// `s` without user information: what follows the last `@`, if there is one.
pub open spec fn after_user_info(s: Seq<char>) -> Seq<char> {
    match rfind_char(s, '@', s.len() as int) {
        Some(i) => s.skip(i + 1),
        None => s,
    }
}

/// `s` without a numeric port: what precedes the last `:`, if only digits
/// follow it.
pub open spec fn without_port(s: Seq<char>) -> Seq<char> {
    match rfind_char(s, ':', s.len() as int) {
        Some(i) => if all_digits(s.skip(i + 1)) {
            s.take(i)
        } else {
            s
        },
        None => s,
    }
}

/// The host of `value` in the form in which hosts are compared: without
/// scheme, path, user information and numeric port, without surrounding
/// white space and trailing dots, in lower case.
pub open spec fn normalize_host_spec(value: Seq<char>) -> Seq<char> {
    lower_spec(
        trim_end_char_spec(
            trim_spec(without_port(after_user_info(before_path(after_scheme(value))))),
            '.',
        ),
    )
}

fn normalize_host_chars(value: &Vec<char>) -> (r: Vec<char>)
    ensures
        r@ == normalize_host_spec(value@),
{
    let sep = to_chars("://");
    let without_scheme = match find(value, &sep) {
        Some(i) => {
            assert(i + sep.len() <= value.len());
            let r = slice(value, i + sep.len(), value.len());
            assert(r@ =~= value@.skip(i + sep@.len()));
            r
        },
        None => value.clone(),
    };
    let mut stops: Vec<char> = Vec::new();
    stops.push('/');
    stops.push('?');
    stops.push('#');
    assert(stops@ =~= path_starts());
    let end = find_any(&without_scheme, &stops);
    let without_path = slice(&without_scheme, 0, end);
    assert(without_path@ =~= before_path(without_scheme@));
    let without_user = match rfind(&without_path, '@') {
        Some(i) => {
            let r = slice(&without_path, i + 1, without_path.len());
            assert(r@ =~= without_path@.skip(i + 1));
            r
        },
        None => without_path,
    };
    let host = match rfind(&without_user, ':') {
        Some(i) => {
            let port = slice(&without_user, i + 1, without_user.len());
            assert(port@ =~= without_user@.skip(i + 1));
            if is_all_digits(&port) {
                let r = slice(&without_user, 0, i);
                assert(r@ =~= without_user@.take(i as int));
                r
            } else {
                without_user
            }
        },
        None => without_user,
    };
    to_lower(&trim_end_char(&trim(&host), '.'))
}

/// Bring a host, or a URL that holds one, into the form in which hosts are
/// compared.
pub fn normalize_host_for_comparison(value: &str) -> (r: String)
    ensures
        r@ == normalize_host_spec(value@),
{
    from_chars(&normalize_host_chars(&to_chars(value)))
}

/// Whether an account's custom host is the host of a repository: after
/// normalization both are not empty, and the custom host is the repository
/// host or a subdomain of it.
pub open spec fn custom_host_matches_spec(repository_host: Seq<char>, custom_host: Seq<char>) -> bool {
    let repo = normalize_host_spec(repository_host);
    let account = normalize_host_spec(custom_host);
    repo.len() > 0 && account.len() > 0 && (account == repo || ends_with(
        account,
        seq!['.'] + repo,
    ))
}

/// Compare a repository host to an account's custom host.
pub fn custom_host_matches_repository_host(repository_host: &str, account_custom_host: &str) -> (r:
    bool)
    ensures
        r == custom_host_matches_spec(repository_host@, account_custom_host@),
{
    let repo = normalize_host_chars(&to_chars(repository_host));
    let account = normalize_host_chars(&to_chars(account_custom_host));
    if repo.len() == 0 || account.len() == 0 {
        return false;
    }
    if same_text(&account, &repo) {
        return true;
    }
    let mut dotted: Vec<char> = Vec::new();
    dotted.push('.');
    crate::chars::append(&mut dotted, &repo);
    assert(dotted@ =~= seq!['.'] + repo@);
    has_suffix(&account, &dotted)
}

/// Whether the account has a custom host that is the host of the
/// repository.
pub open spec fn account_matches(host: Seq<char>, account: ForgeUser) -> bool {
    match account.spec_custom_host() {
        Some(custom) => custom_host_matches_spec(host, custom),
        None => false,
    }
}

/// The forge of the first account at or after `i` whose custom host is the
/// host of the repository.
pub open spec fn match_accounts_from(host: Seq<char>, accounts: Seq<ForgeUser>, i: int) -> Option<
    ForgeName,
>
    decreases accounts.len() - i,
{
    if i < 0 || i >= accounts.len() {
        None
    } else if account_matches(host, accounts[i]) {
        Some(accounts[i].forge())
    } else {
        match_accounts_from(host, accounts, i + 1)
    }
}

/// Look for the first account whose custom host is the host of the
/// repository, and return its forge.
pub fn match_host_to_accounts_custom_host(host: &str, accounts: &Vec<ForgeUser>) -> (r: Option<
    ForgeName,
>)
    ensures
        r == match_accounts_from(host@, accounts@, 0),
{
    let mut i: usize = 0;
    while i < accounts.len()
        invariant
            i <= accounts.len(),
            match_accounts_from(host@, accounts@, 0) == match_accounts_from(
                host@,
                accounts@,
                i as int,
            ),
        decreases accounts.len() - i,
    {
        match &accounts[i] {
            ForgeUser::GitHub(account) => {
                if let Some(custom) = account.custom_host() {
                    if custom_host_matches_repository_host(host, custom.as_str()) {
                        return Some(ForgeName::GitHub);
                    }
                }
            },
            ForgeUser::GitLab(account) => {
                if let Some(custom) = account.custom_host() {
                    if custom_host_matches_repository_host(host, custom.as_str()) {
                        return Some(ForgeName::GitLab);
                    }
                }
            },
        }
        i += 1;
    }
    None
}

/// The parts of a remote URL that identify a repository.
#[derive(Debug, Clone, PartialEq, Eq)]
pub struct RemoteParts {
    /// The host.
    pub host: String,
    /// The scheme of the URL.
    pub protocol: String,
    /// The owner of the repository.
    pub owner: String,
    /// The name of the repository.
    pub repo: String,
}

/// Host, scheme, owner and repository name that the URL parser reads from
/// a remote URL; `None` where it refuses the URL or finds no host, scheme
/// or owner and repository.
pub uninterp spec fn remote_parts(url: Seq<char>) -> Option<RemotePartsView>;

/// The mathematical value of [`RemoteParts`].
pub struct RemotePartsView {
    pub host: Seq<char>,
    pub protocol: Seq<char>,
    pub owner: Seq<char>,
    pub repo: Seq<char>,
}

impl View for RemoteParts {
    type V = RemotePartsView;

    open spec fn view(&self) -> RemotePartsView {
        RemotePartsView {
            host: self.host@,
            protocol: self.protocol@,
            owner: self.owner@,
            repo: self.repo@,
        }
    }
}

/// The value of the parts of a remote URL.
pub open spec fn parts_view(parts: Option<RemoteParts>) -> Option<RemotePartsView> {
    match parts {
        Some(p) => Some(p@),
        None => None,
    }
}

/// Whether `c` is an ASCII character that may stand in the path of a URL:
/// a letter, a digit, one of `-._~`, one of `!$&'()*+,;=\`, a colon or an
/// at sign.
pub open spec fn is_path_char(c: char) -> bool {
    ('a' <= c && c <= 'z') || ('A' <= c && c <= 'Z') || ('0' <= c && c <= '9') || c == '-' || c
        == '.' || c == '_' || c == '~' || c == '!' || c == '$' || c == '&' || c == '\'' || c == '('
        || c == ')' || c == '*' || c == '+' || c == ',' || c == ';' || c == '=' || c == '\\' || c
        == ':' || c == '@'
}

/// The position of the first `c` in `s`, or the length of `s` where there
/// is none.
pub open spec fn first_index_of(s: Seq<char>, c: char) -> int {
    find_any_from(s, seq![c], 0)
}

/// What follows the scheme of a URL whose scheme names ssh: the text
/// after the first `://`, where `ssh` occurs before it.
pub open spec fn ssh_scheme_rest(url: Seq<char>) -> Option<Seq<char>> {
    match find_from(url, "://"@, 0) {
        Some(k) => if has_text(url.take(k), "ssh"@) {
            Some(url.skip(k + "://"@.len()))
        } else {
            None
        },
        None => None,
    }
}

/// Whether user information is of the form that the URL parser reads:
/// without a colon, or with a user before its first colon and a token
/// behind it.
pub open spec fn userinfo_is_sound(info: Seq<char>) -> bool {
    let i = first_index_of(info, ':');
    i < info.len() ==> (i > 0 && i + 1 < info.len() && info[i + 1] != ':')
}

/// Whether what follows an ssh scheme has a path that the URL parser can
/// cut: there is a slash, only ASCII path characters stand before it, and
/// user information before it is sound.
pub open spec fn ssh_rest_is_safe(rest: Seq<char>) -> bool {
    let slash = first_index_of(rest, '/');
    let at = first_index_of(rest.take(slash), '@');
    &&& slash < rest.len()
    &&& forall|i: int| 0 <= i < slash ==> is_path_char(#[trigger] rest[i])
    &&& at < slash ==> userinfo_is_sound(rest.take(at))
}

/// Whether a text can be handed to the URL parser. The parser cuts the
/// first byte off the path of a URL with an ssh scheme, and does not return
/// where that path is empty or starts with a longer character; a text with
/// such a scheme is handed over only where its path is sure to start with
/// an ASCII character.
pub open spec fn url_is_safe(url: Seq<char>) -> bool {
    match ssh_scheme_rest(url) {
        Some(rest) => ssh_rest_is_safe(rest),
        None => true,
    }
}

fn path_char(c: char) -> (r: bool)
    ensures
        r == is_path_char(c),
{
    ('a' <= c && c <= 'z') || ('A' <= c && c <= 'Z') || ('0' <= c && c <= '9') || c == '-' || c
        == '.' || c == '_' || c == '~' || c == '!' || c == '$' || c == '&' || c == '\'' || c == '('
        || c == ')' || c == '*' || c == '+' || c == ',' || c == ';' || c == '=' || c == '\\' || c
        == ':' || c == '@'
}

fn index_of(s: &Vec<char>, c: char) -> (r: usize)
    ensures
        r == first_index_of(s@, c),
        r <= s.len(),
{
    let mut set: Vec<char> = Vec::new();
    set.push(c);
    assert(set@ =~= seq![c]);
    find_any(s, &set)
}

#[verifier::loop_isolation(false)]
fn ssh_rest_safe(rest: &Vec<char>) -> (r: bool)
    ensures
        r == ssh_rest_is_safe(rest@),
{
    let slash = index_of(rest, '/');
    if slash >= rest.len() {
        return false;
    }
    let mut i: usize = 0;
    while i < slash
        invariant
            i <= slash < rest.len(),
            forall|k: int| 0 <= k < i ==> is_path_char(#[trigger] rest@[k]),
        decreases slash - i,
    {
        if !path_char(rest[i]) {
            assert(!is_path_char(rest@[i as int]));
            return false;
        }
        i += 1;
    }
    let before = slice(rest, 0, slash);
    assert(before@ =~= rest@.take(slash as int));
    let at = index_of(&before, '@');
    if at >= slash {
        return true;
    }
    let info = slice(rest, 0, at);
    assert(info@ =~= rest@.take(at as int));
    let colon = index_of(&info, ':');
    if colon >= info.len() {
        return true;
    }
    colon > 0 && colon + 1 < info.len() && info[colon + 1] != ':'
}

/// Decide whether a text can be handed to the URL parser.
pub fn is_safe_url(url: &str) -> (r: bool)
    ensures
        r == url_is_safe(url@),
{
    let text = to_chars(url);
    let sep = to_chars("://");
    match find(&text, &sep) {
        None => true,
        Some(k) => {
            let scheme = slice(&text, 0, k);
            assert(scheme@ =~= text@.take(k as int));
            if contains(&scheme, &to_chars("ssh")) {
                assert(k + sep.len() <= text.len());
                let rest = slice(&text, k + sep.len(), text.len());
                assert(rest@ =~= text@.skip(k + sep@.len()));
                ssh_rest_safe(&rest)
            } else {
                true
            }
        },
    }
}

/// `GitUrl::parse` of `git-url-parse`, with `host`, `scheme` and the
/// generic `provider_info`: the parts of the URL, which depend on its text
/// alone. The parser returns on every text but one with an ssh scheme
/// whose path is empty or starts with a character of more than one byte.
#[verifier::external_body]
fn parse_remote(url: &str) -> (r: Option<RemoteParts>)
    requires
        url_is_safe(url@),
    ensures
        parts_view(r) == remote_parts(url@),
{
    let git_url = GitUrl::parse(url).ok()?;
    let host = git_url.host()?.to_string();
    let protocol = git_url.scheme()?.to_string();
    let provider: GenericProvider = git_url.provider_info().ok()?;
    Some(
        RemoteParts {
            host,
            protocol,
            owner: provider.owner().to_string(),
            repo: provider.repo().to_string(),
        },
    )
}

/// The forge of a host: the well-known one, or else the one of the first
/// account whose custom host matches.
pub open spec fn forge_of_host(host: Seq<char>, accounts: Seq<ForgeUser>) -> Option<ForgeName> {
    match determine_forge_spec(host) {
        Some(f) => Some(f),
        None => match_accounts_from(host, accounts, 0),
    }
}

/// Name the forge of a repository from the parts of its remote URL.
///
/// There is a result exactly where the URL has its parts and the host's
/// forge is known; owner, repository and protocol are those of the URL.
pub fn forge_repo_info_from_parts(parts: Option<RemoteParts>, accounts: &Vec<ForgeUser>) -> (r:
    Option<ForgeRepoInfo>)
    ensures
        r is Some ==> parts is Some,
        r is Some ==> info_view(r, parts->0@.host) == repo_info_spec(parts_view(parts), accounts@),
        r is None ==> repo_info_spec(parts_view(parts), accounts@) is None,
{
    let parts = match parts {
        Some(p) => p,
        None => {
            return None;
        },
    };
    let forge = match determine_forge_from_host(parts.host.as_str()) {
        Some(f) => f,
        None => match match_host_to_accounts_custom_host(parts.host.as_str(), accounts) {
            Some(f) => f,
            None => {
                return None;
            },
        },
    };
    Some(ForgeRepoInfo { forge, owner: parts.owner, repo: parts.repo, protocol: parts.protocol })
}

/// What a remote URL tells about its repository, given the parts that
/// the URL parser read from it.
pub open spec fn repo_info_spec(parts: Option<RemotePartsView>, accounts: Seq<ForgeUser>) -> Option<
    (ForgeName, RemotePartsView),
> {
    match parts {
        Some(p) => match forge_of_host(p.host, accounts) {
            Some(f) => Some((f, p)),
            None => None,
        },
        None => None,
    }
}

/// The value of repository information, in the shape of [`repo_info_spec`].
pub open spec fn info_view(info: Option<ForgeRepoInfo>, host: Seq<char>) -> Option<
    (ForgeName, RemotePartsView),
> {
    match info {
        Some(i) => Some(
            (
                i.forge,
                RemotePartsView { host, protocol: i.protocol@, owner: i.owner@, repo: i.repo@ },
            ),
        ),
        None => None,
    }
}

/// What a remote URL tells about its repository: nothing where the text
/// cannot be handed to the URL parser, and else what its parts tell.
pub open spec fn derive_spec(url: Seq<char>, accounts: Seq<ForgeUser>) -> Option<
    (ForgeName, RemotePartsView),
> {
    if url_is_safe(url) {
        repo_info_spec(remote_parts(url), accounts)
    } else {
        None
    }
}

/// Derive the forge repository information from a remote URL.
pub fn derive_forge_repo_info(url: &str, accounts: &Vec<ForgeUser>) -> (r: Option<ForgeRepoInfo>)
    ensures
        r is Some ==> remote_parts(url@) is Some,
        r is Some ==> info_view(r, remote_parts(url@)->0.host) == derive_spec(url@, accounts@),
        r is None ==> derive_spec(url@, accounts@) is None,
{
    if !is_safe_url(url) {
        return None;
    }
    forge_repo_info_from_parts(parse_remote(url), accounts)
}

} // verus!
