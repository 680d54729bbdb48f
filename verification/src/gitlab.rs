//! Values exchanged with GitLab, and the rules on draft titles.

use vstd::prelude::*;
use crate::forge::GitlabAccountIdentifier;
use crate::chars::{
    append, find, find_from, from_chars, lower_spec, same_text, slice, to_chars, to_lower, trim,
    trim_spec, trim_start, trim_start_spec,
};

verus! {

/// The id of a GitLab project: its namespace and its name.
#[derive(Debug, Clone, PartialEq, Eq)]
pub struct GitLabProjectId {
    username: String,
    project_name: String,
}

/// Whether a byte stands for itself in percent-encoded text: an ASCII
/// letter, a digit, or one of `-`, `.`, `_`, `~`.
pub open spec fn is_unreserved_byte(b: u8) -> bool {
    (0x30 <= b && b <= 0x39) || (0x41 <= b && b <= 0x5a) || (0x61 <= b && b <= 0x7a) || b == 0x2d
        || b == 0x2e || b == 0x5f || b == 0x7e
}

/// The upper-case hexadecimal digit of a number below sixteen.
pub open spec fn hex_digit(d: int) -> char {
    if d < 10 {
        (0x30 + d) as u8 as char
    } else {
        (0x41 + d - 10) as u8 as char
    }
}

/// The percent-encoded form of one byte: the byte itself where it is
/// unreserved, and else `%` and its two hexadecimal digits.
pub open spec fn percent_encoded_byte(b: u8) -> Seq<char> {
    if is_unreserved_byte(b) {
        seq![b as char]
    } else {
        seq!['%', hex_digit(b as int / 16), hex_digit(b as int % 16)]
    }
}

/// The percent-encoded form of a sequence of bytes.
pub open spec fn percent_encoded_bytes(bytes: Seq<u8>) -> Seq<char>
    decreases bytes.len(),
{
    if bytes.len() == 0 {
        Seq::empty()
    } else {
        percent_encoded_byte(bytes[0]) + percent_encoded_bytes(bytes.drop_first())
    }
}

/// The percent-encoded form of a text: that of the bytes of its UTF-8
/// encoding.
pub open spec fn percent_encoded(text: Seq<char>) -> Seq<char> {
    percent_encoded_bytes(vstd::utf8::encode_utf8(text))
}

/// `urlencoding::encode`: every byte of the text is written as itself
/// where it is an ASCII letter, a digit or one of `-`, `.`, `_`, `~`, and
/// else as `%` and two upper-case hexadecimal digits.
#[verifier::external_body]
fn percent_encode(text: &str) -> (r: String)
    ensures
        r@ == percent_encoded(text@),
{
    urlencoding::encode(text).into_owned()
}

impl GitLabProjectId {
    /// The namespace that owns the project.
    pub closed spec fn spec_username(&self) -> Seq<char> {
        self.username@
    }

    /// The name of the project.
    pub closed spec fn spec_project_name(&self) -> Seq<char> {
        self.project_name@
    }

    /// The id of the project `project_name` in the namespace `username`.
    pub fn new(username: &str, project_name: &str) -> (r: Self)
        ensures
            r.spec_username() == username@,
            r.spec_project_name() == project_name@,
    {
        GitLabProjectId { username: username.to_owned(), project_name: project_name.to_owned() }
    }

    /// A copy of the id.
    pub fn duplicate(&self) -> (r: Self)
        ensures
            r.spec_username() == self.spec_username(),
            r.spec_project_name() == self.spec_project_name(),
    {
        GitLabProjectId { username: self.username.clone(), project_name: self.project_name.clone() }
    }

    /// The id as it stands in a URL path: namespace, `/` and name,
    /// percent-encoded.
    pub fn to_string(&self) -> (r: String)
        ensures
            r@ == percent_encoded(self.spec_username() + seq!['/'] + self.spec_project_name()),
    {
        let mut text = to_chars(self.username.as_str());
        text.push('/');
        append(&mut text, &to_chars(self.project_name.as_str()));
        assert(text@ =~= self.spec_username() + seq!['/'] + self.spec_project_name());
        let plain = from_chars(&text);
        percent_encode(plain.as_str())
    }
}

pub struct CreateMergeRequestParams<'a> {
    pub title: &'a str,
    pub body: &'a str,
    pub source_branch: &'a str,
    pub target_branch: &'a str,
    pub project_id: GitLabProjectId,
    pub source_project_id: Option<GitLabProjectId>,
    pub draft: bool,
}

pub struct UpdateMergeRequestParams<'a> {
    pub project_id: GitLabProjectId,
    pub mr_iid: i64,
    pub title: Option<&'a str>,
    pub description: Option<&'a str>,
    pub target_branch: Option<&'a str>,
    pub state_event: Option<&'a str>,
}

pub struct MergeMergeRequestParams {
    pub project_id: GitLabProjectId,
    pub mr_iid: i64,
    pub squash: Option<bool>,
}

pub struct SetMergeRequestDraftStateParams {
    pub project_id: GitLabProjectId,
    pub mr_iid: i64,
    pub is_draft: bool,
}

pub struct SetMergeRequestAutoMergeParams {
    pub project_id: GitLabProjectId,
    pub mr_iid: i64,
    pub enabled: bool,
}

#[derive(Debug)]
pub struct AuthenticatedUser {
    pub username: String,
    pub avatar_url: Option<String>,
    pub name: Option<String>,
    pub email: Option<String>,
}

#[derive(Debug)]
pub struct GitLabUser {
    pub id: i64,
    pub username: String,
    pub name: Option<String>,
    pub email: Option<String>,
    pub avatar_url: Option<String>,
    pub is_bot: bool,
}

#[derive(Debug)]
pub struct GitLabLabel {
    pub name: String,
}

#[derive(Debug)]
pub struct GitLabProject {
    pub id: i64,
    pub path_with_namespace: String,
    pub default_branch: Option<String>,
    pub forked_from_project_id: Option<i64>,
}

#[derive(Debug)]
pub struct MergeRequest {
    pub web_url: String,
    pub iid: i64,
    pub title: String,
    pub description: Option<String>,
    pub author: Option<GitLabUser>,
    pub labels: Vec<GitLabLabel>,
    pub draft: bool,
    pub source_branch: String,
    pub target_branch: String,
    pub sha: String,
    pub created_at: Option<String>,
    pub updated_at: Option<String>,
    pub merged_at: Option<String>,
    pub closed_at: Option<String>,
    pub project_id: i64,
    pub assignees: Vec<GitLabUser>,
    pub reviewers: Vec<GitLabUser>,
}

/// Whether `prefix`, trimmed and without regard to ASCII case, is one of
/// the words that mark a draft.
pub open spec fn is_draft_word(prefix: Seq<char>) -> bool {
    let word = lower_spec(trim_spec(prefix));
    word == "draft"@ || word == "wip"@
}

/// Whether a title starts with a draft marker: a draft word, then a colon.
pub open spec fn has_draft_prefix_spec(title: Seq<char>) -> bool {
    match find_from(title, ":"@, 0) {
        Some(i) => is_draft_word(title.take(i)),
        None => false,
    }
}

/// The title without its draft marker and the white space after it.
pub open spec fn remove_draft_prefix_spec(title: Seq<char>) -> Seq<char> {
    match find_from(title, ":"@, 0) {
        Some(i) => if is_draft_word(title.take(i)) {
            trim_start_spec(title.skip(i + ":"@.len()))
        } else {
            title
        },
        None => title,
    }
}

/// The title that shows the draft state: with `Draft: ` in front where a
/// draft has no marker yet, and without the marker where it is no draft.
pub open spec fn update_draft_state_spec(title: Seq<char>, is_draft: bool) -> Seq<char> {
    if is_draft {
        if has_draft_prefix_spec(title) {
            title
        } else {
            "Draft: "@ + title
        }
    } else {
        remove_draft_prefix_spec(title)
    }
}

fn is_draft_word_chars(prefix: &Vec<char>) -> (r: bool)
    ensures
        r == is_draft_word(prefix@),
{
    let word = to_lower(&trim(prefix));
    same_text(&word, &to_chars("draft")) || same_text(&word, &to_chars("wip"))
}

/// Whether a title starts with a draft marker.
pub fn has_draft_prefix(title: &str) -> (r: bool)
    ensures
        r == has_draft_prefix_spec(title@),
{
    let t = to_chars(title);
    match find(&t, &to_chars(":")) {
        Some(i) => {
            let prefix = slice(&t, 0, i);
            assert(prefix@ =~= t@.take(i as int));
            is_draft_word_chars(&prefix)
        },
        None => false,
    }
}

/// The title without its draft marker.
pub fn remove_draft_prefix(title: &str) -> (r: String)
    ensures
        r@ == remove_draft_prefix_spec(title@),
{
    let t = to_chars(title);
    let colon = to_chars(":");
    match find(&t, &colon) {
        Some(i) => {
            let prefix = slice(&t, 0, i);
            assert(prefix@ =~= t@.take(i as int));
            if is_draft_word_chars(&prefix) {
                let rest = slice(&t, i + colon.len(), t.len());
                assert(rest@ =~= t@.skip(i + colon@.len()));
                from_chars(&trim_start(&rest))
            } else {
                title.to_owned()
            }
        },
        None => title.to_owned(),
    }
}

/// Bring the title of a merge request in line with its draft state.
pub fn update_draft_state_in_title(title: &str, is_draft: bool) -> (r: String)
    ensures
        r@ == update_draft_state_spec(title@, is_draft),
{
    if is_draft {
        if has_draft_prefix(title) {
            title.to_owned()
        } else {
            let mut text = to_chars("Draft: ");
            append(&mut text, &to_chars(title));
            from_chars(&text)
        }
    } else {
        remove_draft_prefix(title)
    }
}

/// Why no account could be chosen.
#[derive(Debug, Clone, Copy, PartialEq, Eq, Structural)]
pub enum ResolveAccountError {
    /// No account has authenticated.
    NoKnownAccounts,
    /// The preferred account has not authenticated.
    PreferredAccountUnknown,
}

impl ResolveAccountError {
    /// The text of the error, where `account` is the text of the preferred
    /// account.
    pub fn to_string(&self, account: &str) -> (r: String)
        ensures
            r@ == (match self {
                ResolveAccountError::NoKnownAccounts => "No authenticated GitLab users found.\nRun 'but config forge auth' to authenticate with GitLab."@,
                ResolveAccountError::PreferredAccountUnknown => "Preferred GitLab account '"@ + account@
                    + "' has not authenticated yet.\nRun 'but config forge auth' to authenticate, or choose another account."@,
            }),
    {
        match self {
            ResolveAccountError::NoKnownAccounts => "No authenticated GitLab users found.\nRun 'but config forge auth' to authenticate with GitLab.".to_owned(),
            ResolveAccountError::PreferredAccountUnknown => {
                let mut text = to_chars("Preferred GitLab account '");
                append(&mut text, &to_chars(account));
                append(
                    &mut text,
                    &to_chars(
                        "' has not authenticated yet.\nRun 'but config forge auth' to authenticate, or choose another account.",
                    ),
                );
                from_chars(&text)
            },
        }
    }
}

/// The position among the known accounts of the account to use: that of
/// the preferred account where one is preferred, the first otherwise.
pub open spec fn resolve_account_spec(preferred: Option<GitlabAccountIdentifier>, known: Seq<GitlabAccountIdentifier>) -> Result<
    int,
    ResolveAccountError,
> {
    if known.len() == 0 {
        Err(ResolveAccountError::NoKnownAccounts)
    } else {
        match preferred {
            None => Ok(0),
            Some(p) => match first_same_account(p, known, 0) {
                Some(i) => Ok(i),
                None => Err(ResolveAccountError::PreferredAccountUnknown),
            },
        }
    }
}

/// The first position at or after `i` of an account that is the same as
/// `account`.
pub open spec fn first_same_account(account: GitlabAccountIdentifier, known: Seq<GitlabAccountIdentifier>, i: int) -> Option<int>
    decreases known.len() - i,
{
    if i < 0 || i >= known.len() {
        None
    } else if account.same_as(&known[i]) {
        Some(i)
    } else {
        first_same_account(account, known, i + 1)
    }
}

/// Choose the account to use among the known ones, and return its
/// position.
#[verifier::loop_isolation(false)]
pub fn resolve_account(preferred: Option<&GitlabAccountIdentifier>, known_accounts: &Vec<GitlabAccountIdentifier>) -> (r: Result<
    usize,
    ResolveAccountError,
>)
    ensures
        (match r {
            Ok(i) => Ok::<int, ResolveAccountError>(i as int),
            Err(e) => Err::<int, ResolveAccountError>(e),
        }) == resolve_account_spec(
            match preferred {
                Some(p) => Some(*p),
                None => None,
            },
            known_accounts@,
        ),
        r is Ok ==> r->Ok_0 < known_accounts.len(),
{
    if known_accounts.len() == 0 {
        return Err(ResolveAccountError::NoKnownAccounts);
    }
    let account = match preferred {
        Some(a) => a,
        None => {
            return Ok(0);
        },
    };
    let mut i: usize = 0;
    while i < known_accounts.len()
        invariant
            i <= known_accounts.len(),
            first_same_account(*account, known_accounts@, 0) == first_same_account(
                *account,
                known_accounts@,
                i as int,
            ),
        decreases known_accounts.len() - i,
    {
        if account.is_same(&known_accounts[i]) {
            return Ok(i);
        }
        i += 1;
    }
    Err(ResolveAccountError::PreferredAccountUnknown)
}

} // verus!
