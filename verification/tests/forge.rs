use workspace_engine::forge::{
    derive_forge_repo_info, match_host_to_accounts_custom_host, normalize_host_for_comparison,
    ForgeName, ForgeUser, GithubAccountIdentifier, GitlabAccountIdentifier,
};

#[test]
fn matches_github_enterprise_custom_host() {
    let accounts = vec![ForgeUser::GitHub(
        GithubAccountIdentifier::enterprise("alice", "gh.example.com"),
    )];

    assert_eq!(
        match_host_to_accounts_custom_host("gh.example.com", &accounts),
        Some(ForgeName::GitHub)
    );
}

#[test]
fn matches_gitlab_self_hosted_custom_host() {
    let accounts = vec![ForgeUser::GitLab(
        GitlabAccountIdentifier::selfhosted("bob", "gl.example.com"),
    )];

    assert_eq!(
        match_host_to_accounts_custom_host("gl.example.com", &accounts),
        Some(ForgeName::GitLab)
    );
}

#[test]
fn does_not_match_accounts_without_custom_host() {
    let accounts = vec![
        ForgeUser::GitHub(GithubAccountIdentifier::oauth("alice")),
        ForgeUser::GitHub(GithubAccountIdentifier::pat("charlie")),
        ForgeUser::GitLab(GitlabAccountIdentifier::pat("bob")),
    ];

    assert_eq!(
        match_host_to_accounts_custom_host("gh.example.com", &accounts),
        None
    );
}

#[test]
fn returns_none_when_custom_hosts_do_not_match() {
    let accounts = vec![
        ForgeUser::GitHub(GithubAccountIdentifier::enterprise(
            "alice",
            "gh.example.com",
        )),
        ForgeUser::GitLab(GitlabAccountIdentifier::selfhosted(
            "bob",
            "gl.example.com",
        )),
    ];

    assert_eq!(
        match_host_to_accounts_custom_host("no-match.example.com", &accounts),
        None
    );
}

#[test]
fn matches_repository_host_against_custom_host_with_subdomain_and_path() {
    let accounts = vec![ForgeUser::GitLab(
        GitlabAccountIdentifier::selfhosted(
            "bob",
            "https://api.repository.com/v1/api",
        ),
    )];

    assert_eq!(
        match_host_to_accounts_custom_host("repository.com", &accounts),
        Some(ForgeName::GitLab)
    );
}

#[test]
fn matches_repository_host_against_custom_host_with_scheme_port_and_path() {
    let accounts = vec![ForgeUser::GitHub(
        GithubAccountIdentifier::enterprise(
            "alice",
            "https://api.repository.com:8443/v1/api",
        ),
    )];

    assert_eq!(
        match_host_to_accounts_custom_host("repository.com", &accounts),
        Some(ForgeName::GitHub)
    );
}

#[test]
fn does_not_match_partial_domain_suffixes() {
    let accounts = vec![ForgeUser::GitLab(
        GitlabAccountIdentifier::selfhosted("bob", "api.notrepository.com/v1"),
    )];

    assert_eq!(
        match_host_to_accounts_custom_host("repository.com", &accounts),
        None
    );
}

#[test]
fn matches_repository_host_case_insensitively_against_custom_host() {
    let accounts = vec![ForgeUser::GitLab(
        GitlabAccountIdentifier::selfhosted(
            "bob",
            "HTTPS://API.REPOSITORY.COM/v1/api",
        ),
    )];

    assert_eq!(
        match_host_to_accounts_custom_host("Repository.COM", &accounts),
        Some(ForgeName::GitLab)
    );
}

#[test]
fn normalize_host_for_comparison_strips_url_parts_and_normalizes_case() {
    assert_eq!(
        normalize_host_for_comparison("HTTPS://user@API.Repository.com:8443/v1/api?x=1#frag"),
        "api.repository.com"
    );
}

#[test]
fn normalize_host_for_comparison_trims_whitespace_and_trailing_dot() {
    assert_eq!(
        normalize_host_for_comparison("  repository.com.  "),
        "repository.com"
    );
}

#[test]
fn derive_forge_repo_info_uses_custom_host_when_known_forge_is_not_detected() {
    let accounts = vec![ForgeUser::GitLab(
        GitlabAccountIdentifier::selfhosted(
            "bob",
            "https://api.repository.com/v1/api",
        ),
    )];

    let info = derive_forge_repo_info("https://repository.com/org/repo.git", &accounts)
        .expect("expected forge info");

    assert_eq!(info.forge, ForgeName::GitLab);
    assert_eq!(info.owner, "org");
    assert_eq!(info.repo, "repo");
    assert_eq!(info.protocol, "https");
}

#[test]
fn derive_forge_repo_info_prefers_known_forge_from_repository_host() {
    let accounts = vec![ForgeUser::GitLab(
        GitlabAccountIdentifier::selfhosted(
            "bob",
            "https://api.repository.com/v1/api",
        ),
    )];

    let info = derive_forge_repo_info("https://github.com/org/repo.git", &accounts)
        .expect("expected forge info");

    assert_eq!(info.forge, ForgeName::GitHub);
}
