use workspace_engine::github::{graphql_endpoint_from_base_url, MergeMethod};

#[test]
fn graphql_endpoint_for_github_cloud() {
    let endpoint = graphql_endpoint_from_base_url("https://api.github.com");
    assert_eq!(endpoint, "https://api.github.com/graphql");
}

#[test]
fn graphql_endpoint_for_ghes_api_v3() {
    let endpoint = graphql_endpoint_from_base_url("https://ghes.example.com/api/v3");
    assert_eq!(endpoint, "https://ghes.example.com/api/graphql");
}

#[test]
fn graphql_endpoint_preserves_existing_graphql_path() {
    let endpoint = graphql_endpoint_from_base_url("https://ghes.example.com/api/graphql");
    assert_eq!(endpoint, "https://ghes.example.com/api/graphql");
}

#[test]
fn graphql_merge_method_serializes_to_graphql_enum_values() {
    let merge = MergeMethod::Merge.to_graphql().as_str();
    let squash = MergeMethod::Squash.to_graphql().as_str();
    let rebase = MergeMethod::Rebase.to_graphql().as_str();

    assert_eq!(merge, "MERGE");
    assert_eq!(squash, "SQUASH");
    assert_eq!(rebase, "REBASE");
}
