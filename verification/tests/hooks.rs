use workspace_engine::hooks::{
    commit_msg, join_output, post_commit, pre_commit_with_tree, pre_push, pre_push_input,
    select_pre_push_hook, ErrorData, HookResult, HookRun, MessageData, MessageHookResult,
    PrePushHook,
};

fn failed(stdout: &str, stderr: &str, code: Option<i32>) -> HookRun {
    HookRun::RunNotSuccessful { stdout: stdout.to_string(), stderr: stderr.to_string(), code }
}

#[test]
fn output_is_joined() {
    assert_eq!(join_output(String::new(), String::new(), Some(1)), "hook produced no output (Exit Code 1)");
    assert_eq!(join_output(String::new(), String::new(), None), "hook produced no output");
    assert_eq!(join_output(String::new(), "oops".to_string(), None), "oops");
    assert_eq!(join_output(String::new(), "boom".to_string(), Some(1)), "boom");
    assert_eq!(join_output(String::new(), "f\u{e4}hler".to_string(), Some(2)), "f\u{e4}hler");
    assert_eq!(join_output("out".to_string(), String::new(), Some(2)), "out");
    assert_eq!(
        join_output("out".to_string(), "err".to_string(), Some(-3)),
        "stdout:\nout\n\nstderr:\nerr (Exit Code -3)"
    );
    assert_eq!(
        join_output("out".to_string(), "err".to_string(), None),
        "stdout:\nout\n\nstderr:\nerr"
    );
}

#[test]
fn every_hook_has_one_of_three_results() {
    assert_eq!(post_commit(HookRun::Succeeded), HookResult::Success);
    assert_eq!(post_commit(HookRun::NoHookFound), HookResult::NotConfigured);
    assert_eq!(
        post_commit(failed("a", "b", Some(1))),
        HookResult::Failure(ErrorData { error: "stdout:\na\n\nstderr:\nb (Exit Code 1)".to_string() })
    );
}

#[test]
fn managed_hook_refusal_counts_as_success() {
    assert_eq!(pre_commit_with_tree(failed("x GITBUTLER_ERROR y", "", Some(1))), HookResult::Success);
    assert_eq!(pre_commit_with_tree(failed("", "GITBUTLER_ERROR", Some(1))), HookResult::Success);
    assert_eq!(
        pre_commit_with_tree(failed("GITBUTLER_ERRO", "", Some(1))),
        HookResult::Failure(ErrorData { error: "GITBUTLER_ERRO".to_string() })
    );
    assert_eq!(pre_commit_with_tree(HookRun::Succeeded), HookResult::Success);
    assert_eq!(pre_commit_with_tree(HookRun::NoHookFound), HookResult::NotConfigured);
}

#[test]
fn message_hook_reports_a_rewritten_message() {
    let original = "fix".to_string();
    assert_eq!(commit_msg(HookRun::Succeeded, &original, "fix".to_string()), MessageHookResult::Success);
    assert_eq!(
        commit_msg(HookRun::Succeeded, &original, "fix: it".to_string()),
        MessageHookResult::Message(MessageData { message: "fix: it".to_string() })
    );
    assert_eq!(
        commit_msg(HookRun::NoHookFound, &original, "other".to_string()),
        MessageHookResult::NotConfigured
    );
    assert_eq!(
        commit_msg(failed("no", "", None), &original, "other".to_string()),
        MessageHookResult::Failure(ErrorData { error: "no".to_string() })
    );
}

#[test]
fn pre_push_script_is_chosen() {
    assert_eq!(select_pre_push_hook(true, false, false, true), PrePushHook::HooksDirectory);
    assert_eq!(select_pre_push_hook(true, true, false, true), PrePushHook::NotConfigured);
    assert_eq!(select_pre_push_hook(true, true, true, false), PrePushHook::HooksDirectory);
    assert_eq!(select_pre_push_hook(false, false, true, true), PrePushHook::Husky);
    assert_eq!(select_pre_push_hook(false, false, true, false), PrePushHook::NotConfigured);
    assert_eq!(select_pre_push_hook(false, false, false, true), PrePushHook::NotConfigured);
}

#[test]
fn pre_push_reads_one_line() {
    assert_eq!(
        pre_push_input("feature", "abc", "refs/remotes/origin/feature", "def"),
        "refs/heads/feature abc refs/remotes/origin/feature def\n"
    );
}

#[test]
fn pre_push_without_script_is_not_configured() {
    assert_eq!(pre_push(PrePushHook::NotConfigured, HookRun::Succeeded), HookResult::NotConfigured);
    assert_eq!(pre_push(PrePushHook::Husky, HookRun::Succeeded), HookResult::Success);
    assert_eq!(
        pre_push(PrePushHook::HooksDirectory, failed("", "e\u{301}", Some(1))),
        HookResult::Failure(ErrorData { error: "e\u{301}".to_string() })
    );
}

#[test]
fn post_commit_hook_rejection() {
    assert_eq!(
        post_commit(failed("rejected\n", "", Some(1))),
        HookResult::Failure(ErrorData { error: "rejected\n".to_owned() })
    );
}

#[test]
fn message_hook_rejection() {
    let message = "commit message".to_owned();
    assert_eq!(
        commit_msg(failed("rejected\n", "", Some(1)), &message, message.clone()),
        MessageHookResult::Failure(ErrorData { error: "rejected\n".to_owned() })
    );
}

#[test]
fn rewrite_message() {
    let message = "commit message".to_owned();
    assert_eq!(
        commit_msg(HookRun::Succeeded, &message, "rewritten message\n".to_owned()),
        MessageHookResult::Message(MessageData { message: "rewritten message\n".to_owned() })
    );
}

#[test]
fn keep_message() {
    let message = "commit message\n".to_owned();
    assert_eq!(
        commit_msg(HookRun::Succeeded, &message, "commit message\n".to_owned()),
        MessageHookResult::Success
    );
}

#[test]
fn husky_hooks_disabled_even_if_present() {
    assert_eq!(post_commit(HookRun::NoHookFound), HookResult::NotConfigured);
    assert_eq!(
        commit_msg(HookRun::NoHookFound, &"commit message".to_owned(), "commit message".to_owned()),
        MessageHookResult::NotConfigured
    );
    assert_eq!(select_pre_push_hook(false, false, false, true), PrePushHook::NotConfigured);
}
