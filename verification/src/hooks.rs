//! The uniform result of running a user-defined hook.
//!
//! Whatever the hook and the platform, a run ends in one of a few typed
//! results. The functions here turn what a hook run reported into that
//! result; running the hook is the caller's part.

use vstd::prelude::*;
use crate::chars::{append, contains, from_chars, has_text, to_chars};
use crate::numbers::{i64_to_text, signed_decimal_text};

verus! {

/// The message that a commit-message hook left behind.
#[derive(Debug, Clone, PartialEq, Eq)]
pub struct MessageData {
    pub message: String,
}

/// What a failed hook reported.
#[derive(Debug, Clone, PartialEq, Eq)]
pub struct ErrorData {
    pub error: String,
}

/// The result of a hook.
#[derive(Debug, Clone, PartialEq, Eq)]
pub enum HookResult {
    /// The hook ran and succeeded.
    Success,
    /// There is no such hook.
    NotConfigured,
    /// The hook ran and failed.
    Failure(ErrorData),
}

/// The result of a commit-message hook, which may rewrite the message.
#[derive(Debug, Clone, PartialEq, Eq)]
pub enum MessageHookResult {
    /// The hook ran, succeeded and left the message as it was.
    Success,
    /// There is no such hook.
    NotConfigured,
    /// The hook ran, succeeded and rewrote the message.
    Message(MessageData),
    /// The hook ran and failed.
    Failure(ErrorData),
}

/// What running a hook script reported.
#[derive(Debug, Clone, PartialEq, Eq)]
pub enum HookRun {
    /// The script ran and exited with success.
    Succeeded,
    /// No script was found.
    NoHookFound,
    /// The script ran and did not exit with success.
    RunNotSuccessful { stdout: String, stderr: String, code: Option<i32> },
}

/// The mathematical value of a [`HookResult`].
pub enum HookResultView {
    Success,
    NotConfigured,
    Failure { error: Seq<char> },
}

impl View for HookResult {
    type V = HookResultView;

    open spec fn view(&self) -> HookResultView {
        match self {
            HookResult::Success => HookResultView::Success,
            HookResult::NotConfigured => HookResultView::NotConfigured,
            HookResult::Failure(e) => HookResultView::Failure { error: e.error@ },
        }
    }
}

/// The mathematical value of a [`MessageHookResult`].
pub enum MessageHookResultView {
    Success,
    NotConfigured,
    Message { message: Seq<char> },
    Failure { error: Seq<char> },
}

impl View for MessageHookResult {
    type V = MessageHookResultView;

    open spec fn view(&self) -> MessageHookResultView {
        match self {
            MessageHookResult::Success => MessageHookResultView::Success,
            MessageHookResult::NotConfigured => MessageHookResultView::NotConfigured,
            MessageHookResult::Message(m) => MessageHookResultView::Message { message: m.message@ },
            MessageHookResult::Failure(e) => MessageHookResultView::Failure { error: e.error@ },
        }
    }
}

/// The decimal text of an exit code.
pub open spec fn exit_code_text(code: i32) -> Seq<char> {
    signed_decimal_text(code as i64)
}

/// The note that names the exit code, empty where there is none.
pub open spec fn code_note(code: Option<i32>) -> Seq<char> {
    match code {
        Some(c) => " (Exit Code "@ + exit_code_text(c) + ")"@,
        None => Seq::empty(),
    }
}

/// The error text of a failed hook.
///
/// What the hook wrote is never lost. Where it wrote nothing at all, the
/// text is a note that the hook produced no output. Where it wrote to one
/// of standard output and standard error only, the text is what it wrote.
/// Else both are given under their names. The exit code is named where a
/// note or both outputs are given.
pub open spec fn join_output_spec(stdout: Seq<char>, stderr: Seq<char>, code: Option<i32>) -> Seq<
    char,
> {
    if stdout.len() == 0 && stderr.len() == 0 {
        "hook produced no output"@ + code_note(code)
    } else if stdout.len() == 0 {
        stderr
    } else if stderr.len() == 0 {
        stdout
    } else {
        "stdout:\n"@ + stdout + "\n\nstderr:\n"@ + stderr + code_note(code)
    }
}

/// Combine standard output, standard error and exit code of a failed hook
/// into one error text.
pub fn join_output(stdout: String, stderr: String, code: Option<i32>) -> (r: String)
    ensures
        r@ == join_output_spec(stdout@, stderr@, code),
{
    let mut note: Vec<char> = Vec::new();
    if let Some(c) = code {
        append(&mut note, &to_chars(" (Exit Code "));
        append(&mut note, &to_chars(i64_to_text(c as i64).as_str()));
        append(&mut note, &to_chars(")"));
    }
    assert(note@ =~= code_note(code));
    let out = to_chars(stdout.as_str());
    let err = to_chars(stderr.as_str());
    if out.len() == 0 && err.len() == 0 {
        let mut text = to_chars("hook produced no output");
        append(&mut text, &note);
        return from_chars(&text);
    } else if out.len() == 0 {
        return stderr;
    } else if err.len() == 0 {
        return stdout;
    }
    let mut text = to_chars("stdout:\n");
    append(&mut text, &out);
    append(&mut text, &to_chars("\n\nstderr:\n"));
    append(&mut text, &err);
    append(&mut text, &note);
    from_chars(&text)
}

/// The result of a hook that ran as `run` reports.
pub open spec fn hook_result_spec(run: HookRun) -> HookResultView {
    match run {
        HookRun::Succeeded => HookResultView::Success,
        HookRun::NoHookFound => HookResultView::NotConfigured,
        HookRun::RunNotSuccessful { stdout, stderr, code } => HookResultView::Failure {
            error: join_output_spec(stdout@, stderr@, code),
        },
    }
}

/// The result of the post-commit hook.
pub fn post_commit(run: HookRun) -> (r: HookResult)
    ensures
        r@ == hook_result_spec(run),
{
    match run {
        HookRun::Succeeded => HookResult::Success,
        HookRun::NoHookFound => HookResult::NotConfigured,
        HookRun::RunNotSuccessful { stdout, stderr, code } => HookResult::Failure(
            ErrorData { error: join_output(stdout, stderr, code) },
        ),
    }
}

/// The marker with which the managed hook refuses a commit on the
/// workspace branch.
pub open spec fn managed_marker() -> Seq<char> {
    "GITBUTLER_ERROR"@
}

/// The result of the pre-commit hook: as for any hook, but a run that
/// failed with the managed hook's marker in its output counts as success.
pub open spec fn pre_commit_spec(run: HookRun) -> HookResultView {
    match run {
        HookRun::RunNotSuccessful { stdout, stderr, code } => if has_text(
            stdout@,
            managed_marker(),
        ) || has_text(stderr@, managed_marker()) {
            HookResultView::Success
        } else {
            hook_result_spec(run)
        },
        _ => hook_result_spec(run),
    }
}

/// The result of the pre-commit hook, run on the proposed tree.
pub fn pre_commit_with_tree(run: HookRun) -> (r: HookResult)
    ensures
        r@ == pre_commit_spec(run),
{
    match run {
        HookRun::Succeeded => HookResult::Success,
        HookRun::NoHookFound => HookResult::NotConfigured,
        HookRun::RunNotSuccessful { stdout, stderr, code } => {
            let marker = to_chars("GITBUTLER_ERROR");
            if contains(&to_chars(stdout.as_str()), &marker) || contains(
                &to_chars(stderr.as_str()),
                &marker,
            ) {
                HookResult::Success
            } else {
                HookResult::Failure(ErrorData { error: join_output(stdout, stderr, code) })
            }
        },
    }
}

/// The result of the commit-message hook, given the message before the
/// run and the message that the hook left behind.
pub open spec fn commit_msg_spec(run: HookRun, original: Seq<char>, message: Seq<char>) -> MessageHookResultView {
    match run {
        HookRun::Succeeded => if message == original {
            MessageHookResultView::Success
        } else {
            MessageHookResultView::Message { message }
        },
        HookRun::NoHookFound => MessageHookResultView::NotConfigured,
        HookRun::RunNotSuccessful { stdout, stderr, code } => MessageHookResultView::Failure {
            error: join_output_spec(stdout@, stderr@, code),
        },
    }
}

/// The result of the commit-message hook.
pub fn commit_msg(run: HookRun, original_message: &String, message: String) -> (r: MessageHookResult)
    ensures
        r@ == commit_msg_spec(run, original_message@, message@),
{
    match run {
        HookRun::Succeeded => {
            if message == *original_message {
                MessageHookResult::Success
            } else {
                MessageHookResult::Message(MessageData { message })
            }
        },
        HookRun::NoHookFound => MessageHookResult::NotConfigured,
        HookRun::RunNotSuccessful { stdout, stderr, code } => MessageHookResult::Failure(
            ErrorData { error: join_output(stdout, stderr, code) },
        ),
    }
}

/// Which pre-push hook script runs.
#[derive(Debug, Clone, Copy, PartialEq, Eq, Structural)]
pub enum PrePushHook {
    /// The script in the hooks directory.
    HooksDirectory,
    /// The script in the husky directory.
    Husky,
    /// No script.
    NotConfigured,
}

/// The choice of the pre-push script: the one in the hooks directory, if
/// it exists and, unless husky hooks may run, does not lie in the husky
/// directory; else the one in the husky directory, if husky hooks may run
/// and it exists.
pub open spec fn pre_push_hook_spec(
    hooks_path_exists: bool,
    hooks_path_in_husky_dir: bool,
    run_husky_hooks: bool,
    husky_path_exists: bool,
) -> PrePushHook {
    if hooks_path_exists && (run_husky_hooks || !hooks_path_in_husky_dir) {
        PrePushHook::HooksDirectory
    } else if run_husky_hooks && husky_path_exists {
        PrePushHook::Husky
    } else {
        PrePushHook::NotConfigured
    }
}

/// Choose the pre-push script.
pub fn select_pre_push_hook(
    hooks_path_exists: bool,
    hooks_path_in_husky_dir: bool,
    run_husky_hooks: bool,
    husky_path_exists: bool,
) -> (r: PrePushHook)
    ensures
        r == pre_push_hook_spec(
            hooks_path_exists,
            hooks_path_in_husky_dir,
            run_husky_hooks,
            husky_path_exists,
        ),
{
    if hooks_path_exists && (run_husky_hooks || !hooks_path_in_husky_dir) {
        PrePushHook::HooksDirectory
    } else if run_husky_hooks && husky_path_exists {
        PrePushHook::Husky
    } else {
        PrePushHook::NotConfigured
    }
}

/// The line that the pre-push hook reads: local reference, local commit,
/// remote reference and remote commit, separated by spaces.
pub open spec fn pre_push_input_spec(
    branch: Seq<char>,
    local_commit: Seq<char>,
    remote_ref: Seq<char>,
    remote_commit: Seq<char>,
) -> Seq<char> {
    "refs/heads/"@ + branch + " "@ + local_commit + " "@ + remote_ref + " "@ + remote_commit
        + "\n"@
}

/// Build the line that the pre-push hook reads on its standard input.
pub fn pre_push_input(branch: &str, local_commit: &str, remote_ref: &str, remote_commit: &str) -> (r:
    String)
    ensures
        r@ == pre_push_input_spec(branch@, local_commit@, remote_ref@, remote_commit@),
{
    let space = to_chars(" ");
    let mut text = to_chars("refs/heads/");
    append(&mut text, &to_chars(branch));
    append(&mut text, &space);
    append(&mut text, &to_chars(local_commit));
    append(&mut text, &space);
    append(&mut text, &to_chars(remote_ref));
    append(&mut text, &space);
    append(&mut text, &to_chars(remote_commit));
    append(&mut text, &to_chars("\n"));
    from_chars(&text)
}

/// The result of the pre-push hook.
pub fn pre_push(choice: PrePushHook, run: HookRun) -> (r: HookResult)
    ensures
        r@ == (if choice == PrePushHook::NotConfigured {
            HookResultView::NotConfigured
        } else {
            hook_result_spec(run)
        }),
{
    match choice {
        PrePushHook::NotConfigured => HookResult::NotConfigured,
        _ => post_commit(run),
    }
}

} // verus!
