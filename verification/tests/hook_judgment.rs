//! The hook invoker's contract: absent hooks are silent no-ops, zero exits
//! succeed, non-zero exits and interpreter failures are errors — and the
//! captured `version` output is trimmed of exactly one trailing newline.

use cook::error::CookError;
use cook::hooks::{hook_args, hook_result, trim_newline, version_result, HookOutcome};

#[test]
fn missing_hook_is_success() {
    // A recipe with no `test` (or `clean`, `stage`, `version`) hook: the
    // stage succeeds as a no-op.
    assert_eq!(hook_result("test", &HookOutcome::Missing), Ok(()));
    assert_eq!(hook_result("clean", &HookOutcome::Missing), Ok(()));
    assert_eq!(hook_result("stage", &HookOutcome::Missing), Ok(()));
}

#[test]
fn zero_exit_is_success() {
    assert_eq!(hook_result("build", &HookOutcome::Exit(0)), Ok(()));
}

#[test]
fn nonzero_exit_fails_with_name_and_code() {
    let r = hook_result("build", &HookOutcome::Exit(2));
    assert_eq!(r, Err(CookError::NonZero("build".to_string(), 2)));
}

#[test]
fn negative_exit_fails_too() {
    let r = hook_result("test", &HookOutcome::Exit(-1));
    assert_eq!(r, Err(CookError::NonZero("test".to_string(), -1)));
}

#[test]
fn interpreter_failure_is_scripting_error() {
    let r = hook_result("build", &HookOutcome::Interpreter("parse error".to_string()));
    assert_eq!(r, Err(CookError::Scripting("parse error".to_string())));
}

#[test]
fn hook_gets_its_own_name_first() {
    let extra = vec!["arg1".to_string(), "arg2".to_string()];
    let args = hook_args("stage", &extra);
    assert_eq!(
        args,
        vec!["stage".to_string(), "arg1".to_string(), "arg2".to_string()]
    );
}

#[test]
fn version_trailing_newline_is_trimmed() {
    assert_eq!(trim_newline("1.2.3\n"), "1.2.3");
}

#[test]
fn version_without_newline_is_unchanged() {
    assert_eq!(trim_newline("1.2.3"), "1.2.3");
}

#[test]
fn only_one_newline_is_trimmed() {
    assert_eq!(trim_newline("9\n\n"), "9\n");
    // Other trailing whitespace is kept.
    assert_eq!(trim_newline("9 "), "9 ");
    assert_eq!(trim_newline("9\t\n"), "9\t");
}

#[test]
fn version_capture_success() {
    let r = version_result(&HookOutcome::Exit(0), "9\n");
    assert_eq!(r, Ok("9".to_string()));
}

#[test]
fn version_absent_yields_empty_string() {
    // An absent version hook captures nothing: empty string, not an error.
    let r = version_result(&HookOutcome::Missing, "");
    assert_eq!(r, Ok("".to_string()));
}

#[test]
fn version_nonzero_exit_is_surfaced() {
    let r = version_result(&HookOutcome::Exit(3), "junk");
    assert_eq!(r, Err(CookError::NonZero("version".to_string(), 3)));
}

#[test]
fn error_messages() {
    assert_eq!(
        CookError::MissingVar("name".to_string()).message(),
        "Recipe missing 'name' variable"
    );
    assert_eq!(
        CookError::NonZero("build".to_string(), 2).message(),
        "build returned non-zero status '2'"
    );
    assert_eq!(
        CookError::NonZero("test".to_string(), -7).message(),
        "test returned non-zero status '-7'"
    );
    assert_eq!(
        CookError::NonZero("git".to_string(), 12345).message(),
        "git returned non-zero status '12345'"
    );
    assert_eq!(CookError::IO("file vanished".to_string()).message(), "file vanished");
    assert_eq!(CookError::Scripting("bad token".to_string()).message(), "bad token");
}

#[test]
fn extreme_status_codes_render() {
    assert_eq!(
        CookError::NonZero("hook".to_string(), i32::MIN).message(),
        "hook returned non-zero status '-2147483648'"
    );
    assert_eq!(
        CookError::NonZero("hook".to_string(), i32::MAX).message(),
        "hook returned non-zero status '2147483647'"
    );
    assert_eq!(
        CookError::NonZero("hook".to_string(), 0).message(),
        "hook returned non-zero status '0'"
    );
}
