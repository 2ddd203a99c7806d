//! The hook invoker's contract.
//!
//! A recipe defines hook functions by name; the driver looks a hook up in the
//! scripting environment, runs it, and reports what happened as a
//! [`HookOutcome`].  This module judges that outcome: an absent hook is a
//! silent no-op, exit status zero is success, a non-zero status is
//! `NonZero(name, status)`, and a failure of the interpreter itself is
//! `Scripting`.  The distinction between "absent" and "failed" is the contract
//! every pipeline stage relies on — recipes define only the hooks they need.

use vstd::prelude::*;

verus! {

use vstd::string::StrSliceExecFns;
use crate::error::{CookError, CookErrorView};

/// What happened when the driver tried to run a hook.
#[derive(Debug, Clone, PartialEq, Eq)]
pub enum HookOutcome {
    /// The recipe does not define the hook.
    Missing,
    /// The hook ran and returned this exit status.
    Exit(i32),
    /// The scripting environment itself failed, with this message.
    Interpreter(String),
}

/// The mathematical image of a [`HookOutcome`].
pub enum HookOutcomeView {
    Missing,
    Exit(int),
    Interpreter(Seq<char>),
}

impl View for HookOutcome {
    type V = HookOutcomeView;

    open spec fn view(&self) -> HookOutcomeView {
        match self {
            HookOutcome::Missing => HookOutcomeView::Missing,
            HookOutcome::Exit(c) => HookOutcomeView::Exit(*c as int),
            HookOutcome::Interpreter(m) => HookOutcomeView::Interpreter(m@),
        }
    }
}

/// The error, if any, that invoking hook `name` yields on an outcome: absent
/// and exit zero succeed, a non-zero exit is `NonZero(name, status)`, an
/// interpreter failure is `Scripting`.
pub open spec fn hook_error(name: Seq<char>, o: HookOutcomeView) -> Option<CookErrorView> {
    match o {
        HookOutcomeView::Missing => None,
        HookOutcomeView::Exit(c) => if c == 0 {
            None
        } else {
            Some(CookErrorView::NonZero(name, c))
        },
        HookOutcomeView::Interpreter(m) => Some(CookErrorView::Scripting(m)),
    }
}

/// Judges a hook outcome, exactly as [`hook_error`] says.
pub fn hook_result(name: &str, outcome: &HookOutcome) -> (r: Result<(), CookError>)
    ensures
        match r {
            Ok(_) => hook_error(name@, outcome@) is None,
            Err(e) => hook_error(name@, outcome@) == Some(e@),
        },
{
    match outcome {
        HookOutcome::Missing => Ok(()),
        HookOutcome::Exit(c) => {
            if *c == 0 {
                Ok(())
            } else {
                Err(CookError::NonZero(name.to_owned(), *c))
            }
        },
        HookOutcome::Interpreter(m) => Err(CookError::Scripting(m.clone())),
    }
}

/// The argument list a hook receives: its own name first, so hook bodies can
/// inspect how they were invoked, then the caller's arguments in order.
pub fn hook_args(name: &str, extra: &Vec<String>) -> (r: Vec<String>)
    ensures
        r.deep_view() == seq![name@] + extra.deep_view(),
{
    let mut r: Vec<String> = Vec::new();
    r.push(name.to_owned());
    let mut i: usize = 0;
    while i < extra.len()
        invariant
            i <= extra.len(),
            r@.len() == i + 1,
            r@[0]@ == name@,
            forall|j: int| 0 <= j < i ==> r@[j + 1]@ == extra@[j]@,
        decreases extra.len() - i,
    {
        r.push(extra[i].clone());
        i = i + 1;
    }
    assert(r.deep_view() =~= seq![name@] + extra.deep_view());
    r
}

/// A version string with exactly one trailing newline trimmed; no other
/// whitespace is touched.
pub open spec fn trimmed(s: Seq<char>) -> Seq<char> {
    if s.len() > 0 && s.last() == '\n' {
        s.drop_last()
    } else {
        s
    }
}

/// Trims exactly one trailing newline, if present.
pub fn trim_newline(s: &str) -> (r: String)
    ensures
        r@ == trimmed(s@),
{
    let n: usize = s.unicode_len();
    if n > 0 && s.get_char(n - 1) == '\n' {
        let r = s.substring_char(0, n - 1).to_owned();
        assert(r@ =~= s@.drop_last());
        r
    } else {
        s.to_owned()
    }
}

/// Judges a captured `version` hook run: on success the captured output with
/// one trailing newline trimmed, on failure the hook's own error.  An absent
/// `version` hook captures nothing and so yields the empty string, not an
/// error; callers that need a non-empty version must check for themselves.
pub fn version_result(outcome: &HookOutcome, captured: &str) -> (r: Result<String, CookError>)
    ensures
        match r {
            Ok(v) => hook_error("version"@, outcome@) is None && v@ == trimmed(captured@),
            Err(e) => hook_error("version"@, outcome@) == Some(e@),
        },
{
    match hook_result("version", outcome) {
        Ok(_) => Ok(trim_newline(captured)),
        Err(e) => Err(e),
    }
}

/// Law: a recipe missing an optional hook — invoking that stage's hook
/// succeeds as a no-op.
pub proof fn lemma_missing_hook_succeeds(name: Seq<char>)
    ensures
        hook_error(name, HookOutcomeView::Missing) is None,
{
}

/// Law: a hook exiting with a non-zero status fails with exactly
/// `NonZero(name, status)` — never silently, and never with another error.
pub proof fn lemma_nonzero_exit_fails(name: Seq<char>, status: int)
    requires
        status != 0,
    ensures
        hook_error(name, HookOutcomeView::Exit(status)) == Some(
            CookErrorView::NonZero(name, status),
        ),
{
}

} // verus!
