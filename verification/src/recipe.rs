//! The recipe façade: the five pipeline operations and their inverses.
//!
//! A [`Recipe`] holds the target triple, the debug flag, and a snapshot of
//! the variables and arrays the recipe script defined in its scripting
//! environment.  Running the script, the filesystem and subprocesses belong
//! to the driver around this library: each operation here either plans the
//! external commands to run ([`Recipe::fetch`]) or judges the events the
//! driver hands back — hook outcomes, exit statuses, removal outcomes — and
//! every judgment is pinned down exactly by its contract.

use vstd::prelude::*;

verus! {

use vstd::string::StrSliceExecFns;
use vstd::string::StringExecFns;
use crate::error::{CookError, CookErrorView};
use crate::hooks::{
    HookOutcome,
    HookOutcomeView,
    hook_error,
    hook_result,
    hook_args,
    trimmed,
    version_result,
};
use crate::meta::{PackageMeta, MetaView, meta_doc};
use crate::pipeline::{
    Cmd,
    FsState,
    RemovalOutcome,
    fetch_plan,
    fetch_plan_spec,
    removal_error,
    removal_result,
};
use crate::source::{Source, resolve, resolve_spec};
use crate::text::{find, str_find, str_eq, str_concat, clone_strings, lemma_find_at_bounds};

/// The first entry of an association list with the given key, if any.
pub open spec fn lookup<V>(entries: Seq<(Seq<char>, V)>, key: Seq<char>) -> Option<V>
    decreases entries.len(),
{
    if entries.len() == 0 {
        None
    } else if entries[0].0 == key {
        Some(entries[0].1)
    } else {
        lookup(entries.drop_first(), key)
    }
}

/// The architecture component of a target triple: everything before the
/// first underscore, or the whole triple if it has none.
pub open spec fn arch_of(target: Seq<char>) -> Seq<char> {
    match find(target, "_"@) {
        Some(i) => target.subrange(0, i),
        None => target,
    }
}

/// The variables pre-seeded into the scripting environment before the recipe
/// script runs, so the recipe can branch on them: `DEBUG`, `TARGET`, `HOST`
/// and `ARCH`.
pub fn seed_vars(target: &str, debug: bool) -> (r: Vec<(String, String)>)
    ensures
        r.deep_view() == seq![
            ("DEBUG"@, if debug { "1"@ } else { "0"@ }),
            ("TARGET"@, target@),
            ("HOST"@, target@),
            ("ARCH"@, arch_of(target@)),
        ],
{
    let mut r: Vec<(String, String)> = Vec::new();
    let debug_value: String = if debug {
        "1".to_owned()
    } else {
        "0".to_owned()
    };
    r.push(("DEBUG".to_owned(), debug_value));
    r.push(("TARGET".to_owned(), target.to_owned()));
    r.push(("HOST".to_owned(), target.to_owned()));
    let arch: String = match str_find(target, "_") {
        Some(i) => {
            proof {
                lemma_find_at_bounds(target@, "_"@, 0);
            }
            target.substring_char(0, i).to_owned()
        },
        None => target.to_owned(),
    };
    r.push(("ARCH".to_owned(), arch));
    assert(r.deep_view() =~= seq![
        ("DEBUG"@, if debug { "1"@ } else { "0"@ }),
        ("TARGET"@, target@),
        ("HOST"@, target@),
        ("ARCH"@, arch_of(target@)),
    ]);
    r
}

/// The manifest file a package record is written to, and its text.
#[derive(Debug, Clone, PartialEq, Eq)]
pub struct Manifest {
    /// Where the manifest goes, inside the staging tree.
    pub path: String,
    /// The manifest text.
    pub contents: String,
}

/// What `meta` returns: the version hook's failure if it failed; otherwise
/// `MissingVar("name")` if the recipe defines no `name`; otherwise
/// `MissingVar("version")` if the trimmed capture is empty — a package
/// record never carries an empty version, and checking for emptiness is the
/// metadata builder's own duty; otherwise the record — name from the
/// recipe, version as captured and trimmed, the caller's target, and the
/// `depends` array or empty in its place.
pub open spec fn meta_spec(
    vars: Seq<(Seq<char>, Seq<char>)>,
    arrays: Seq<(Seq<char>, Seq<Seq<char>>)>,
    target: Seq<char>,
    outcome: HookOutcomeView,
    captured: Seq<char>,
) -> Result<MetaView, CookErrorView> {
    match hook_error("version"@, outcome) {
        Some(e) => Err(e),
        None => match lookup(vars, "name"@) {
            None => Err(CookErrorView::MissingVar("name"@)),
            Some(n) => if trimmed(captured).len() == 0 {
                Err(CookErrorView::MissingVar("version"@))
            } else {
                Ok(
                    MetaView {
                        name: n,
                        version: trimmed(captured),
                        target,
                        depends: match lookup(arrays, "depends"@) {
                            Some(d) => d,
                            None => Seq::empty(),
                        },
                    },
                )
            },
        },
    }
}

/// What `tar` returns: `meta`'s failure if it failed, otherwise the manifest
/// path `stage/pkg/<name>.toml` and the manifest text of the record.
pub open spec fn tar_spec(
    vars: Seq<(Seq<char>, Seq<char>)>,
    arrays: Seq<(Seq<char>, Seq<Seq<char>>)>,
    target: Seq<char>,
    outcome: HookOutcomeView,
    captured: Seq<char>,
) -> Result<(Seq<char>, Seq<char>), CookErrorView> {
    match meta_spec(vars, arrays, target, outcome, captured) {
        Err(e) => Err(e),
        Ok(m) => Ok(
            (
                "stage/pkg/"@ + m.name + ".toml"@,
                meta_doc(m.name, m.version, m.target, m.depends),
            ),
        ),
    }
}

/// A loaded recipe: the target triple, the debug flag, and the variables and
/// arrays its script defined.
pub struct Recipe {
    /// The target triple packages are built for.
    pub target: String,
    /// Whether a debug build was asked for.
    pub debug: bool,
    /// The script's string variables, in definition order.
    pub vars: Vec<(String, String)>,
    /// The script's array variables, in definition order.
    pub arrays: Vec<(String, Vec<String>)>,
}

impl Recipe {
    /// A recipe from the driver's snapshot of the loaded script.
    pub fn new(
        target: String,
        debug: bool,
        vars: Vec<(String, String)>,
        arrays: Vec<(String, Vec<String>)>,
    ) -> (r: Recipe)
        ensures
            r.target@ == target@,
            r.debug == debug,
            r.vars.deep_view() == vars.deep_view(),
            r.arrays.deep_view() == arrays.deep_view(),
    {
        Recipe { target, debug, vars, arrays }
    }

    /// The recipe's variable of the given name, if its script defined one.
    pub fn get_var(&self, name: &str) -> (r: Option<String>)
        ensures
            match r {
                Some(v) => lookup(self.vars.deep_view(), name@) == Some(v@),
                None => lookup(self.vars.deep_view(), name@) is None,
            },
    {
        let ghost dv = self.vars.deep_view();
        let n: usize = self.vars.len();
        proof {
            assert(dv.subrange(0, n as int) =~= dv);
        }
        let mut i: usize = 0;
        while i < n
            invariant
                i <= n,
                n == self.vars@.len(),
                dv == self.vars.deep_view(),
                lookup(dv, name@) == lookup(dv.subrange(i as int, n as int), name@),
            decreases n - i,
        {
            if str_eq(self.vars[i].0.as_str(), name) {
                assert(dv.subrange(i as int, n as int)[0] == dv[i as int]);
                return Some(self.vars[i].1.clone());
            }
            proof {
                assert(dv.subrange(i as int, n as int).drop_first() =~= dv.subrange(
                    i + 1,
                    n as int,
                ));
            }
            i = i + 1;
        }
        None
    }

    /// The recipe's array of the given name, if its script defined one.
    pub fn get_array(&self, name: &str) -> (r: Option<Vec<String>>)
        ensures
            match r {
                Some(v) => lookup(self.arrays.deep_view(), name@) == Some(v.deep_view()),
                None => lookup(self.arrays.deep_view(), name@) is None,
            },
    {
        let ghost dv = self.arrays.deep_view();
        let n: usize = self.arrays.len();
        proof {
            assert(dv.subrange(0, n as int) =~= dv);
        }
        let mut i: usize = 0;
        while i < n
            invariant
                i <= n,
                n == self.arrays@.len(),
                dv == self.arrays.deep_view(),
                lookup(dv, name@) == lookup(dv.subrange(i as int, n as int), name@),
            decreases n - i,
        {
            if str_eq(self.arrays[i].0.as_str(), name) {
                assert(dv.subrange(i as int, n as int)[0] == dv[i as int]);
                return Some(clone_strings(&self.arrays[i].1));
            }
            proof {
                assert(dv.subrange(i as int, n as int).drop_first() =~= dv.subrange(
                    i + 1,
                    n as int,
                ));
            }
            i = i + 1;
        }
        None
    }

    /// Resolves the recipe's `src` variable into a typed source
    /// specification; `MissingVar("src")` when the recipe has none.
    pub fn src(&self) -> (r: Result<Source, CookError>)
        ensures
            match r {
                Ok(src) => lookup(self.vars.deep_view(), "src"@) matches Some(s) && src@
                    == resolve_spec(s),
                Err(e) => lookup(self.vars.deep_view(), "src"@) is None && e@
                    == CookErrorView::MissingVar("src"@),
            },
    {
        match self.get_var("src") {
            Some(s) => Ok(resolve(s.as_str())),
            None => Err(CookError::MissingVar("src".to_owned())),
        }
    }

    /// Plans a fetch: resolves the source and, from which artifacts exist,
    /// returns exactly the commands of [`fetch_plan_spec`], in order.  The
    /// driver runs them first to last and aborts on the first failure.
    pub fn fetch(&self, st: &FsState) -> (r: Result<Vec<Cmd>, CookError>)
        ensures
            match r {
                Ok(plan) => lookup(self.vars.deep_view(), "src"@) matches Some(s)
                    && plan.deep_view() == fetch_plan_spec(resolve_spec(s), *st),
                Err(e) => lookup(self.vars.deep_view(), "src"@) is None && e@
                    == CookErrorView::MissingVar("src"@),
            },
    {
        match self.src() {
            Ok(src) => Ok(fetch_plan(&src, st)),
            Err(e) => Err(e),
        }
    }

    /// Judges an unfetch: the driver removed `source/` and `source.tar`, in
    /// that order; the first real failure wins, absence is success.
    pub fn unfetch(&self, source_dir: &RemovalOutcome, source_tar: &RemovalOutcome) -> (r: Result<
        (),
        CookError,
    >)
        ensures
            match r {
                Ok(_) => removal_error(source_dir@) is None && removal_error(source_tar@) is None,
                Err(e) => Some(e@) == if removal_error(source_dir@) is Some {
                    removal_error(source_dir@)
                } else {
                    removal_error(source_tar@)
                },
            },
    {
        match removal_result(source_dir) {
            Err(e) => Err(e),
            Ok(_) => removal_result(source_tar),
        }
    }

    /// Prepares the build tree: today that is exactly an unprepare — the
    /// recipe script itself creates `build/`.
    pub fn prepare(&self, build_dir: &RemovalOutcome) -> (r: Result<(), CookError>)
        ensures
            match r {
                Ok(_) => removal_error(build_dir@) is None,
                Err(e) => removal_error(build_dir@) == Some(e@),
            },
    {
        self.unprepare(build_dir)
    }

    /// Judges an unprepare: the driver removed `build/`.
    pub fn unprepare(&self, build_dir: &RemovalOutcome) -> (r: Result<(), CookError>)
        ensures
            match r {
                Ok(_) => removal_error(build_dir@) is None,
                Err(e) => removal_error(build_dir@) == Some(e@),
            },
    {
        removal_result(build_dir)
    }

    /// Judges a `build` hook outcome, run inside `source/`.
    pub fn build(&self, outcome: &HookOutcome) -> (r: Result<(), CookError>)
        ensures
            match r {
                Ok(_) => hook_error("build"@, outcome@) is None,
                Err(e) => hook_error("build"@, outcome@) == Some(e@),
            },
    {
        hook_result("build", outcome)
    }

    /// Judges a `test` hook outcome, run inside `source/`.
    pub fn test(&self, outcome: &HookOutcome) -> (r: Result<(), CookError>)
        ensures
            match r {
                Ok(_) => hook_error("test"@, outcome@) is None,
                Err(e) => hook_error("test"@, outcome@) == Some(e@),
            },
    {
        hook_result("test", outcome)
    }

    /// Judges a `clean` hook outcome, run inside `source/`.  This runs only
    /// the recipe's own clean hook: a full reset is unfetch then fetch.
    pub fn clean(&self, outcome: &HookOutcome) -> (r: Result<(), CookError>)
        ensures
            match r {
                Ok(_) => hook_error("clean"@, outcome@) is None,
                Err(e) => hook_error("clean"@, outcome@) == Some(e@),
            },
    {
        hook_result("clean", outcome)
    }

    /// Judges a stage: the prior staging tree must have been cleared first —
    /// stage always starts clean — then the `stage` hook ran with the
    /// absolute staging path as its argument.
    pub fn stage(&self, cleared: &RemovalOutcome, outcome: &HookOutcome) -> (r: Result<
        (),
        CookError,
    >)
        ensures
            match r {
                Ok(_) => removal_error(cleared@) is None && hook_error("stage"@, outcome@) is None,
                Err(e) => Some(e@) == if removal_error(cleared@) is Some {
                    removal_error(cleared@)
                } else {
                    hook_error("stage"@, outcome@)
                },
            },
    {
        match removal_result(cleared) {
            Err(e) => Err(e),
            Ok(_) => hook_result("stage", outcome),
        }
    }

    /// Judges an unstage: the driver removed `stage/`.
    pub fn unstage(&self, stage_dir: &RemovalOutcome) -> (r: Result<(), CookError>)
        ensures
            match r {
                Ok(_) => removal_error(stage_dir@) is None,
                Err(e) => removal_error(stage_dir@) == Some(e@),
            },
    {
        removal_result(stage_dir)
    }

    /// Judges an untar: the driver removed the final archive artifact.
    pub fn untar(&self, stage_tar: &RemovalOutcome) -> (r: Result<(), CookError>)
        ensures
            match r {
                Ok(_) => removal_error(stage_tar@) is None,
                Err(e) => removal_error(stage_tar@) == Some(e@),
            },
    {
        removal_result(stage_tar)
    }

    /// Judges a captured `version` hook run: the captured output with one
    /// trailing newline trimmed, or the hook's own failure.  An absent hook
    /// captures nothing and yields the empty string.
    pub fn version(&self, outcome: &HookOutcome, captured: &str) -> (r: Result<String, CookError>)
        ensures
            match r {
                Ok(v) => hook_error("version"@, outcome@) is None && v@ == trimmed(captured@),
                Err(e) => hook_error("version"@, outcome@) == Some(e@),
            },
    {
        version_result(outcome, captured)
    }

    /// Assembles the package record from the captured `version` run and the
    /// recipe's `name` and `depends` variables, exactly as [`meta_spec`]
    /// says.
    pub fn meta(&self, outcome: &HookOutcome, captured: &str) -> (r: Result<PackageMeta, CookError>)
        ensures
            match r {
                Ok(m) => meta_spec(
                    self.vars.deep_view(),
                    self.arrays.deep_view(),
                    self.target@,
                    outcome@,
                    captured@,
                ) == Ok::<MetaView, CookErrorView>(m@),
                Err(e) => meta_spec(
                    self.vars.deep_view(),
                    self.arrays.deep_view(),
                    self.target@,
                    outcome@,
                    captured@,
                ) == Err::<MetaView, CookErrorView>(e@),
            },
    {
        let version = match self.version(outcome, captured) {
            Ok(v) => v,
            Err(e) => {
                return Err(e);
            },
        };
        let name = match self.get_var("name") {
            Some(n) => n,
            None => {
                return Err(CookError::MissingVar("name".to_owned()));
            },
        };
        if version.as_str().is_empty() {
            return Err(CookError::MissingVar("version".to_owned()));
        }
        let depends = match self.get_array("depends") {
            Some(d) => d,
            None => Vec::new(),
        };
        proof {
            assert(depends.deep_view() =~= match lookup(self.arrays.deep_view(), "depends"@) {
                Some(d) => d,
                None => Seq::<Seq<char>>::empty(),
            });
        }
        Ok(PackageMeta { name, version, target: self.target.clone(), depends })
    }

    /// Produces the manifest a `tar` writes before handing the staging tree
    /// to the archiver: its path inside the staging tree and its full text,
    /// exactly as [`tar_spec`] says.
    pub fn tar(&self, outcome: &HookOutcome, captured: &str) -> (r: Result<Manifest, CookError>)
        ensures
            match r {
                Ok(man) => tar_spec(
                    self.vars.deep_view(),
                    self.arrays.deep_view(),
                    self.target@,
                    outcome@,
                    captured@,
                ) == Ok::<(Seq<char>, Seq<char>), CookErrorView>((man.path@, man.contents@)),
                Err(e) => tar_spec(
                    self.vars.deep_view(),
                    self.arrays.deep_view(),
                    self.target@,
                    outcome@,
                    captured@,
                ) == Err::<(Seq<char>, Seq<char>), CookErrorView>(e@),
            },
    {
        match self.meta(outcome, captured) {
            Err(e) => Err(e),
            Ok(m) => {
                let head = str_concat("stage/pkg/", m.name.as_str());
                let path = head.concat(".toml");
                let contents = m.to_toml();
                Ok(Manifest { path, contents })
            },
        }
    }
}

/// The arguments the `stage` hook receives: its own name, then the absolute
/// path of the staging tree — absolute because hook bodies may change their
/// working directory.
pub fn stage_args(abs_stage_path: &str) -> (r: Vec<String>)
    ensures
        r.deep_view() == seq!["stage"@, abs_stage_path@],
{
    let mut extra: Vec<String> = Vec::new();
    extra.push(abs_stage_path.to_owned());
    let r = hook_args("stage", &extra);
    assert(r.deep_view() =~= seq!["stage"@, abs_stage_path@]);
    r
}

/// Law: a failing `version` hook aborts `meta`, and so `tar`, with exactly
/// that failure — no later step of either runs.
pub proof fn lemma_version_failure_propagates(
    vars: Seq<(Seq<char>, Seq<char>)>,
    arrays: Seq<(Seq<char>, Seq<Seq<char>>)>,
    target: Seq<char>,
    outcome: HookOutcomeView,
    captured: Seq<char>,
    e: CookErrorView,
)
    requires
        hook_error("version"@, outcome) == Some(e),
    ensures
        meta_spec(vars, arrays, target, outcome, captured) == Err::<MetaView, CookErrorView>(e),
        tar_spec(vars, arrays, target, outcome, captured) == Err::<
            (Seq<char>, Seq<char>),
            CookErrorView,
        >(e),
{
}

/// Law: a package record never carries an empty version — `meta` returns a
/// record only when the trimmed capture is non-empty, and refuses an empty
/// one with exactly `MissingVar("version")`.
pub proof fn lemma_meta_version_never_empty(
    vars: Seq<(Seq<char>, Seq<char>)>,
    arrays: Seq<(Seq<char>, Seq<Seq<char>>)>,
    target: Seq<char>,
    outcome: HookOutcomeView,
    captured: Seq<char>,
)
    ensures
        meta_spec(vars, arrays, target, outcome, captured) matches Ok(m) ==> m.version.len() > 0,
        hook_error("version"@, outcome) is None && lookup(vars, "name"@) is Some && trimmed(
            captured,
        ).len() == 0 ==> meta_spec(vars, arrays, target, outcome, captured) == Err::<
            MetaView,
            CookErrorView,
        >(CookErrorView::MissingVar("version"@)),
{
}

/// Law: a recipe with no `name` variable fails `meta`, and so `tar`, with
/// exactly `MissingVar("name")`.
pub proof fn lemma_meta_missing_name(
    vars: Seq<(Seq<char>, Seq<char>)>,
    arrays: Seq<(Seq<char>, Seq<Seq<char>>)>,
    target: Seq<char>,
    outcome: HookOutcomeView,
    captured: Seq<char>,
)
    requires
        hook_error("version"@, outcome) is None,
        lookup(vars, "name"@) is None,
    ensures
        meta_spec(vars, arrays, target, outcome, captured) == Err::<MetaView, CookErrorView>(
            CookErrorView::MissingVar("name"@),
        ),
        tar_spec(vars, arrays, target, outcome, captured) == Err::<
            (Seq<char>, Seq<char>),
            CookErrorView,
        >(CookErrorView::MissingVar("name"@)),
{
}

} // verus!
