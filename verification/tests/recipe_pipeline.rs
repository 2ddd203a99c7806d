//! The recipe façade end to end: seeding, variable lookup, source
//! resolution, metadata assembly and the manifest `tar` writes.

use cook::error::CookError;
use cook::hooks::HookOutcome;
use cook::pipeline::{Cmd, FsState, RemovalOutcome};
use cook::recipe::{seed_vars, stage_args, Recipe};
use cook::source::Source;

const TARGET: &str = "x86_64-unknown-redox";

fn empty_state() -> FsState {
    FsState {
        source_dir: false,
        source_tar: false,
        build_dir: false,
        stage_dir: false,
        stage_tar: false,
    }
}

fn recipe_with(vars: Vec<(&str, &str)>, arrays: Vec<(&str, Vec<&str>)>) -> Recipe {
    let vars = vars
        .into_iter()
        .map(|(k, v)| (k.to_string(), v.to_string()))
        .collect();
    let arrays = arrays
        .into_iter()
        .map(|(k, v)| (k.to_string(), v.into_iter().map(str::to_string).collect()))
        .collect();
    Recipe::new(TARGET.to_string(), false, vars, arrays)
}

#[test]
fn seeded_variables() {
    let seeds = seed_vars(TARGET, true);
    assert_eq!(
        seeds,
        vec![
            ("DEBUG".to_string(), "1".to_string()),
            ("TARGET".to_string(), TARGET.to_string()),
            ("HOST".to_string(), TARGET.to_string()),
            ("ARCH".to_string(), "x86".to_string()),
        ]
    );
    let seeds = seed_vars("aarch64-unknown-redox", false);
    assert_eq!(seeds[0], ("DEBUG".to_string(), "0".to_string()));
    // No underscore in the triple: the whole of it is the architecture.
    assert_eq!(seeds[3], ("ARCH".to_string(), "aarch64-unknown-redox".to_string()));
}

#[test]
fn variables_and_arrays_are_looked_up() {
    let recipe = recipe_with(
        vec![("name", "foo"), ("src", "u")],
        vec![("depends", vec!["a", "b"])],
    );
    assert_eq!(recipe.get_var("name"), Some("foo".to_string()));
    assert_eq!(recipe.get_var("absent"), None);
    assert_eq!(
        recipe.get_array("depends"),
        Some(vec!["a".to_string(), "b".to_string()])
    );
    assert_eq!(recipe.get_array("absent"), None);
}

#[test]
fn src_missing_variable() {
    let recipe = recipe_with(vec![("name", "foo")], vec![]);
    assert_eq!(recipe.src(), Err(CookError::MissingVar("src".to_string())));
}

#[test]
fn src_resolves_the_variable() {
    let recipe = recipe_with(vec![("src", "git://h/r.git#branch=dev")], vec![]);
    assert_eq!(
        recipe.src(),
        Ok(Source::VersionControl {
            url: "git://h/r.git".to_string(),
            branch: Some("dev".to_string()),
        })
    );
}

#[test]
fn fetch_plans_from_the_src_variable() {
    let recipe = recipe_with(vec![("src", "https://example.com/x.tar.gz")], vec![]);
    let plan = recipe.fetch(&empty_state()).unwrap();
    assert_eq!(
        plan,
        vec![
            Cmd::Download { url: "https://example.com/x.tar.gz".to_string() },
            Cmd::CreateSourceDir,
            Cmd::ExtractSource,
        ]
    );
    let recipe = recipe_with(vec![], vec![]);
    assert_eq!(
        recipe.fetch(&empty_state()),
        Err(CookError::MissingVar("src".to_string()))
    );
}

#[test]
fn meta_assembles_the_record() {
    let recipe = recipe_with(vec![("name", "foo")], vec![]);
    let m = recipe.meta(&HookOutcome::Exit(0), "9\n").unwrap();
    assert_eq!(m.name, "foo");
    assert_eq!(m.version, "9");
    assert_eq!(m.target, TARGET);
    assert_eq!(m.depends, Vec::<String>::new());
}

#[test]
fn meta_takes_the_depends_array() {
    let recipe = recipe_with(vec![("name", "foo")], vec![("depends", vec!["a", "b"])]);
    let m = recipe.meta(&HookOutcome::Exit(0), "1.0\n").unwrap();
    assert_eq!(m.depends, vec!["a".to_string(), "b".to_string()]);
}

#[test]
fn meta_missing_name_fails() {
    // Never a null dereference or unchecked access: exactly
    // MissingVar("name").
    let recipe = recipe_with(vec![], vec![]);
    let r = recipe.meta(&HookOutcome::Missing, "");
    assert_eq!(r, Err(CookError::MissingVar("name".to_string())));
    let r = recipe.tar(&HookOutcome::Missing, "");
    assert_eq!(r, Err(CookError::MissingVar("name".to_string())));
}

#[test]
fn meta_empty_version_fails() {
    // A record never carries an empty version: an absent version hook, or
    // one that printed only a newline, fails meta and tar.
    let recipe = recipe_with(vec![("name", "foo")], vec![]);
    assert_eq!(
        recipe.meta(&HookOutcome::Missing, ""),
        Err(CookError::MissingVar("version".to_string()))
    );
    assert_eq!(
        recipe.meta(&HookOutcome::Exit(0), "\n"),
        Err(CookError::MissingVar("version".to_string()))
    );
    assert_eq!(
        recipe.tar(&HookOutcome::Exit(0), ""),
        Err(CookError::MissingVar("version".to_string()))
    );
}

#[test]
fn meta_version_failure_aborts() {
    // A failing version hook aborts meta and tar with that failure; the
    // name lookup never runs.
    let recipe = recipe_with(vec![("name", "foo")], vec![]);
    let r = recipe.meta(&HookOutcome::Exit(4), "");
    assert_eq!(r, Err(CookError::NonZero("version".to_string(), 4)));
    let r = recipe.tar(&HookOutcome::Interpreter("boom".to_string()), "");
    assert_eq!(r, Err(CookError::Scripting("boom".to_string())));
}

#[test]
fn tar_writes_the_manifest() {
    // End to end: name foo, a version hook that printed "9\n", empty
    // depends — the manifest lands at stage/pkg/foo.toml with exactly the
    // record.
    let recipe = recipe_with(vec![("name", "foo")], vec![]);
    let man = recipe.tar(&HookOutcome::Exit(0), "9\n").unwrap();
    assert_eq!(man.path, "stage/pkg/foo.toml");
    assert_eq!(
        man.contents,
        "name = \"foo\"\nversion = \"9\"\ntarget = \"x86_64-unknown-redox\"\ndepends = []\n"
    );
}

#[test]
fn tar_manifest_lists_depends() {
    let recipe = recipe_with(vec![("name", "foo")], vec![("depends", vec!["a", "b"])]);
    let man = recipe.tar(&HookOutcome::Exit(0), "9").unwrap();
    assert_eq!(
        man.contents,
        "name = \"foo\"\nversion = \"9\"\ntarget = \"x86_64-unknown-redox\"\ndepends = [\"a\", \"b\"]\n"
    );
}

#[test]
fn build_test_clean_judgments() {
    let recipe = recipe_with(vec![], vec![]);
    // Optional hooks that are absent succeed with no side effect.
    assert_eq!(recipe.build(&HookOutcome::Missing), Ok(()));
    assert_eq!(recipe.test(&HookOutcome::Missing), Ok(()));
    assert_eq!(recipe.clean(&HookOutcome::Missing), Ok(()));
    assert_eq!(
        recipe.build(&HookOutcome::Exit(1)),
        Err(CookError::NonZero("build".to_string(), 1))
    );
    assert_eq!(
        recipe.test(&HookOutcome::Exit(77)),
        Err(CookError::NonZero("test".to_string(), 77))
    );
}

#[test]
fn stage_requires_a_clean_tree_first() {
    let recipe = recipe_with(vec![], vec![]);
    // Clearing failed: the hook's outcome does not matter.
    let r = recipe.stage(
        &RemovalOutcome::Failed("busy".to_string()),
        &HookOutcome::Exit(0),
    );
    assert_eq!(r, Err(CookError::IO("busy".to_string())));
    // Cleared (or nothing to clear): the hook decides.
    assert_eq!(
        recipe.stage(&RemovalOutcome::AlreadyAbsent, &HookOutcome::Missing),
        Ok(())
    );
    assert_eq!(
        recipe.stage(&RemovalOutcome::Removed, &HookOutcome::Exit(9)),
        Err(CookError::NonZero("stage".to_string(), 9))
    );
}

#[test]
fn stage_hook_gets_the_absolute_path() {
    assert_eq!(
        stage_args("/work/stage"),
        vec!["stage".to_string(), "/work/stage".to_string()]
    );
}

#[test]
fn removals_judge_in_order() {
    let recipe = recipe_with(vec![], vec![]);
    // unfetch removes source/ then source.tar; the first failure wins.
    assert_eq!(
        recipe.unfetch(&RemovalOutcome::AlreadyAbsent, &RemovalOutcome::AlreadyAbsent),
        Ok(())
    );
    assert_eq!(
        recipe.unfetch(
            &RemovalOutcome::Failed("d".to_string()),
            &RemovalOutcome::Failed("t".to_string()),
        ),
        Err(CookError::IO("d".to_string()))
    );
    assert_eq!(
        recipe.unfetch(
            &RemovalOutcome::Removed,
            &RemovalOutcome::Failed("t".to_string()),
        ),
        Err(CookError::IO("t".to_string()))
    );
    assert_eq!(recipe.unprepare(&RemovalOutcome::AlreadyAbsent), Ok(()));
    assert_eq!(recipe.prepare(&RemovalOutcome::Removed), Ok(()));
    assert_eq!(recipe.unstage(&RemovalOutcome::AlreadyAbsent), Ok(()));
    assert_eq!(recipe.untar(&RemovalOutcome::AlreadyAbsent), Ok(()));
}

#[test]
fn version_judgment_on_the_recipe() {
    let recipe = recipe_with(vec![], vec![]);
    assert_eq!(recipe.version(&HookOutcome::Exit(0), "2.4\n"), Ok("2.4".to_string()));
    assert_eq!(recipe.version(&HookOutcome::Missing, ""), Ok("".to_string()));
    assert_eq!(
        recipe.version(&HookOutcome::Exit(5), ""),
        Err(CookError::NonZero("version".to_string(), 5))
    );
}
