use brew_orphans::cascade::start_cascade;
use brew_orphans::deps::build_dep_set;
use brew_orphans::deps::Formula;
use brew_orphans::deps::InstalledVersion;
use brew_orphans::names::contains_name;
use brew_orphans::orphans::get_non_dep_formulas;
use brew_orphans::remover::run_cascade;

fn formula(name: &str, deps: &[&str], bottle: bool) -> Formula {
    Formula {
        full_name: name.to_string(),
        dependencies: deps.iter().map(|d| d.to_string()).collect(),
        oldnames: Vec::new(),
        build_dependencies: Vec::new(),
        bottle,
        installed: Vec::new(),
    }
}

fn names(list: &[&str]) -> Vec<String> {
    list.iter().map(|n| n.to_string()).collect()
}

fn has(set: &Vec<String>, name: &str) -> bool {
    contains_name(set, &name.to_string())
}

#[test]
fn scenario_a_list() {
    // installed = {a, b, c}; a depends on b; b and c have no dependents.
    let world = vec![
        formula("a", &["b"], true),
        formula("b", &[], true),
        formula("c", &[], true),
    ];
    let installed = names(&["a", "b", "c"]);
    let deps = build_dep_set(&world);
    assert!(has(&deps, "b"));
    assert!(!has(&deps, "a"));
    assert!(!has(&deps, "c"));
    let orphans = get_non_dep_formulas(&installed, &deps);
    assert_eq!(orphans, names(&["a", "c"]));
}

#[test]
fn scenario_b_cascade_removes_target_and_freed_dep() {
    // Removing a uncovers b; c stays untouched.
    let mut world = vec![
        formula("a", &["b"], true),
        formula("b", &[], true),
        formula("c", &[], true),
    ];
    let removed = run_cascade(&mut world, &"a".to_string());
    assert_eq!(removed, Some(names(&["a", "b"])));
    assert_eq!(world.len(), 1);
    assert_eq!(world[0].full_name, "c".to_string());
}

#[test]
fn scenario_c_target_still_needed_is_refused() {
    // b is a dependency of a, so rm-dep b must do nothing.
    let mut world = vec![
        formula("a", &["b"], true),
        formula("b", &[], true),
        formula("c", &[], true),
    ];
    let removed = run_cascade(&mut world, &"b".to_string());
    assert_eq!(removed, None);
    assert_eq!(world.len(), 3);
    assert_eq!(world[0].full_name, "a".to_string());
    assert_eq!(world[1].full_name, "b".to_string());
    assert_eq!(world[2].full_name, "c".to_string());
}

#[test]
fn scenario_d_alias_closure_adds_old_name() {
    // x carries the prior name x-old; y depends on x, so both spellings of
    // the name count as used.
    let mut x = formula("x", &[], true);
    x.oldnames = names(&["x-old"]);
    let y = formula("y", &["x"], true);
    let world = vec![x, y];
    let deps = build_dep_set(&world);
    assert!(has(&deps, "x"));
    assert!(has(&deps, "x-old"));
    let orphans = get_non_dep_formulas(&names(&["x", "y"]), &deps);
    assert_eq!(orphans, names(&["y"]));
}

#[test]
fn alias_closure_is_asymmetric() {
    // A dependency spelled with the prior name alone does not make the
    // canonical name count as used.
    let mut x = formula("x", &[], true);
    x.oldnames = names(&["x-old"]);
    let y = formula("y", &["x-old"], true);
    let world = vec![x, y];
    let deps = build_dep_set(&world);
    assert!(has(&deps, "x-old"));
    assert!(!has(&deps, "x"));
}

#[test]
fn bottle_policy_excludes_build_deps_of_bottled_formulas() {
    let mut f = formula("tool", &["runtime-lib"], true);
    f.build_dependencies = names(&["cmake"]);
    let deps = build_dep_set(&vec![f]);
    assert!(has(&deps, "runtime-lib"));
    assert!(!has(&deps, "cmake"));
}

#[test]
fn bottle_policy_includes_build_deps_of_unbottled_formulas() {
    let mut f = formula("tool", &["runtime-lib"], false);
    f.build_dependencies = names(&["cmake"]);
    let deps = build_dep_set(&vec![f]);
    assert!(has(&deps, "runtime-lib"));
    assert!(has(&deps, "cmake"));
}

#[test]
fn installed_runtime_deps_count_regardless_of_bottle() {
    let mut f = formula("tool", &[], true);
    f.installed = vec![InstalledVersion { runtime_dependencies: names(&["linked-lib"]) }];
    let deps = build_dep_set(&vec![f]);
    assert!(has(&deps, "linked-lib"));
}

#[test]
fn list_is_idempotent() {
    let world = vec![
        formula("a", &["b"], true),
        formula("b", &[], true),
        formula("c", &[], true),
    ];
    let installed = names(&["a", "b", "c"]);
    let deps1 = build_dep_set(&world);
    let first = get_non_dep_formulas(&installed, &deps1);
    let deps2 = build_dep_set(&world);
    let second = get_non_dep_formulas(&installed, &deps2);
    assert_eq!(first, second);
}

#[test]
fn empty_installed_list_has_no_orphans() {
    let world: Vec<Formula> = Vec::new();
    let deps = build_dep_set(&world);
    let orphans = get_non_dep_formulas(&Vec::new(), &deps);
    assert!(orphans.is_empty());
}

#[test]
fn orphans_keep_installed_order() {
    let installed = names(&["zeta", "alpha", "mu"]);
    let deps = names(&["alpha"]);
    let orphans = get_non_dep_formulas(&installed, &deps);
    assert_eq!(orphans, names(&["zeta", "mu"]));
}

#[test]
fn duplicate_installed_names_keep_their_multiplicity() {
    let installed = names(&["a", "a", "b"]);
    let deps = names(&["b"]);
    let orphans = get_non_dep_formulas(&installed, &deps);
    assert_eq!(orphans, names(&["a", "a"]));
}

#[test]
fn cascade_steps_follow_the_fixed_point() {
    // The step-wise driver: a is popped first, the rescan uncovers b, a
    // second rescan uncovers nothing and ends the cascade.
    let baseline = names(&["a", "c"]);
    let started = start_cascade("a".to_string(), &baseline);
    assert!(started.is_some());
    let mut c = started.unwrap();
    let first = c.next_target();
    assert_eq!(first, Some("a".to_string()));
    assert!(!c.has_targets());
    let found = c.rescan(&names(&["b", "c"]));
    assert!(found);
    let second = c.next_target();
    assert_eq!(second, Some("b".to_string()));
    let found_again = c.rescan(&names(&["c"]));
    assert!(!found_again);
    assert!(!c.has_targets());
}

#[test]
fn cascade_refuses_a_non_orphan_target() {
    let baseline = names(&["a", "c"]);
    let started = start_cascade("b".to_string(), &baseline);
    assert!(started.is_none());
}

#[test]
fn cascade_chain_removes_three_levels() {
    // a -> b -> c: removing a cascades through b to c.
    let mut world = vec![
        formula("a", &["b"], true),
        formula("b", &["c"], true),
        formula("c", &[], true),
        formula("d", &[], true),
    ];
    let removed = run_cascade(&mut world, &"a".to_string());
    assert_eq!(removed, Some(names(&["a", "b", "c"])));
    assert_eq!(world.len(), 1);
    assert_eq!(world[0].full_name, "d".to_string());
}

#[test]
fn shared_dependency_survives_cascade() {
    // b is needed by both a and keeper: removing a must not remove b.
    let mut world = vec![
        formula("a", &["b"], true),
        formula("b", &[], true),
        formula("keeper", &["b"], true),
    ];
    let removed = run_cascade(&mut world, &"a".to_string());
    assert_eq!(removed, Some(names(&["a"])));
    assert_eq!(world.len(), 2);
    assert_eq!(world[0].full_name, "b".to_string());
    assert_eq!(world[1].full_name, "keeper".to_string());
}
