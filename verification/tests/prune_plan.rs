use theseus::prune::excluded_mod_ids;
use theseus::prune::{compute_prune_plan, DependencySpec, InstalledMod, ModMetadata};

fn dep(id: &str) -> DependencySpec {
    DependencySpec { id: id.to_string(), optional: false }
}

fn meta(path: &str, id: &str, depends: Vec<DependencySpec>) -> InstalledMod {
    InstalledMod {
        path: path.to_string(),
        file_name: path.to_string(),
        metadata: ModMetadata {
            id: Some(id.to_string()),
            environment: None,
            provides: Vec::new(),
            depends: Some(depends),
        },
    }
}

#[test]
fn prune_plan_cascades_through_hard_dependencies() {
    let metas = vec![
        meta("a.jar", "consumer", vec![dep("missing-lib")]),
        meta("b.jar", "middleman", vec![dep("consumer")]),
        meta("c.jar", "unrelated", vec![dep("fabric-api")]),
    ];
    let plan = compute_prune_plan(&metas, &["missing-lib".to_string()], &[]);

    let removed: Vec<&str> = plan.iter().map(|(path, _)| path.as_str()).collect();
    assert_eq!(removed, vec!["a.jar", "b.jar"]);
    assert!(plan[0].1.contains("missing-lib"));
}

#[test]
fn prune_plan_respects_local_provides() {
    let mut shim = meta("shim.jar", "melody-shim", vec![]);
    shim.metadata.provides = vec!["melody".to_string()];
    let ui = meta("ui.jar", "ui", vec![dep("melody")]);
    // A local mod provides the "missing" dependency, so the dependent stays.
    let metas = vec![shim, ui];
    assert!(compute_prune_plan(&metas, &["melody".to_string()], &[]).is_empty());

    // Once the provider itself is removed, the dependent goes with it.
    let mut provider = meta("provider.jar", "melody-shim", vec![dep("removed-core")]);
    provider.metadata.provides = vec!["melody".to_string()];
    let metas = vec![provider, meta("ui.jar", "ui", vec![dep("melody")])];
    let plan = compute_prune_plan(
        &metas,
        &["melody".to_string(), "removed-core".to_string()],
        &[],
    );
    assert_eq!(plan.len(), 2);
}

#[test]
fn client_declared_mods_are_removed_unless_the_pack_allows_them() {
    let mut client = meta("fancymenu.jar", "fancymenu", vec![]);
    client.metadata.environment = Some("client".to_string());
    let mut allowed = meta("allowed.jar", "allowed", vec![]);
    allowed.metadata.environment = Some("client".to_string());
    let mut server = meta("server-mod.jar", "server", vec![]);
    server.metadata.environment = Some("*".to_string());
    let dependent = meta("konkrete.jar", "konkrete", vec![dep("fancymenu")]);
    let metas = vec![client, allowed, server, dependent];
    let plan = compute_prune_plan(&metas, &[], &["allowed.jar".to_string()]);
    // The client-only mod's id counts as removed, so its dependent goes too.
    assert_eq!(
        plan,
        vec![
            ("fancymenu.jar".to_string(), "client-only".to_string()),
            ("konkrete.jar".to_string(), "requires fancymenu".to_string()),
        ]
    );
}

#[test]
fn allowed_mods_are_never_pruned() {
    let mut a = meta("a.jar", "a", vec![]);
    a.metadata.environment = Some("client".to_string());
    let b = meta("b.jar", "b", vec![dep("a")]);
    let c = meta("c.jar", "c", vec![dep("a")]);
    let d = meta("d.jar", "d", vec![dep("c")]);
    let plan = compute_prune_plan(&[a, b, c, d], &[], &["b".to_string()]);
    assert_eq!(
        plan,
        vec![
            ("a.jar".to_string(), "client-only".to_string()),
            ("c.jar".to_string(), "requires a".to_string()),
            ("d.jar".to_string(), "requires c".to_string()),
        ]
    );
}

#[test]
fn optional_and_unshaped_dependencies_do_not_remove() {
    let optional = meta(
        "optional-dependent.jar",
        "optional-dependent",
        vec![DependencySpec { id: "melody".to_string(), optional: true }],
    );
    let mut list = meta("list-depends.jar", "list-depends", vec![]);
    list.metadata.depends = None;
    let plan = compute_prune_plan(&[optional, list], &["melody".to_string()], &[]);
    assert!(plan.is_empty());
}

#[test]
fn owned_and_hard_dependency_ids() {
    let mut m = meta("a.jar", "a", vec![dep("x"), DependencySpec { id: "y".to_string(), optional: true }, dep("z")]);
    m.metadata.provides = vec!["p".to_string()];
    assert_eq!(m.metadata.owned_ids(), vec!["a".to_string(), "p".to_string()]);
    assert_eq!(m.metadata.hard_dependencies(), vec!["x".to_string(), "z".to_string()]);
}

#[test]
fn mods_requiring_excluded_dependencies_are_pruned_in_cascade() {
    let fancymenu = meta("fancymenu.jar", "fancymenu", vec![dep("fabric-api"), dep("melody")]);
    let konkrete = meta("konkrete.jar", "konkrete", vec![dep("fancymenu")]);
    let plain = meta("plain.jar", "plain", vec![]);
    let plan = compute_prune_plan(&[fancymenu, konkrete, plain], &["melody".to_string()], &[]);
    assert_eq!(
        plan,
        vec![
            ("fancymenu.jar".to_string(), "requires melody".to_string()),
            ("konkrete.jar".to_string(), "requires fancymenu".to_string()),
        ]
    );
}

#[test]
fn excluded_mod_ids_collect_owned_ids() {
    let mut a = meta("a.jar", "a", vec![]).metadata;
    a.provides = vec!["a-api".to_string()];
    let b = meta("b.jar", "b", vec![]).metadata;
    let mut ids = excluded_mod_ids(&[a, b]);
    ids.sort();
    ids.dedup();
    assert_eq!(ids, vec!["a".to_string(), "a-api".to_string(), "b".to_string()]);
}
