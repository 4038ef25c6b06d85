use sushii_roles::catalog::{CatalogError, RoleCatalog};
use sushii_roles::command::{parse_actions, parse_command, Command, RoleAction, RoleActionKind};
use sushii_roles::config::{GuildGroup, GuildRole, GuildRoles};
use sushii_roles::dedup::dedup;
use sushii_roles::engine::{process_message, RoleOutcome};
use sushii_roles::reconcile::{reconcile, reset_roles, ReconciliationResult};
use sushii_roles::reply::{summary, HELP_TEXT, NO_CHANGES_TEXT, RESET_TEXT};

fn role(name: &str, primary_id: u64, secondary_id: Option<u64>) -> GuildRole {
    GuildRole { name: name.to_string(), primary_id, secondary_id }
}

fn group(name: &str, limit: u64, roles: Vec<GuildRole>) -> GuildGroup {
    GuildGroup { name: name.to_string(), limit, roles }
}

fn color_catalog() -> RoleCatalog {
    let config = GuildRoles {
        groups: vec![group("color", 1, vec![role("red", 1, None), role("blue", 2, None)])],
    };
    RoleCatalog::new(&config).unwrap()
}

fn gold_catalog() -> RoleCatalog {
    let config = GuildRoles {
        groups: vec![group(
            "tier",
            2,
            vec![role("gold", 10, Some(11)), role("silver", 20, Some(21))],
        )],
    };
    RoleCatalog::new(&config).unwrap()
}

fn action(index: usize, kind: RoleActionKind, name: &str) -> RoleAction {
    RoleAction { index, kind, role_name: name.to_string() }
}

fn sorted(mut v: Vec<u64>) -> Vec<u64> {
    v.sort();
    v.dedup();
    v
}

fn names(v: &[RoleAction]) -> Vec<(usize, RoleActionKind, String)> {
    v.iter().map(|a| (a.index, a.kind, a.role_name.clone())).collect()
}

fn reconciled(outcome: RoleOutcome) -> ReconciliationResult {
    match outcome {
        RoleOutcome::Reconciled(r) => r,
        other => panic!("expected a reconciliation, got {:?}", other),
    }
}

#[test]
fn parses_signed_tokens_in_order() {
    let acts = parse_actions("+Red Role  -blue");
    assert_eq!(
        names(&acts),
        vec![(0, RoleActionKind::Add, "red role".to_string()), (1, RoleActionKind::Remove, "blue".to_string())]
    );
}

#[test]
fn parses_sign_before_sign() {
    let acts = parse_actions("+-abc");
    assert_eq!(names(&acts), vec![(0, RoleActionKind::Remove, "abc".to_string())]);
}

#[test]
fn parses_run_of_spaces_as_empty_name() {
    let acts = parse_actions("+   !");
    assert_eq!(names(&acts), vec![(0, RoleActionKind::Add, String::new())]);
}

#[test]
fn parses_multibyte_and_digit_names() {
    let acts = parse_actions("+Ünïcode_2 -ROLE9");
    assert_eq!(
        names(&acts),
        vec![(0, RoleActionKind::Add, "ünïcode_2".to_string()), (1, RoleActionKind::Remove, "role9".to_string())]
    );
}

#[test]
fn punctuation_only_has_no_actions() {
    assert!(parse_actions("!!! ?? +").is_empty());
    assert!(matches!(parse_command("!!! ?? +"), Command::NoActions));
}

#[test]
fn reset_words_in_any_case() {
    assert!(matches!(parse_command("clear"), Command::Reset));
    assert!(matches!(parse_command("RESET"), Command::Reset));
    assert!(matches!(parse_command("Clear"), Command::Reset));
    assert!(matches!(parse_command("clear all"), Command::NoActions));
}

#[test]
fn dedup_cancels_opposite_pair() {
    let add_then_remove = vec![action(0, RoleActionKind::Add, "a"), action(1, RoleActionKind::Remove, "a")];
    assert!(dedup(&add_then_remove).is_empty());
    let remove_then_add = vec![action(0, RoleActionKind::Remove, "a"), action(1, RoleActionKind::Add, "a")];
    assert!(dedup(&remove_then_add).is_empty());
}

#[test]
fn dedup_collapses_same_kind_to_first() {
    let acts = vec![
        action(0, RoleActionKind::Add, "a"),
        action(1, RoleActionKind::Add, "a"),
        action(2, RoleActionKind::Add, "a"),
    ];
    assert_eq!(names(&dedup(&acts)), vec![(0, RoleActionKind::Add, "a".to_string())]);
}

#[test]
fn dedup_is_idempotent_and_ordered() {
    let acts = vec![
        action(3, RoleActionKind::Add, "c"),
        action(1, RoleActionKind::Remove, "b"),
        action(2, RoleActionKind::Add, "a"),
        action(0, RoleActionKind::Add, "b"),
        action(4, RoleActionKind::Add, "a"),
    ];
    let once = dedup(&acts);
    assert_eq!(
        names(&once),
        vec![(2, RoleActionKind::Add, "a".to_string()), (3, RoleActionKind::Add, "c".to_string())]
    );
    assert_eq!(names(&dedup(&once)), names(&once));
}

#[test]
fn dedup_cancel_then_readd() {
    let acts = vec![
        action(0, RoleActionKind::Add, "a"),
        action(1, RoleActionKind::Remove, "a"),
        action(2, RoleActionKind::Add, "a"),
    ];
    assert_eq!(names(&dedup(&acts)), vec![(2, RoleActionKind::Add, "a".to_string())]);
}

#[test]
fn catalog_rejects_name_in_two_groups() {
    let config = GuildRoles {
        groups: vec![
            group("color", 1, vec![role("Red", 1, None)]),
            group("other", 1, vec![role("  red ", 2, None)]),
        ],
    };
    match RoleCatalog::new(&config) {
        Err(CatalogError::DuplicateRoleName(n)) => assert_eq!(n, "red"),
        Ok(_) => panic!("duplicate names were accepted"),
    }
}

#[test]
fn catalog_lookup_normalizes_names() {
    let config = GuildRoles {
        groups: vec![group("color", 1, vec![role("  Dark Red ", 5, Some(6))])],
    };
    let catalog = RoleCatalog::new(&config).unwrap();
    let (def, group_name) = catalog.lookup("dark red").unwrap();
    assert_eq!(def.name, "dark red");
    assert_eq!(def.primary_id, 5);
    assert_eq!(def.secondary_id, Some(6));
    assert_eq!(group_name, "color");
    assert!(catalog.lookup("  Dark Red ").is_none());
    assert!(catalog.lookup("green").is_none());
}

#[test]
fn add_over_limit_is_reported() {
    let catalog = color_catalog();
    let r = reconciled(process_message(&catalog, &vec![], "+red +blue"));
    assert_eq!(r.added, vec!["red".to_string()]);
    assert_eq!(r.over_limit.len(), 1);
    assert_eq!(r.over_limit[0].group_name, "color");
    assert_eq!(r.over_limit[0].limit, 1);
    assert_eq!(r.over_limit[0].role_names, vec!["blue".to_string()]);
    assert_eq!(sorted(r.roles.clone()), vec![1]);
    assert_eq!(
        summary(&r),
        "Added roles: `red`\nCannot add roles that exceed role group limits:\n`blue` (color group has a limit of 1 roles)\n"
    );
}

#[test]
fn clear_resets_catalog_roles() {
    let catalog = color_catalog();
    let outcome = process_message(&catalog, &vec![1], "clear");
    match &outcome {
        RoleOutcome::Reset(kept) => assert!(kept.is_empty()),
        other => panic!("expected a reset, got {:?}", other),
    }
    assert_eq!(outcome.reply(), RESET_TEXT);
    assert_eq!(outcome.roles_to_commit(), Some(vec![]));
}

#[test]
fn reset_keeps_roles_outside_catalog() {
    let catalog = gold_catalog();
    let kept = reset_roles(&catalog, &vec![7, 10, 21, 8]);
    assert_eq!(kept, vec![7, 8]);
}

#[test]
fn unknown_text_gets_help() {
    let catalog = color_catalog();
    let outcome = process_message(&catalog, &vec![], "banana");
    assert!(matches!(outcome, RoleOutcome::Help));
    assert_eq!(outcome.reply(), HELP_TEXT);
    assert_eq!(outcome.roles_to_commit(), None);
}

#[test]
fn first_add_in_group_gets_primary_id() {
    let catalog = gold_catalog();
    let first = reconciled(process_message(&catalog, &vec![], "+gold"));
    assert_eq!(sorted(first.roles.clone()), vec![10]);
    let second = reconciled(process_message(&catalog, &vec![], "+gold"));
    assert_eq!(sorted(second.roles.clone()), vec![10]);
}

#[test]
fn later_add_in_group_gets_secondary_id() {
    let catalog = gold_catalog();
    let r = reconciled(process_message(&catalog, &vec![20], "+gold"));
    assert_eq!(r.added, vec!["gold".to_string()]);
    assert_eq!(sorted(r.roles.clone()), vec![11, 20]);
    let both = reconciled(process_message(&catalog, &vec![], "+silver +gold"));
    assert_eq!(sorted(both.roles.clone()), vec![11, 20]);
}

#[test]
fn removing_unheld_role_is_only_missing() {
    let catalog = color_catalog();
    let r = reconciled(process_message(&catalog, &vec![5], "-red"));
    assert_eq!(r.missing, vec!["red".to_string()]);
    assert!(r.added.is_empty());
    assert!(r.removed.is_empty());
    assert!(r.already_held.is_empty());
    assert!(r.over_limit.is_empty());
    assert_eq!(r.roles, vec![5]);
    assert_eq!(summary(&r), NO_CHANGES_TEXT);
    assert_eq!(RoleOutcome::Reconciled(r).roles_to_commit(), None);
}

#[test]
fn remove_drops_both_ids() {
    let catalog = gold_catalog();
    let r = reconciled(process_message(&catalog, &vec![3, 11], "-Gold"));
    assert_eq!(r.removed, vec!["gold".to_string()]);
    assert_eq!(sorted(r.roles.clone()), vec![3]);
    assert_eq!(summary(&r), "Removed roles: `gold`\n");
}

#[test]
fn add_already_held_and_unknown() {
    let catalog = gold_catalog();
    let r = reconciled(process_message(&catalog, &vec![11], "+gold +platinum"));
    assert_eq!(r.already_held, vec!["gold".to_string()]);
    assert!(r.added.is_empty());
    assert!(r.missing.is_empty());
    assert_eq!(r.roles, vec![11]);
}

#[test]
fn zero_limit_refuses_every_add() {
    let config = GuildRoles { groups: vec![group("pronouns", 0, vec![role("any", 4, None)])] };
    let catalog = RoleCatalog::new(&config).unwrap();
    let r = reconcile(&catalog, &vec![], &vec![action(0, RoleActionKind::Add, "any")]);
    assert!(r.added.is_empty());
    assert_eq!(r.over_limit[0].role_names, vec!["any".to_string()]);
    assert!(r.roles.is_empty());
}

#[test]
fn summary_lists_and_multi_digit_limit() {
    let mut roles = Vec::new();
    for i in 0..14u64 {
        roles.push(role(&format!("r{}", i), 100 + i, None));
    }
    let config = GuildRoles { groups: vec![group("many", 12, roles)] };
    let catalog = RoleCatalog::new(&config).unwrap();
    let held: Vec<u64> = (100..110).collect();
    let r = reconciled(process_message(&catalog, &held, "+r10 +r11 +r12 +r13 -r0 -r1"));
    assert_eq!(
        summary(&r),
        "Added roles: `r10`, `r11`\nRemoved roles: `r0`, `r1`\nCannot add roles that exceed role group limits:\n`r12`, `r13` (many group has a limit of 12 roles)\n"
    );
}

#[test]
fn examples_use_first_two_roles() {
    let config = GuildRoles {
        groups: vec![
            group("empty", 1, vec![]),
            group("color", 1, vec![role("Red", 1, None)]),
            group("tier", 1, vec![role("Gold", 2, None), role("Silver", 3, None)]),
        ],
    };
    assert_eq!(
        config.get_examples_string(),
        "Adding a single role: `+Red`\nRemoving a single role: `-Red`\nAdding multiple roles: `+Red +Gold`\nAdding and removing multiple roles `+Red -Gold`"
    );
    let single = GuildRoles { groups: vec![group("color", 1, vec![role("Red", 1, None)])] };
    assert_eq!(single.get_examples_string(), "");
}

#[test]
fn listing_shows_groups_limits_and_roles() {
    let config = GuildRoles {
        groups: vec![
            group("color", 1, vec![role("Red", 1, None), role("Blue", 2, None)]),
            group("tier", 0, vec![role("Gold", 3, Some(4))]),
        ],
    };
    assert_eq!(
        config.display_text(),
        "**Role Groups**\n> **color**\n> Limit: `1`\n> Roles: `Red`, `Blue`\n\n> **tier**\n> Roles: `Gold`\n"
    );
    let empty = GuildRoles { groups: vec![] };
    assert_eq!(empty.display_text(), "**Role Groups**\n");
}

#[test]
fn catalog_groups_and_their_definitions() {
    let config = GuildRoles {
        groups: vec![
            group("color", 1, vec![role("Red", 1, None), role("Blue", 2, None)]),
            group("Tier", 3, vec![role(" Gold", 10, Some(11))]),
        ],
    };
    let catalog = RoleCatalog::new(&config).unwrap();
    let groups = catalog.groups();
    assert_eq!(groups.len(), 2);
    assert_eq!(groups[1].name, "Tier");
    assert_eq!(groups[1].limit, 3);
    let colors: Vec<String> = catalog.group_definitions(0).into_iter().map(|d| d.name).collect();
    assert_eq!(colors, vec!["red".to_string(), "blue".to_string()]);
    let tier = catalog.group_definitions(1);
    assert_eq!(tier.len(), 1);
    assert_eq!((tier[0].name.as_str(), tier[0].primary_id, tier[0].secondary_id), ("gold", 10, Some(11)));
    assert!(catalog.group_definitions(2).is_empty());
}
