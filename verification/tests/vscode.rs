use copilot_byok::vscode::{discover_vscode_targets, ProfileEntry, RootListing, VsCodeEdition};

fn root(edition: VsCodeEdition, user_dir: &str, is_dir: bool, config_exists: bool, profiles: Option<Vec<ProfileEntry>>) -> RootListing {
    RootListing {
        edition,
        user_dir: user_dir.to_string(),
        is_dir,
        language_models_path: format!("{user_dir}/chatLanguageModels.json"),
        config_exists,
        backup_exists: false,
        profiles,
    }
}

fn entry(user_dir: &str, name: &str, is_dir: bool, is_symlink: bool) -> ProfileEntry {
    ProfileEntry {
        name: name.to_string(),
        is_dir,
        is_symlink,
        language_models_path: format!("{user_dir}/profiles/{name}/chatLanguageModels.json"),
        config_exists: false,
        backup_exists: false,
    }
}

#[test]
fn discovers_default_and_named_profiles() {
    let user_dir = "/tmp/vscode-test/Code/User";
    let profile_path = format!("{user_dir}/profiles/work-profile/chatLanguageModels.json");
    let listing = root(VsCodeEdition::Stable, user_dir, true, true, Some(vec![entry(user_dir, "work-profile", true, false)]));
    let targets = discover_vscode_targets(vec![listing]);

    assert_eq!(targets.len(), 2);
    assert_eq!(targets[0].id, "stable:default");
    assert!(targets[0].config_exists);
    assert_eq!(targets[1].id, "stable:profile:work-profile");
    assert_eq!(targets[1].path(), profile_path);
}

#[test]
fn ignores_missing_installations() {
    let listing = root(VsCodeEdition::Insiders, "/tmp/vscode-test/missing/User", false, false, None);
    let targets = discover_vscode_targets(vec![listing]);
    assert!(targets.is_empty());
}

#[test]
fn skips_symlinked_profile_directories() {
    let user_dir = "/tmp/vscode-test/Code/User";
    let listing = root(VsCodeEdition::Stable, user_dir, true, false, Some(vec![entry(user_dir, "linked", true, true)]));
    let targets = discover_vscode_targets(vec![listing]);
    assert_eq!(targets.len(), 1);
    assert_eq!(targets[0].id, "stable:default");
}

#[test]
fn editions_have_slugs_and_names() {
    assert_eq!(VsCodeEdition::Stable.slug(), "stable");
    assert_eq!(VsCodeEdition::Insiders.slug(), "insiders");
    assert_eq!(VsCodeEdition::Stable.display_name(), "Visual Studio Code");
    assert_eq!(VsCodeEdition::Insiders.display_name(), "Visual Studio Code Insiders");
}

#[test]
fn targets_sort_by_edition_default_first_then_profile_name() {
    let code = "/c/Code/User";
    let insiders = "/c/Code - Insiders/User";
    let listings = vec![
        root(VsCodeEdition::Insiders, insiders, true, false, Some(vec![entry(insiders, "b", true, false)])),
        root(VsCodeEdition::Stable, code, true, false, Some(vec![entry(code, "zeta", true, false), entry(code, " alpha ", true, false), entry(code, "file", false, false), entry(code, "  ", true, false)])),
    ];
    let ids: Vec<String> = discover_vscode_targets(listings).into_iter().map(|t| t.id).collect();
    assert_eq!(ids, vec!["stable:default", "stable:profile:alpha", "stable:profile:zeta", "insiders:default", "insiders:profile:b"]);
}
