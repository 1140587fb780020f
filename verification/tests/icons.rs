use planner::icons::{split_prefix, FactorioInstall, IconResolver};
use planner::resource::IconRef;

#[test]
fn splits_base_prefix() {
    let (name, path) = split_prefix("__base__/graphics/icons/iron-plate.png").unwrap();
    assert_eq!(name, "base");
    assert_eq!(path, "graphics/icons/iron-plate.png");
}

#[test]
fn splits_mod_prefix_with_hyphens() {
    let (name, path) = split_prefix("__some-mod-name__/icon.png").unwrap();
    assert_eq!(name, "some-mod-name");
    assert_eq!(path, "icon.png");
}

#[test]
fn rejects_no_prefix() {
    assert!(split_prefix("/just/a/path.png").is_none());
    assert!(split_prefix("__base/missing-end.png").is_none());
}

#[test]
fn factorio_install_resolves_base() {
    let install = FactorioInstall::new("/opt/factorio");
    let icon = IconRef::new("__base__/graphics/icons/iron-plate.png", 64);
    let resolved = install.resolve(&icon).unwrap();
    assert_eq!(resolved, "/opt/factorio/data/base/graphics/icons/iron-plate.png");
}

#[test]
fn factorio_install_resolves_core() {
    let install = FactorioInstall::new("/opt/factorio");
    let icon = IconRef::new("__core__/graphics/icons/foo.png", 64);
    let resolved = install.resolve(&icon).unwrap();
    assert_eq!(resolved, "/opt/factorio/data/core/graphics/icons/foo.png");
}

#[test]
fn factorio_install_resolves_mod() {
    let install = FactorioInstall::new("/opt/factorio");
    let icon = IconRef::new("__bobs-mods__/graphics/icons/bob.png", 64);
    let resolved = install.resolve(&icon).unwrap();
    assert_eq!(resolved, "/opt/factorio/mods/bobs-mods/graphics/icons/bob.png");
}
