//! Construction tests: binding equality, collision rejection and
//! reference texts.

use honey::hive::configurations::ConfigurationType;
use honey::hive::configurations::Configurations;
use honey::hive::configurations::HiveError;
use honey::hive::import::Import;
use honey::hive::inherit::Inherit;
use honey::hive::variable::Variable;

#[test]
fn colliding_bindings_are_rejected_at_construction() {
    let r = Configurations::new(
        "clash",
        vec![
            Import::new("inputs", "x", "modules.a"),
            Import::new("cell", "x", "modules.b"),
        ],
    );
    match r {
        Err(e) => assert_eq!(e, HiveError::BindingNameCollision),
        Ok(_) => panic!("a binding-name collision was not rejected"),
    }
}

#[test]
fn equal_bindings_are_not_a_collision() {
    let r = Configurations::new(
        "fine",
        vec![
            Import::new("inputs", "x", "modules.a"),
            Import::new("inputs", "x", "modules.b"),
        ],
    );
    assert!(r.is_ok());
}

#[test]
fn bindings_differing_only_in_name_are_not_a_collision() {
    let r = Configurations::new(
        "fine",
        vec![
            Import::new("inputs", "x", "modules.a"),
            Import::new("inputs", "y", "modules.b"),
        ],
    );
    assert!(r.is_ok());
}

#[test]
fn local_binding_collides_with_reference_binding() {
    let local = Variable::bee(
        "composed",
        Some(Import::from_inherit(Inherit::new("inputs", "x"))),
        Import::new1("cell.pkgs.a"),
        "x86_64-linux",
    );
    let r = Configurations::from_items(
        "clash",
        vec![
            ConfigurationType::Local(local),
            ConfigurationType::Import(Import::new("cell", "x", "modules.b")),
        ],
    );
    assert!(matches!(r, Err(HiveError::BindingNameCollision)));
}

#[test]
fn locals_bindings_precede_reference_bindings_in_preamble() {
    let local = Variable::bee("paks", None, Import::from_inherit(Inherit::nixpkgs()), "sys");
    let scope = Configurations::from_items(
        "mixed",
        vec![
            ConfigurationType::Import(Import::disko_module()),
            ConfigurationType::Local(local),
            ConfigurationType::Import(Import::new1("paks")),
        ],
    )
    .ok()
    .unwrap();
    assert_eq!(
        scope.render_lines(),
        vec![
            "let",
            "    inherit (inputs) nixpkgs;",
            "    inherit (inputs) disko;",
            "in",
            "",
            "{",
            "    paks = {",
            "        bee = {",
            "            pkgs = nixpkgs;",
            "            system = \"sys\";",
            "        };",
            "    };",
            "    imports = [",
            "        disko.nixosModules.disko",
            "        paks",
            "    ];",
            "}",
        ],
    );
}

#[test]
fn same_binding_compares_by_both_fields() {
    let a = Inherit::new("inputs", "disko");
    let b = Inherit::disko();
    let c = Inherit::new("cell", "disko");
    let d = Inherit::new("inputs", "nixpkgs");
    assert!(a.same_binding(&b));
    assert!(!a.same_binding(&c));
    assert!(!a.same_binding(&d));
    assert!(Inherit::nixpkgs().same_binding(&Inherit::new("inputs", "nixpkgs")));
    assert!(Inherit::home_manager().same_binding(&Inherit::new("inputs", "home-manager")));
}

#[test]
fn reference_text_roots_path_at_binding_name() {
    let rooted = Import::new("inputs", "disko", "nixosModules.disko");
    assert_eq!(rooted.render_text(), "disko.nixosModules.disko");
    let bare = Import::new1("cell.homeConfigurations.my-home");
    assert_eq!(bare.render_text(), "cell.homeConfigurations.my-home");
    let name_only = Import::from_inherit(Inherit::nixpkgs());
    assert_eq!(name_only.render_text(), "nixpkgs");
}

#[test]
fn cell_reference_constructors_prefix_their_family() {
    assert_eq!(
        Import::cell_disko_configurations("m").render_text(),
        "cell.diskoConfigurations.m"
    );
    assert_eq!(
        Import::cell_hardware_profiles("m").render_text(),
        "cell.hardwareProfiles.m"
    );
    assert_eq!(
        Import::cell_home_configurations("m").render_text(),
        "cell.homeConfigurations.m"
    );
    assert_eq!(Import::cell_nixos_modules("m").render_text(), "cell.nixosModules.m");
    assert_eq!(Import::cell_nixos_profiles("m").render_text(), "cell.nixosProfiles.m");
    assert_eq!(Import::disko_module().render_text(), "disko.nixosModules.disko");
}

#[test]
fn single_machine_collection_holds_one_canonical_scope() {
    let collection = honey::hive::configurations::NixosConfigurations::new("machine1");
    let lines = collection.render_lines();
    assert_eq!(lines[0], "{");
    assert_eq!(lines[1], "    machine1 = let");
    assert_eq!(lines[lines.len() - 1], "}");
}
