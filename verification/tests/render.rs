//! Rendering tests: exact output lines for scopes, reference lists and
//! collections.

use honey::hive::configurations::Configurations;
use honey::hive::configurations::NixosConfigurations;
use honey::hive::import::Import;
use honey::hive::import::Imports;

#[test]
fn dummy_scope_renders_preamble_and_imports() {
    let scope = Configurations::new(
        "dummy",
        vec![
            Import::cell_disko_configurations("my-disk"),
            Import::new("inputs", "disko", "nixosModules.disko"),
        ],
    )
    .unwrap();
    assert_eq!(
        scope.render_lines(),
        vec![
            "let",
            "    inherit (inputs) disko;",
            "in",
            "",
            "{",
            "    imports = [",
            "        cell.diskoConfigurations.my-disk",
            "        disko.nixosModules.disko",
            "    ];",
            "}",
        ],
    );
}

#[test]
fn scope_without_bindings_has_no_preamble() {
    let scope = Configurations::new(
        "plain",
        vec![
            Import::cell_hardware_profiles("my-hardware-profile"),
            Import::cell_nixos_profiles("my-nixos-profile"),
        ],
    )
    .unwrap();
    assert_eq!(
        scope.render_lines(),
        vec![
            "{",
            "    imports = [",
            "        cell.hardwareProfiles.my-hardware-profile",
            "        cell.nixosProfiles.my-nixos-profile",
            "    ];",
            "}",
        ],
    );
}

#[test]
fn scope_without_items_renders_empty_import_list() {
    let scope = Configurations::new("empty", vec![]).unwrap();
    assert_eq!(scope.render_lines(), vec!["{", "    imports = [];", "}"]);
}

#[test]
fn duplicate_binding_requirement_renders_once() {
    let once = Configurations::new(
        "dup",
        vec![Import::new("inputs", "disko", "nixosModules.disko")],
    )
    .unwrap();
    let thrice = Configurations::new(
        "dup",
        vec![
            Import::new("inputs", "disko", "nixosModules.disko"),
            Import::new("inputs", "disko", "diskoConfigurations.main"),
            Import::new("inputs", "disko", "nixosModules.disko"),
        ],
    )
    .unwrap();
    let lines = thrice.render_lines();
    assert_eq!(&lines[..4], &["let", "    inherit (inputs) disko;", "in", ""]);
    assert_eq!(&once.render_lines()[..4], &lines[..4]);
}

#[test]
fn reference_list_preserves_supplied_order() {
    let forward = Imports(vec![
        Import::cell_hardware_profiles("one"),
        Import::cell_nixos_profiles("two"),
        Import::new1("three"),
    ]);
    assert_eq!(
        forward.render_lines(),
        vec![
            "[",
            "    cell.hardwareProfiles.one",
            "    cell.nixosProfiles.two",
            "    three",
            "]",
        ],
    );
    let backward = Imports(vec![
        Import::new1("three"),
        Import::cell_nixos_profiles("two"),
        Import::cell_hardware_profiles("one"),
    ]);
    assert_eq!(
        backward.render_lines(),
        vec![
            "[",
            "    three",
            "    cell.nixosProfiles.two",
            "    cell.hardwareProfiles.one",
            "]",
        ],
    );
}

#[test]
fn empty_reference_list_renders_empty_brackets() {
    assert_eq!(Imports(vec![]).render_lines(), vec!["[]"]);
}

#[test]
fn canonical_collection_renders_per_scope_preambles() {
    let collection = NixosConfigurations(vec![
        Configurations::new_nixos_configurations("machine1"),
        Configurations::new_nixos_configurations("machine2"),
    ]);
    let expected: Vec<String> = ["machine1", "machine2"]
        .iter()
        .flat_map(|name| {
            vec![
                format!("    {} = let", name),
                "        inherit (inputs) home-manager;".to_string(),
                "        inherit (inputs) disko;".to_string(),
                "    in".to_string(),
                "".to_string(),
                "    {".to_string(),
                format!("        bee-{} = {{", name),
                "            bee = {".to_string(),
                "                home = home-manager;".to_string(),
                format!("                pkgs = cell.pkgs.{};", name),
                "                system = \"x86_64-linux\";".to_string(),
                "            };".to_string(),
                "        };".to_string(),
                "        imports = [".to_string(),
                format!("            bee-{}", name),
                format!("            cell.diskoConfigurations.{}", name),
                format!("            cell.hardwareProfiles.{}", name),
                format!("            cell.homeConfigurations.{}", name),
                format!("            cell.nixosModules.{}", name),
                format!("            cell.nixosProfiles.{}", name),
                "            disko.nixosModules.disko".to_string(),
                "        ];".to_string(),
                "    };".to_string(),
            ]
        })
        .collect();
    let mut full: Vec<String> = vec!["{".to_string()];
    full.extend(expected);
    full.push("}".to_string());
    assert_eq!(collection.render_lines(), full);
}

#[test]
fn prefixed_collection_names_scopes_with_zero_padded_indices() {
    let collection =
        NixosConfigurations::new1("machine", 2, Some("home-23-05"), "nixos-23-05", "x86_64-linux");
    let lines = collection.render_lines();
    assert_eq!(lines[0], "{");
    assert_eq!(lines[1], "    machine00 = let");
    assert!(lines.contains(&"    machine01 = let".to_string()));
    assert_eq!(lines[lines.len() - 1], "}");
    let keys: Vec<&str> = lines
        .iter()
        .filter(|l| l.ends_with(" = let"))
        .map(|l| l.trim_start().split(' ').next().unwrap())
        .collect();
    assert_eq!(keys, vec!["machine00", "machine01"]);
}

#[test]
fn two_digit_indices_continue_without_padding() {
    let collection = NixosConfigurations::new1("node", 12, None, "nixos-23-05", "x86_64-linux");
    let keys: Vec<String> = collection
        .render_lines()
        .iter()
        .filter(|l| l.ends_with(" = let"))
        .map(|l| l.trim_start().split(' ').next().unwrap().to_string())
        .collect();
    assert_eq!(
        keys,
        vec![
            "node00", "node01", "node02", "node03", "node04", "node05", "node06", "node07",
            "node08", "node09", "node10", "node11",
        ],
    );
}

#[test]
fn parameterized_machine_scope_renders_published_order() {
    let scope = Configurations::new_nixos_configurations1(
        "machine1",
        Some("home-23-05"),
        "nixos-23-05",
        "x86_64-linux",
    );
    assert_eq!(
        scope.render_lines(),
        vec![
            "let",
            "    inherit (inputs) home-23-05;",
            "    inherit (inputs) nixos-23-05;",
            "    inherit (inputs) disko;",
            "in",
            "",
            "{",
            "    bee-machine1 = {",
            "        bee = {",
            "            home = home-23-05;",
            "            pkgs = nixos-23-05.legacyPackages;",
            "            system = \"x86_64-linux\";",
            "        };",
            "    };",
            "    imports = [",
            "        bee-machine1",
            "        cell.diskoConfigurations.machine1",
            "        cell.hardwareProfiles.machine1",
            "        cell.homeConfigurations.machine1",
            "        cell.nixosModules.machine1",
            "        cell.nixosProfiles.machine1",
            "        disko.nixosModules.disko",
            "    ];",
            "}",
        ],
    );
}

#[test]
fn machine_scope_without_home_skips_home_entries() {
    let scope =
        Configurations::new_nixos_configurations1("worker", None, "nixos-23-05", "aarch64-linux");
    assert_eq!(
        scope.render_lines(),
        vec![
            "let",
            "    inherit (inputs) nixos-23-05;",
            "    inherit (inputs) disko;",
            "in",
            "",
            "{",
            "    bee-worker = {",
            "        bee = {",
            "            pkgs = nixos-23-05.legacyPackages;",
            "            system = \"aarch64-linux\";",
            "        };",
            "    };",
            "    imports = [",
            "        bee-worker",
            "        cell.diskoConfigurations.worker",
            "        cell.hardwareProfiles.worker",
            "        cell.nixosModules.worker",
            "        cell.nixosProfiles.worker",
            "        disko.nixosModules.disko",
            "    ];",
            "}",
        ],
    );
}

#[test]
fn empty_collection_renders_empty_attribute_set() {
    assert_eq!(NixosConfigurations(vec![]).render_lines(), vec!["{}"]);
}

#[test]
fn zero_machines_render_empty_attribute_set() {
    let collection = NixosConfigurations::new1("machine", 0, None, "nixos-23-05", "x86_64-linux");
    assert_eq!(collection.render_lines(), vec!["{}"]);
}

#[test]
fn duplicate_scope_names_render_both_entries() {
    let collection = NixosConfigurations(vec![
        Configurations::new("dup", vec![Import::new1("cell.nixosModules.first")]).unwrap(),
        Configurations::new("dup", vec![Import::new1("cell.nixosModules.second")]).unwrap(),
    ]);
    let lines = collection.render_lines();
    let keys: Vec<&String> = lines.iter().filter(|l| l.starts_with("    dup = {")).collect();
    assert_eq!(keys.len(), 2);
    assert!(lines.contains(&"            cell.nixosModules.first".to_string()));
    assert!(lines.contains(&"            cell.nixosModules.second".to_string()));
}
