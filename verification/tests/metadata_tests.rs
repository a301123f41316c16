use rust2genshin::metadata::{
    externs_from_output, externs_of, packages_from_metadata, project_from_metadata, CargoMessage,
    MetadataPackage, MetadataTarget,
};

const METADATA: &str = r#"{"packages":[
  {"name":"other","edition":"2018","manifest_path":"/w/other/Cargo.toml",
   "targets":[{"kind":["lib"],"src_path":"/w/other/src/lib.rs"}]},
  {"name":"my-game","manifest_path":"/w/game/Cargo.toml",
   "targets":[{"kind":["bin"],"src_path":"/w/game/src/main.rs"},
              {"kind":["rlib","lib"],"src_path":"/w/game/src/lib.rs"}]}
],"version":1}"#;

fn target(kinds: &[&str], src: &str) -> MetadataTarget {
    MetadataTarget {
        kinds: Some(kinds.iter().map(|k| Some(k.to_string())).collect()),
        src_path: Some(src.to_string()),
    }
}

fn package(name: &str, manifest: &str, targets: Vec<MetadataTarget>) -> MetadataPackage {
    MetadataPackage {
        name: Some(name.to_string()),
        edition: None,
        manifest_path: Some(manifest.to_string()),
        targets: Some(targets),
    }
}

#[test]
fn metadata_packages_are_read() {
    let pkgs = packages_from_metadata(METADATA.as_bytes()).unwrap();
    assert_eq!(pkgs.len(), 2);
    assert_eq!(pkgs[0].name.as_deref(), Some("other"));
    assert_eq!(pkgs[0].edition.as_deref(), Some("2018"));
    assert_eq!(pkgs[1].edition, None);
    assert_eq!(pkgs[1].manifest_path.as_deref(), Some("/w/game/Cargo.toml"));
    let ts = pkgs[1].targets.as_ref().unwrap();
    assert_eq!(ts.len(), 2);
    assert_eq!(ts[1].kinds, Some(vec![Some("rlib".to_string()), Some("lib".to_string())]));
    assert_eq!(ts[0].src_path.as_deref(), Some("/w/game/src/main.rs"));
}

#[test]
fn metadata_that_is_no_json_is_refused() {
    let e = packages_from_metadata(b"not json").unwrap_err();
    assert!(e.starts_with("cannot parse `cargo metadata` output: "), "{e}");
    assert!(e.len() > "cannot parse `cargo metadata` output: ".len());
}

#[test]
fn metadata_without_packages_lists_none() {
    assert!(packages_from_metadata(br#"{"version":1}"#).unwrap().is_empty());
}

#[test]
fn project_takes_lib_target_of_matching_package() {
    let pkgs = packages_from_metadata(METADATA.as_bytes()).unwrap();
    let info = project_from_metadata(&pkgs, "/w/game/Cargo.toml").unwrap();
    assert_eq!(info.package_name, "my-game");
    assert_eq!(info.crate_name, "my_game");
    assert_eq!(info.edition, "2021");
    assert_eq!(info.crate_type, "lib");
    assert_eq!(info.source_path, "/w/game/src/lib.rs");
    let other = project_from_metadata(&pkgs, "/w/other/Cargo.toml").unwrap();
    assert_eq!(other.edition, "2018");
    assert_eq!(other.crate_name, "other");
}

#[test]
fn project_falls_back_to_bin_target() {
    let pkgs = vec![package("tool", "/t/Cargo.toml", vec![target(&["test"], "/t/tests/a.rs"), target(&["bin"], "/t/src/main.rs")])];
    let info = project_from_metadata(&pkgs, "/t/Cargo.toml").unwrap();
    assert_eq!(info.crate_type, "bin");
    assert_eq!(info.source_path, "/t/src/main.rs");
}

#[test]
fn first_package_with_the_manifest_decides() {
    let pkgs = vec![
        package("a", "/x/Cargo.toml", vec![target(&["lib"], "/x/a.rs")]),
        package("b", "/x/Cargo.toml", vec![target(&["lib"], "/x/b.rs")]),
    ];
    assert_eq!(project_from_metadata(&pkgs, "/x/Cargo.toml").unwrap().package_name, "a");
}

#[test]
fn project_errors() {
    let pkgs = vec![package("a", "/a/Cargo.toml", vec![target(&["lib"], "/a/lib.rs")])];
    assert_eq!(
        project_from_metadata(&pkgs, "/b/Cargo.toml").unwrap_err(),
        "no package with manifest /b/Cargo.toml found in `cargo metadata` output"
    );
    let mut nameless = pkgs[0].clone();
    nameless.name = None;
    assert_eq!(project_from_metadata(&[nameless].to_vec(), "/a/Cargo.toml").unwrap_err(), "package has no `name`");
    let mut no_targets = pkgs[0].clone();
    no_targets.targets = None;
    assert_eq!(project_from_metadata(&vec![no_targets], "/a/Cargo.toml").unwrap_err(), "package has no targets");
    let only_tests = package("a", "/a/Cargo.toml", vec![target(&["test"], "/a/t.rs")]);
    assert_eq!(project_from_metadata(&vec![only_tests], "/a/Cargo.toml").unwrap_err(), "no lib or bin target");
    let mut no_src = package("a", "/a/Cargo.toml", vec![target(&["lib"], "/a/lib.rs")]);
    no_src.targets.as_mut().unwrap()[0].src_path = None;
    assert_eq!(project_from_metadata(&vec![no_src], "/a/Cargo.toml").unwrap_err(), "target has no src_path");
}

#[test]
fn externs_are_read_from_cargo_check_output() {
    let lines = [
        r#"{"reason":"compiler-artifact","target":{"name":"serde-json","kind":["lib"]},"filenames":["/d/libserde_json.rlib","/d/libserde_json.rmeta"]}"#,
        r#"{"reason":"compiler-artifact","target":{"name":"derive_it","kind":["proc-macro"]},"filenames":["/d/libderive_it.rmeta","/d/libderive_it.so"]}"#,
        "not json",
        "",
        r#"{"reason":"build-script-executed","target":{"name":"x","kind":["lib"]},"filenames":["/d/libx.rlib"]}"#,
        r#"{"reason":"compiler-artifact","target":{"name":"game","kind":["lib"]},"filenames":["/d/libgame.rmeta"]}"#,
        r#"{"reason":"compiler-artifact","target":{"name":"noout","kind":["lib"]},"filenames":["/d/noout.d"]}"#,
        r#"  {"reason":"compiler-artifact","target":{"name":"derive_it","kind":["proc-macro"]},"filenames":["/e/libderive_it.so"]}  "#,
    ];
    let out = lines.join("\n");
    let externs = externs_from_output(out.as_bytes(), "game");
    assert_eq!(
        externs,
        vec![
            ("serde_json".to_string(), "/d/libserde_json.rlib".to_string()),
            ("derive_it".to_string(), "/d/libderive_it.so".to_string()),
        ]
    );
}

#[test]
fn dashed_names_are_compared_as_given() {
    let msg = |file: &str| {
        Some(CargoMessage {
            reason: Some("compiler-artifact".to_string()),
            target_name: Some("a-b".to_string()),
            target_kinds: Some(vec![Some("lib".to_string())]),
            filenames: Some(vec![None, Some(file.to_string())]),
        })
    };
    let externs = externs_of(&vec![msg("/1/liba_b.rmeta"), None, msg("/2/liba_b.rmeta")], "main");
    assert_eq!(
        externs,
        vec![
            ("a_b".to_string(), "/1/liba_b.rmeta".to_string()),
            ("a_b".to_string(), "/2/liba_b.rmeta".to_string()),
        ]
    );
}

#[test]
fn empty_output_gives_no_externs() {
    assert!(externs_from_output(b"", "main").is_empty());
}
