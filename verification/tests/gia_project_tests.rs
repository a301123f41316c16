use rust2genshin::gia::{be_bytes, needs_write, wrap_gia};
use rust2genshin::ids::FileType;
use rust2genshin::project::{build_rustc_args, load_project_info, trim_end_rs, replace_dashes, PathKind, ProjectLoad};

#[test]
fn words_are_big_endian() {
    assert_eq!(be_bytes(0x0102_0304), [1, 2, 3, 4]);
    assert_eq!(be_bytes(0x0326), [0, 0, 3, 0x26]);
}

#[test]
fn gia_layout() {
    let data = [9u8, 8, 7];
    let out = wrap_gia(&data);
    assert_eq!(out.len(), 3 + 24);
    assert_eq!(&out[0..4], &[0, 0, 0, 23]);
    assert_eq!(&out[4..8], &[0, 0, 0, 1]);
    assert_eq!(&out[8..12], &[0, 0, 0x03, 0x26]);
    assert_eq!(&out[12..16], &[0, 0, 0, 3]);
    assert_eq!(&out[16..20], &[0, 0, 0, 3]);
    assert_eq!(&out[20..23], &data);
    assert_eq!(&out[23..27], &[0, 0, 0x06, 0x79]);
    assert_eq!(FileType::AssetBundle.code(), 3);
}

#[test]
fn empty_bundle_file() {
    let out = wrap_gia(&[]);
    assert_eq!(out, vec![0, 0, 0, 20, 0, 0, 0, 1, 0, 0, 3, 0x26, 0, 0, 0, 3, 0, 0, 0, 0, 0, 0, 6, 0x79]);
}

#[test]
fn unchanged_files_are_not_rewritten() {
    let new_bytes = [1u8, 2, 3];
    assert!(needs_write(None, &new_bytes));
    assert!(!needs_write(Some(&[1, 2, 3]), &new_bytes));
    assert!(needs_write(Some(&[1, 2]), &new_bytes));
    assert!(needs_write(Some(&[1, 2, 4]), &new_bytes));
}

#[test]
fn file_names_give_crate_names() {
    assert_eq!(trim_end_rs("main.rs"), "main");
    assert_eq!(trim_end_rs("a.rs.rs"), "a");
    assert_eq!(trim_end_rs("plain"), "plain");
    assert_eq!(replace_dashes("my-demo-crate"), "my_demo_crate");
}

#[test]
fn single_file_projects() {
    match load_project_info("src/my-game.rs", PathKind::File, Some("my-game.rs")) {
        ProjectLoad::Loaded(info) => {
            assert_eq!(info.crate_name, "my_game");
            assert_eq!(info.package_name, "my_game");
            assert_eq!(info.edition, "2021");
            assert_eq!(info.crate_type, "lib");
            assert_eq!(info.source_path, "src/my-game.rs");
        }
        other => panic!("{other:?}"),
    }
    match load_project_info("main.rs", PathKind::File, Some("main.rs")) {
        ProjectLoad::Loaded(info) => assert_eq!(info.crate_type, "bin"),
        other => panic!("{other:?}"),
    }
    match load_project_info(".rs", PathKind::File, Some(".rs")) {
        ProjectLoad::Loaded(info) => assert_eq!(info.crate_name, "crate"),
        other => panic!("{other:?}"),
    }
    match load_project_info("x", PathKind::File, None) {
        ProjectLoad::Loaded(info) => assert_eq!(info.crate_name, "lib"),
        other => panic!("{other:?}"),
    }
}

#[test]
fn directories_and_missing_paths() {
    assert!(matches!(load_project_info("proj", PathKind::Dir, None), ProjectLoad::NeedsMetadata));
    match load_project_info("nowhere", PathKind::Missing, None) {
        ProjectLoad::Failed(msg) => assert_eq!(msg, "path does not exist: nowhere"),
        other => panic!("{other:?}"),
    }
}

#[test]
fn rustc_arguments() {
    let info = match load_project_info("demo.rs", PathKind::File, Some("demo.rs")) {
        ProjectLoad::Loaded(info) => info,
        other => panic!("{other:?}"),
    };
    let args = build_rustc_args(&info, &[(String::from("std2"), String::from("/lib/libstd2.rlib"))]);
    assert_eq!(
        args,
        vec![
            "rust2genshin", "--crate-type", "lib", "--edition", "2021", "--crate-name", "demo",
            "--cap-lints", "allow", "--extern", "std2=/lib/libstd2.rlib", "demo.rs",
        ]
    );
}
