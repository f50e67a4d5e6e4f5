use std::path::Path;

use darkheim_launcher::paths::{
    clear_data_targets_for, file_name, instance_dir_for, java_bin_path_for, java_dir_for, join,
    migration_plan_for, temp_download_path,
};

const SAMPLES: [&str; 14] = [
    "", "/", "a", "a/", "/a/b", "/a/b/", "/a/b/.", "a/..", ".", "./", "..", "x.tar.gz",
    "mods/.hidden", "/home/u//.darkheim",
];

#[test]
fn join_matches_std() {
    for base in SAMPLES {
        for rel in ["x", "bin/java", "/abs", "", ".darkheim/java/17"] {
            let expected = Path::new(base).join(rel).to_string_lossy().into_owned();
            assert_eq!(join(base, rel), expected, "{:?} join {:?}", base, rel);
        }
    }
}

#[test]
fn file_name_matches_std() {
    for s in SAMPLES {
        let expected = Path::new(s).file_name().map(|n| n.to_string_lossy().into_owned());
        assert_eq!(file_name(s).map(|n| n.to_string()), expected, "input {:?}", s);
    }
}

#[test]
fn temp_path_matches_std() {
    for s in SAMPLES.iter().copied().chain(["mods/a.jar", "config/a.b/c", "dir/", "a.", ".x.y"]) {
        let expected = Path::new(s).with_extension("tmp").to_string_lossy().into_owned();
        assert_eq!(temp_download_path(s), expected, "input {:?}", s);
    }
}

#[test]
fn layout_under_home() {
    assert_eq!(java_dir_for(Some("/home/u".to_string())), "/home/u/.darkheim/java/17");
    assert_eq!(java_dir_for(None), "./.darkheim/java/17");
    assert_eq!(java_bin_path_for(Some("/home/u/".to_string())), "/home/u/.darkheim/java/17/bin/java");
    assert_eq!(
        instance_dir_for(Some("/Users/a".to_string())),
        Ok("/Users/a/.darkheim/instance".to_string())
    );
    assert_eq!(
        instance_dir_for(None),
        Err("Cannot determine home directory".to_string())
    );
}

#[test]
fn legacy_data_moves() {
    let plan = migration_plan_for(Some("/Users/a".to_string())).unwrap();
    assert_eq!(plan.len(), 2);
    assert_eq!(plan[0].from, "/Users/a/Library/Application Support/Darkheim/instances/default");
    assert_eq!(plan[0].to, "/Users/a/.darkheim/instance");
    assert_eq!(plan[0].to_parent, "/Users/a/.darkheim");
    assert_eq!(plan[0].failure, "Failed to migrate instance dir: ");
    assert_eq!(plan[1].from, "/Users/a/Library/Application Support/Darkheim/java/17");
    assert_eq!(plan[1].to, "/Users/a/.darkheim/java/17");
    assert_eq!(plan[1].to_parent, "/Users/a/.darkheim/java");
    assert_eq!(plan[1].failure, "Failed to migrate Java dir: ");
    assert!(plan[0].applies(true, false));
    assert!(!plan[0].applies(true, true));
    assert!(!plan[0].applies(false, false));
    assert_eq!(
        Path::new(&plan[1].to).parent().map(|p| p.to_string_lossy().into_owned()),
        Some(plan[1].to_parent.clone())
    );
}

#[test]
fn data_to_clear() {
    assert_eq!(
        clear_data_targets_for(Some("/Users/a".to_string())),
        Ok(vec![
            "/Users/a/.darkheim".to_string(),
            "/Users/a/Library/Application Support/Darkheim".to_string()
        ])
    );
    assert_eq!(
        clear_data_targets_for(None),
        Err("Cannot determine home directory".to_string())
    );
    assert_eq!(
        migration_plan_for(None).err(),
        Some("Cannot determine home directory".to_string())
    );
}

#[test]
fn installed_data_lies_in_the_data_dir() {
    let home = "/Users/a".to_string();
    let data = &clear_data_targets_for(Some(home.clone())).unwrap()[0];
    assert_eq!(java_dir_for(Some(home.clone())), join(data, "java/17"));
    assert_eq!(instance_dir_for(Some(home.clone())), Ok(join(data, "instance")));
}

#[test]
fn migration_moves_once() {
    let plan = migration_plan_for(Some("/h".to_string())).unwrap();
    for (from_exists, to_exists) in [(true, false), (true, true), (false, false), (false, true)] {
        let moved = plan[0].applies(from_exists, to_exists);
        let (from_after, to_after) = if moved { (false, true) } else { (from_exists, to_exists) };
        assert!(!plan[0].applies(from_after, to_after));
    }
}
