use darkheim_launcher::sync::{
    plan_sync, download_workers, managed_folders, needs_download, plan_downloads, relative_child_path,
    remote_child_path, stale_local_files, total_download_bytes, EntryKind, LocalEntry,
    RemoteEntry, RemoteFile, TreeWalk,
};

fn file(p: &str, size: u64) -> RemoteFile {
    RemoteFile { relative_path: p.to_string(), size }
}

fn paths(v: &[RemoteFile]) -> Vec<(String, u64)> {
    v.iter().map(|f| (f.relative_path.clone(), f.size)).collect()
}

#[test]
fn folders_managed_by_the_server() {
    assert_eq!(managed_folders(), vec!["mods", "config", "resourcepacks"]);
}

#[test]
fn child_paths() {
    assert_eq!(relative_child_path("", "a.jar"), "a.jar");
    assert_eq!(relative_child_path("mods", "a.jar"), "mods/a.jar");
    assert_eq!(remote_child_path("mods", "sub"), "mods/sub");
}

#[test]
fn remote_walk_records_files_and_dirs() {
    let mut walk = TreeWalk::new("mods", "mods");
    let (dir, rel) = walk.next_dir().unwrap();
    let mut out = Vec::new();
    let entries = vec![
        RemoteEntry { name: ".".to_string(), kind: EntryKind::Dir, size: 0 },
        RemoteEntry { name: "..".to_string(), kind: EntryKind::Dir, size: 0 },
        RemoteEntry { name: "a.jar".to_string(), kind: EntryKind::File, size: 10 },
        RemoteEntry { name: "extra".to_string(), kind: EntryKind::Dir, size: 0 },
        RemoteEntry { name: "link".to_string(), kind: EntryKind::Other, size: 3 },
    ];
    walk.visit_remote(&dir, &rel, &entries, &mut out);
    assert_eq!(paths(&out), vec![("mods/a.jar".to_string(), 10)]);
    assert_eq!(walk.pending, vec![("mods/extra".to_string(), "mods/extra".to_string())]);
    let (dir, rel) = walk.next_dir().unwrap();
    walk.visit_remote(
        &dir,
        &rel,
        &vec![RemoteEntry { name: "b.cfg".to_string(), kind: EntryKind::File, size: 2 }],
        &mut out,
    );
    assert_eq!(
        paths(&out),
        vec![("mods/a.jar".to_string(), 10), ("mods/extra/b.cfg".to_string(), 2)]
    );
    assert!(walk.next_dir().is_none());
}

#[test]
fn local_walk_records_everything_but_dirs() {
    let mut walk = TreeWalk::new("/i/config", "config");
    let (dir, rel) = walk.next_dir().unwrap();
    let mut out = Vec::new();
    walk.visit_local(
        &dir,
        &rel,
        &vec![
            LocalEntry { name: "x.toml".to_string(), is_dir: false },
            LocalEntry { name: "sub".to_string(), is_dir: true },
        ],
        &mut out,
    );
    assert_eq!(out, vec!["config/x.toml".to_string()]);
    assert_eq!(walk.pending, vec![("/i/config/sub".to_string(), "config/sub".to_string())]);
}

#[test]
fn only_missing_or_resized_files_are_fetched() {
    assert!(needs_download(None, 5));
    assert!(needs_download(Some(4), 5));
    assert!(!needs_download(Some(5), 5));
    let remote = vec![file("mods/a", 1), file("mods/b", 2), file("mods/c", 3)];
    let plan = plan_downloads(&remote, &vec![Some(1), Some(7), None]);
    assert_eq!(paths(&plan), vec![("mods/b".to_string(), 2), ("mods/c".to_string(), 3)]);
    let plan = plan_downloads(&remote, &vec![Some(1)]);
    assert_eq!(paths(&plan).len(), 2);
}

#[test]
fn files_unknown_to_the_server_are_removed() {
    let remote = vec![file("mods/a", 1), file("config/b", 2)];
    let local = vec!["mods/a".to_string(), "mods/old".to_string(), "config/b".to_string(), "config/c".to_string()];
    assert_eq!(
        stale_local_files(&local, &remote),
        vec!["mods/old".to_string(), "config/c".to_string()]
    );
    assert!(stale_local_files(&local, &vec![]).len() == 4);
}

#[test]
fn bytes_to_fetch() {
    assert_eq!(total_download_bytes(&vec![]), Some(0));
    assert_eq!(total_download_bytes(&vec![file("a", 3), file("b", 4)]), Some(7));
    assert_eq!(total_download_bytes(&vec![file("a", u64::MAX), file("b", 1)]), None);
}

#[test]
fn worker_count() {
    assert_eq!(download_workers(0), 0);
    assert_eq!(download_workers(3), 3);
    assert_eq!(download_workers(8), 8);
    assert_eq!(download_workers(500), 8);
}

#[test]
fn whole_plan_of_a_run() {
    let remote = vec![file("mods/a", 1), file("mods/b", 2), file("config/c", 3)];
    let local_sizes = vec![Some(1), None, Some(4)];
    let local_files = vec!["mods/a".to_string(), "mods/gone".to_string(), "config/c".to_string()];
    let plan = plan_sync(&remote, &local_sizes, &local_files).unwrap();
    assert_eq!(paths(&plan.downloads), vec![("mods/b".to_string(), 2), ("config/c".to_string(), 3)]);
    assert_eq!(plan.removals, vec!["mods/gone".to_string()]);
    assert_eq!(plan.total_bytes, 5);
    assert_eq!(plan.workers, 2);
    assert_eq!(plan.result().files_to_download, 2);
    let huge = vec![file("a", u64::MAX), file("b", 1)];
    assert!(plan_sync(&huge, &vec![], &vec![]).is_none());
}
