use darkheim_launcher::java::{java_archive_path, java_download_url, DirEntryInfo, JavaSearch};

fn entry(name: &str, is_dir: bool) -> DirEntryInfo {
    DirEntryInfo { name: name.to_string(), is_dir }
}

#[test]
fn download_url_per_architecture() {
    assert_eq!(
        java_download_url("aarch64"),
        Ok("https://api.adoptium.net/v3/binary/latest/17/ga/mac/aarch64/jre/hotspot/normal/eclipse?project=jdk".to_string())
    );
    assert_eq!(
        java_download_url("x86_64"),
        Ok("https://api.adoptium.net/v3/binary/latest/17/ga/mac/x64/jre/hotspot/normal/eclipse?project=jdk".to_string())
    );
    assert_eq!(
        java_download_url("riscv64"),
        Err("Unsupported architecture for Java download".to_string())
    );
}

#[test]
fn archive_lies_in_java_dir() {
    assert_eq!(java_archive_path("/h/.darkheim/java/17"), "/h/.darkheim/java/17/java.tar.gz");
}

#[test]
fn search_descends_and_finds_bin_java() {
    let mut search = JavaSearch::new("/j");
    assert_eq!(search.next_dir(), Some("/j".to_string()));
    let found = search.visit("/j", &vec![entry("jdk", true), entry("java", false), entry("lib", true)]);
    assert_eq!(found, None);
    assert_eq!(search.pending, vec!["/j/jdk".to_string(), "/j/lib".to_string()]);
    assert_eq!(search.next_dir(), Some("/j/lib".to_string()));
    assert_eq!(search.visit("/j/lib", &vec![]), None);
    assert_eq!(search.next_dir(), Some("/j/jdk".to_string()));
    assert_eq!(search.visit("/j/jdk", &vec![entry("bin", true)]), None);
    assert_eq!(search.next_dir(), Some("/j/jdk/bin".to_string()));
    let found = search.visit(
        "/j/jdk/bin",
        &vec![entry("javac", false), entry("sub", true), entry("java", false), entry("more", true)],
    );
    assert_eq!(found, Some("/j/jdk/bin/java".to_string()));
    assert_eq!(search.pending, vec!["/j/jdk/bin/sub".to_string()]);
}

#[test]
fn a_directory_named_java_is_not_the_executable() {
    let mut search = JavaSearch::new("/x/bin");
    search.next_dir();
    assert_eq!(search.visit("/x/bin", &vec![entry("java", true)]), None);
    assert_eq!(search.pending, vec!["/x/bin/java".to_string()]);
    assert_eq!(search.next_dir(), Some("/x/bin/java".to_string()));
    assert_eq!(search.next_dir(), None);
}
