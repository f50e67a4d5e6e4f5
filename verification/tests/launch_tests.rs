use darkheim_launcher::launch::{
    finalize_jvm_args, java_after_extraction, java_to_use, phase_after_sync, phase_before_install, validate_nickname,
    Phase,
};
use darkheim_launcher::report::{crash_report, game_log_path, last_lines, pick_crash_log};

fn strings(v: &[&str]) -> Vec<String> {
    v.iter().map(|s| s.to_string()).collect()
}

#[test]
fn phase_names() {
    assert_eq!(Phase::Checking.as_str(), "checking");
    assert_eq!(Phase::Syncing.as_str(), "syncing");
    assert_eq!(Phase::DownloadingLauncher.as_str(), "downloading_launcher");
    assert_eq!(Phase::Updating.as_str(), "updating");
    assert_eq!(Phase::DownloadingJava.as_str(), "downloading_java");
    assert_eq!(Phase::Installing.as_str(), "installing");
    assert_eq!(Phase::Launching.as_str(), "launching");
}

#[test]
fn phases_while_launching() {
    assert!(phase_after_sync(false, 0) == Some(Phase::DownloadingLauncher));
    assert!(phase_after_sync(false, 3) == Some(Phase::DownloadingLauncher));
    assert!(phase_after_sync(true, 3) == Some(Phase::Updating));
    assert!(phase_after_sync(true, 0).is_none());
    assert!(phase_before_install(Phase::Checking) == Phase::Installing);
    assert!(phase_before_install(Phase::Updating) == Phase::Updating);
}

#[test]
fn java_choice() {
    assert_eq!(java_to_use("/j/bin/java".to_string(), true, None), Some("/j/bin/java".to_string()));
    assert_eq!(
        java_to_use("/j/bin/java".to_string(), false, Some("/j/x/bin/java".to_string())),
        Some("/j/x/bin/java".to_string())
    );
    assert_eq!(java_to_use("/j/bin/java".to_string(), false, None), None);
}

#[test]
fn nickname_is_trimmed_and_required() {
    assert_eq!(validate_nickname("  Steve \n"), Ok("Steve".to_string()));
    assert_eq!(validate_nickname(" \t "), Err("Введите ник".to_string()));
    assert_eq!(validate_nickname(""), Err("Введите ник".to_string()));
}

#[test]
fn jvm_args_are_completed() {
    let r = finalize_jvm_args(strings(&["-Dx=1"]), "/mc", true);
    assert_eq!(
        r,
        strings(&["-XstartOnFirstThread", "-Dx=1", "-Xmx4G", "-XX:ErrorFile=/mc/hs_err.log"])
    );
    let r = finalize_jvm_args(strings(&["-Dx=1"]), "/mc", false);
    assert_eq!(r, strings(&["-Dx=1", "-Xmx4G", "-XX:ErrorFile=/mc/hs_err.log"]));
    let given = strings(&["-Xmx2G", "-XstartOnFirstThread", "-XX:ErrorFile=/tmp/e.log"]);
    assert_eq!(finalize_jvm_args(given.clone(), "/mc", true), given);
    let once = finalize_jvm_args(vec![], "/mc/", true);
    assert_eq!(finalize_jvm_args(once.clone(), "/mc/", true), once);
}

fn tail_like_std(s: &str, n: usize) -> String {
    s.lines().rev().take(n).collect::<Vec<_>>().into_iter().rev().collect::<Vec<_>>().join("\n")
}

#[test]
fn last_lines_match_std() {
    let samples = ["", "\n", "a", "a\n", "a\nb", "a\r\nb\r\n", "a\r", "\n\n\nx", "x\ry\nz\r\n\r\n"];
    for s in samples {
        for n in [0, 1, 2, 200] {
            assert_eq!(last_lines(s, n), tail_like_std(s, n), "input {:?}, {}", s, n);
        }
    }
    let long: String = (0..300).map(|i| format!("line {}\n", i)).collect();
    assert_eq!(last_lines(&long, 200), tail_like_std(&long, 200));
}

#[test]
fn crash_report_text() {
    let log = "boot\nerror: x\n";
    let r = crash_report(Some(1), "/mc/logs/latest.log", Some(log), Some(("/mc/hs_err.log", "h1\nh2")));
    assert_eq!(
        r,
        "Minecraft exited unexpectedly (code: Some(1))\nFull log: /mc/logs/latest.log\nboot\nerror: x\n\nJVM crash log: /mc/hs_err.log\nh1\nh2"
    );
    let r = crash_report(None, "/l", None, None);
    assert_eq!(r, "Minecraft exited unexpectedly (code: None)\nFull log: /l\n");
    let r = crash_report(Some(-9), "/l", Some(""), None);
    assert_eq!(r, format!("Minecraft exited unexpectedly (code: {:?})\nFull log: /l\n", Some(-9)));
    assert_eq!(game_log_path("/mc"), "/mc/logs/latest.log");
}

#[test]
fn crash_log_choice() {
    assert_eq!(pick_crash_log("/mc", true, None), Some("/mc/hs_err.log".to_string()));
    assert_eq!(pick_crash_log("/mc", false, None), None);
    let names = strings(&["hs_err_pid12.log", "latest.log", "hs_err_pid9.log", "hs_err_pid3.txt", "hs_err_pid100.log"]);
    assert_eq!(pick_crash_log("/mc", false, Some(&names)), Some("/mc/hs_err_pid9.log".to_string()));
    let names = strings(&["a.log", "hs_err.log"]);
    assert_eq!(pick_crash_log("/mc", false, Some(&names)), None);
}

#[test]
fn accepted_nickname_is_stable() {
    let once = validate_nickname("\u{3000} Alex\t").unwrap();
    assert_eq!(validate_nickname(&once), Ok(once.clone()));
}

#[test]
fn java_must_exist_after_extraction() {
    assert_eq!(java_after_extraction(Some("/j/bin/java".to_string())), Ok("/j/bin/java".to_string()));
    assert_eq!(
        java_after_extraction(None),
        Err("Java executable not found after extraction".to_string())
    );
}
