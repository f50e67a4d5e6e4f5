//! The decisions taken while preparing and starting the game: the phase
//! shown to the user, the Java executable used, the JVM options, and the
//! report given when the game stops at once.

use vstd::prelude::*;
use vstd::string::*;
use crate::paths::{join, joined};
use crate::text::{starts_with, str_equal, trim, trimmed};

verus! {

/// The Minecraft version installed, with the latest stable Forge for it.
pub const GAME_VERSION: &'static str = "1.20.1";

/// What the launcher is busy with, as shown to the user.
#[derive(PartialEq, Eq, Structural, Clone, Copy)]
pub enum Phase {
    Checking,
    Syncing,
    DownloadingLauncher,
    Updating,
    DownloadingJava,
    Installing,
    Launching,
}

/// The name under which a phase is reported.
pub open spec fn phase_name(p: Phase) -> Seq<char> {
    match p {
        Phase::Checking => "checking"@,
        Phase::Syncing => "syncing"@,
        Phase::DownloadingLauncher => "downloading_launcher"@,
        Phase::Updating => "updating"@,
        Phase::DownloadingJava => "downloading_java"@,
        Phase::Installing => "installing"@,
        Phase::Launching => "launching"@,
    }
}

impl Phase {
    /// The name under which the phase is reported.
    pub fn as_str(&self) -> (r: &'static str)
        ensures
            r@ == phase_name(*self),
    {
        match self {
            Phase::Checking => "checking",
            Phase::Syncing => "syncing",
            Phase::DownloadingLauncher => "downloading_launcher",
            Phase::Updating => "updating",
            Phase::DownloadingJava => "downloading_java",
            Phase::Installing => "installing",
            Phase::Launching => "launching",
        }
    }
}

/// The phase after the game files are mirrored: the launcher is being
/// downloaded where the client is not installed yet, updated where files
/// were fetched, and otherwise the phase stays.
pub fn phase_after_sync(client_installed: bool, files_to_download: usize) -> (r: Option<Phase>)
    ensures
        !client_installed ==> r == Some(Phase::DownloadingLauncher),
        client_installed && files_to_download > 0 ==> r == Some(Phase::Updating),
        client_installed && files_to_download == 0 ==> r is None,
{
    if !client_installed {
        Some(Phase::DownloadingLauncher)
    } else if files_to_download > 0 {
        Some(Phase::Updating)
    } else {
        None
    }
}

/// The phase set before the game is installed: still checking means
/// installing now; any other phase stays.
pub fn phase_before_install(current: Phase) -> (r: Phase)
    ensures
        current == Phase::Checking ==> r == Phase::Installing,
        current != Phase::Checking ==> r == current,
{
    match current {
        Phase::Checking => Phase::Installing,
        _ => current,
    }
}

/// Which Java executable to run: the installed one where it exists, else
/// one found under the Java directory; `None` means it must be downloaded.
pub fn java_to_use(installed: String, installed_exists: bool, found: Option<String>) -> (r: Option<
    String,
>)
    ensures
        installed_exists ==> r == Some(installed),
        !installed_exists ==> r == found,
{
    if installed_exists {
        Some(installed)
    } else {
        found
    }
}

/// The message given where no Java executable is found in the runtime
/// just unpacked.
pub open spec fn java_missing_message() -> Seq<char> {
    "Java executable not found after extraction"@
}

/// The Java executable found after the downloaded runtime was unpacked,
/// which must exist.
pub fn java_after_extraction(found: Option<String>) -> (r: Result<String, String>)
    ensures
        match found {
            Some(p) => r == Ok::<String, String>(p),
            None => r matches Err(e) && e@ == java_missing_message(),
        },
{
    match found {
        Some(p) => Ok(p),
        None => Err(String::from_str("Java executable not found after extraction")),
    }
}

/// The message given for a nickname that is empty once trimmed.
pub open spec fn empty_nickname_message() -> Seq<char> {
    "Введите ник"@
}

/// The nickname to play under: the given one trimmed, which must not be
/// empty.
pub fn validate_nickname(nickname: &str) -> (r: Result<String, String>)
    ensures
        trimmed(nickname@).len() > 0 ==> (r matches Ok(n) && n@ == trimmed(nickname@)),
        trimmed(nickname@).len() == 0 ==> (r matches Err(e) && e@ == empty_nickname_message()),
{
    let t = trim(nickname);
    if t.unicode_len() == 0 {
        Err(String::from_str("Введите ник"))
    } else {
        Ok(String::from_str(t))
    }
}

/// A nickname that was accepted is accepted again, unchanged.
pub proof fn lemma_accepted_nickname_stable(nickname: Seq<char>)
    requires
        trimmed(nickname).len() > 0,
    ensures
        trimmed(trimmed(nickname)).len() > 0,
        trimmed(trimmed(nickname)) == trimmed(nickname),
{
    crate::text::lemma_trimmed_idempotent(nickname);
}

/// Whether `a` occurs in `args`.
pub open spec fn has_arg(args: Seq<Seq<char>>, a: Seq<char>) -> bool {
    exists|i: int| 0 <= i < args.len() && #[trigger] args[i] == a
}

/// Whether some argument in `args` starts with `p`.
pub open spec fn has_arg_prefix(args: Seq<Seq<char>>, p: Seq<char>) -> bool {
    exists|i: int| 0 <= i < args.len() && p.is_prefix_of(#[trigger] args[i])
}

/// The JVM options as the game is started with them: on macOS
/// `-XstartOnFirstThread` leads unless present; `-Xmx4G` is added unless a
/// heap limit is set; a crash log in the game directory is named unless one
/// is.
pub open spec fn finalized_jvm_args(args: Seq<Seq<char>>, mc_dir: Seq<char>, on_macos: bool) -> Seq<
    Seq<char>,
> {
    let a1 = if on_macos && !has_arg(args, "-XstartOnFirstThread"@) {
        seq!["-XstartOnFirstThread"@] + args
    } else {
        args
    };
    let a2 = if !has_arg_prefix(a1, "-Xmx"@) {
        a1.push("-Xmx4G"@)
    } else {
        a1
    };
    if !has_arg_prefix(a2, "-XX:ErrorFile="@) {
        a2.push("-XX:ErrorFile="@ + joined(mc_dir, "hs_err.log"@))
    } else {
        a2
    }
}

/// The view of a list of strings.
pub open spec fn strings_view(v: Seq<String>) -> Seq<Seq<char>> {
    v.map_values(|s: String| s@)
}

fn contains_arg(args: &Vec<String>, a: &str) -> (b: bool)
    ensures
        b == has_arg(strings_view(args@), a@),
{
    let ghost av = strings_view(args@);
    let mut i: usize = 0;
    while i < args.len()
        invariant
            av == strings_view(args@),
            i <= args.len(),
            forall|k: int| 0 <= k < i ==> av[k] != a@,
        decreases args.len() - i,
    {
        assert(av[i as int] == args@[i as int]@);
        if str_equal(args[i].as_str(), a) {
            return true;
        }
        i = i + 1;
    }
    false
}

fn contains_arg_prefix(args: &Vec<String>, p: &str) -> (b: bool)
    ensures
        b == has_arg_prefix(strings_view(args@), p@),
{
    let ghost av = strings_view(args@);
    let mut i: usize = 0;
    while i < args.len()
        invariant
            av == strings_view(args@),
            i <= args.len(),
            forall|k: int| 0 <= k < i ==> !p@.is_prefix_of(#[trigger] av[k]),
        decreases args.len() - i,
    {
        assert(av[i as int] == args@[i as int]@);
        if starts_with(args[i].as_str(), p) {
            return true;
        }
        i = i + 1;
    }
    false
}

/// Completes the JVM options of the installed game.
pub fn finalize_jvm_args(args: Vec<String>, mc_dir: &str, on_macos: bool) -> (r: Vec<String>)
    ensures
        strings_view(r@) == finalized_jvm_args(strings_view(args@), mc_dir@, on_macos),
{
    let ghost a0 = strings_view(args@);
    let mut args = args;
    if on_macos && !contains_arg(&args, "-XstartOnFirstThread") {
        args.insert(0, String::from_str("-XstartOnFirstThread"));
        assert(strings_view(args@) =~= seq!["-XstartOnFirstThread"@] + a0);
    }
    let ghost a1 = strings_view(args@);
    if !contains_arg_prefix(&args, "-Xmx") {
        args.push(String::from_str("-Xmx4G"));
        assert(strings_view(args@) =~= a1.push("-Xmx4G"@));
    }
    let ghost a2 = strings_view(args@);
    if !contains_arg_prefix(&args, "-XX:ErrorFile=") {
        let crash_log = join(mc_dir, "hs_err.log");
        let mut opt = String::from_str("-XX:ErrorFile=");
        opt.append(crash_log.as_str());
        args.push(opt);
        assert(strings_view(args@) =~= a2.push("-XX:ErrorFile="@ + joined(mc_dir@, "hs_err.log"@)));
    }
    args
}

/// Completing the JVM options keeps every given option, in order, right
/// after at most one added leading option, and adds at most three options.
pub proof fn lemma_finalize_keeps_given_args(args: Seq<Seq<char>>, mc_dir: Seq<char>, on_macos: bool)
    ensures
        ({
            let r = finalized_jvm_args(args, mc_dir, on_macos);
            let lead: int = if on_macos && !has_arg(args, "-XstartOnFirstThread"@) {
                1
            } else {
                0
            };
            &&& args.len() + lead <= r.len() <= args.len() + 3
            &&& r.subrange(lead, lead + args.len()) == args
            &&& lead == 1 ==> r[0] == "-XstartOnFirstThread"@
        }),
{
    let r = finalized_jvm_args(args, mc_dir, on_macos);
    let lead: int = if on_macos && !has_arg(args, "-XstartOnFirstThread"@) {
        1
    } else {
        0
    };
    assert(r.subrange(lead, lead + args.len()) =~= args);
}

/// Completing the JVM options a second time changes nothing.
pub proof fn lemma_finalize_jvm_args_idempotent(args: Seq<Seq<char>>, mc_dir: Seq<char>, on_macos: bool)
    ensures
        finalized_jvm_args(finalized_jvm_args(args, mc_dir, on_macos), mc_dir, on_macos)
            == finalized_jvm_args(args, mc_dir, on_macos),
{
    reveal_strlit("-Xmx");
    reveal_strlit("-Xmx4G");
    reveal_strlit("-XX:ErrorFile=");
    let once = finalized_jvm_args(args, mc_dir, on_macos);
    let a1 = if on_macos && !has_arg(args, "-XstartOnFirstThread"@) {
        seq!["-XstartOnFirstThread"@] + args
    } else {
        args
    };
    let a2 = if !has_arg_prefix(a1, "-Xmx"@) {
        a1.push("-Xmx4G"@)
    } else {
        a1
    };
    if on_macos {
        if !has_arg(args, "-XstartOnFirstThread"@) {
            assert(a1[0] == "-XstartOnFirstThread"@);
        } else {
            let i = choose|i: int| 0 <= i < args.len() && #[trigger] args[i] == "-XstartOnFirstThread"@;
            assert(a1[i] == "-XstartOnFirstThread"@);
        }
        assert(has_arg(a1, "-XstartOnFirstThread"@));
        assert(forall|i: int| 0 <= i < a1.len() ==> a2[i] == a1[i]);
        assert(forall|i: int| 0 <= i < a2.len() ==> once[i] == a2[i]);
        let j = choose|i: int| 0 <= i < a1.len() && #[trigger] a1[i] == "-XstartOnFirstThread"@;
        assert(once[j] == "-XstartOnFirstThread"@);
        assert(has_arg(once, "-XstartOnFirstThread"@));
    }
    if !has_arg_prefix(a1, "-Xmx"@) {
        assert("-Xmx"@.is_prefix_of(a2[a1.len() as int]));
        assert(has_arg_prefix(a2, "-Xmx"@));
    }
    let k = choose|i: int| 0 <= i < a2.len() && "-Xmx"@.is_prefix_of(#[trigger] a2[i]);
    assert(once[k] == a2[k]);
    assert(has_arg_prefix(once, "-Xmx"@));
    if !has_arg_prefix(a2, "-XX:ErrorFile="@) {
        let opt = "-XX:ErrorFile="@ + joined(mc_dir, "hs_err.log"@);
        assert(opt.subrange(0, "-XX:ErrorFile="@.len() as int) =~= "-XX:ErrorFile="@);
        assert("-XX:ErrorFile="@.is_prefix_of(once[a2.len() as int]));
    }
    assert(has_arg_prefix(once, "-XX:ErrorFile="@));
}

} // verus!
