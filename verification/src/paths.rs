//! Unix path strings and the launcher's layout under the home directory.

use vstd::prelude::*;
use vstd::string::*;
use crate::env::opt_view;
use crate::text::{index_of_before, last_index_of, lemma_index_of_before, rfind_char};

verus! {

/// `base.join(rel)` on Unix: an absolute `rel` replaces `base`; otherwise
/// `rel` is appended, after a `/` unless `base` is empty or ends in one.
pub open spec fn joined(base: Seq<char>, rel: Seq<char>) -> Seq<char> {
    if rel.len() > 0 && rel[0] == '/' {
        rel
    } else if base.len() > 0 && base.last() != '/' {
        base + seq!['/'] + rel
    } else {
        base + rel
    }
}

/// `Path::join` on path strings.
pub fn join(base: &str, rel: &str) -> (r: String)
    ensures
        r@ == joined(base@, rel@),
{
    let n = base.unicode_len();
    let m = rel.unicode_len();
    if m > 0 && rel.get_char(0) == '/' {
        return String::from_str(rel);
    }
    let mut r = String::from_str(base);
    if n > 0 && base.get_char(n - 1) != '/' {
        proof {
            reveal_strlit("/");
        }
        r.append("/");
    }
    r.append(rel);
    r
}

/// Where the last component of `s[..j]` that is neither empty nor `.`
/// lies, as `Path::file_name` finds it; `None` where there is none or it
/// is `..`.
pub open spec fn file_name_span_before(s: Seq<char>, j: int) -> Option<(int, int)>
    decreases j,
{
    if j <= 0 || j > s.len() {
        None
    } else if s[j - 1] == '/' {
        file_name_span_before(s, j - 1)
    } else {
        let i = index_of_before(s, '/', j) + 1;
        let seg = s.subrange(i, j);
        if seg =~= seq!['.'] {
            if 0 <= i < j {
                file_name_span_before(s, i)
            } else {
                None
            }
        } else if seg =~= seq!['.', '.'] {
            None
        } else {
            Some((i, j))
        }
    }
}

/// Where `Path::file_name` of the path `s` lies in `s`.
pub open spec fn file_name_span(s: Seq<char>) -> Option<(int, int)> {
    file_name_span_before(s, s.len() as int)
}

/// `Path::file_name` of the path `s`.
pub open spec fn file_name_of(s: Seq<char>) -> Option<Seq<char>> {
    match file_name_span(s) {
        Some((i, j)) => Some(s.subrange(i, j)),
        None => None,
    }
}

proof fn lemma_file_name_span_bounds(s: Seq<char>, j: int)
    ensures
        file_name_span_before(s, j) matches Some((a, b)) ==> 0 <= a < b <= j <= s.len(),
    decreases j,
{
    if 0 < j <= s.len() {
        if s[j - 1] == '/' {
            lemma_file_name_span_bounds(s, j - 1);
        } else {
            lemma_index_of_before(s, '/', j);
            let i = index_of_before(s, '/', j) + 1;
            if 0 <= i < j {
                lemma_file_name_span_bounds(s, i);
            }
        }
    }
}

/// Where `Path::file_name` of the path `s` lies in `s`.
pub fn find_file_name(s: &str) -> (r: Option<(usize, usize)>)
    ensures
        match r {
            Some((i, j)) => file_name_span(s@) == Some((i as int, j as int)) && i < j <= s@.len(),
            None => file_name_span(s@) is None,
        },
{
    proof {
        lemma_file_name_span_bounds(s@, s@.len() as int);
    }
    let mut j: usize = s.unicode_len();
    loop
        invariant
            j <= s@.len(),
            file_name_span(s@) == file_name_span_before(s@, j as int),
            file_name_span(s@) matches Some((a, b)) ==> 0 <= a < b <= s@.len(),
        decreases j,
    {
        if j == 0 {
            return None;
        }
        if s.get_char(j - 1) == '/' {
            j = j - 1;
        } else {
            let head = s.substring_char(0, j);
            proof {
                lemma_index_of_before(s@, '/', j as int);
                assert forall|k: int| 0 <= k < j implies head@[k] == s@[k] by {}
                lemma_same_index_before(head@, s@, '/', j as int);
            }
            let i: usize = match rfind_char(head, '/') {
                Some(p) => p + 1,
                None => 0,
            };
            assert(i as int == index_of_before(s@, '/', j as int) + 1);
            let seg_len = j - i;
            if seg_len == 1 && s.get_char(i) == '.' {
                assert(s@.subrange(i as int, j as int) =~= seq!['.']);
                j = i;
            } else if seg_len == 2 && s.get_char(i) == '.' && s.get_char(i + 1) == '.' {
                assert(s@.subrange(i as int, j as int) =~= seq!['.', '.']);
                return None;
            } else {
                proof {
                    let seg = s@.subrange(i as int, j as int);
                    if seg =~= seq!['.'] {
                        assert(seg.len() == 1 && seg[0] == s@[i as int]);
                    }
                    if seg =~= seq!['.', '.'] {
                        assert(seg.len() == 2 && seg[0] == s@[i as int] && seg[1] == s@[i + 1]);
                    }
                }
                return Some((i, j));
            }
        }
    }
}

/// `Path::file_name` on a path string.
pub fn file_name(s: &str) -> (r: Option<&str>)
    ensures
        match r {
            Some(t) => file_name_of(s@) == Some(t@),
            None => file_name_of(s@) is None,
        },
{
    match find_file_name(s) {
        Some((i, j)) => Some(s.substring_char(i, j)),
        None => None,
    }
}

/// Where the stem of the file name `name` ends: before its last `.`,
/// unless that `.` is its first character or it has none.
pub open spec fn stem_len(name: Seq<char>) -> int {
    let d = last_index_of(name, '.');
    if d <= 0 {
        name.len() as int
    } else {
        d
    }
}

/// `Path::with_extension(p, "tmp")`: the file name's extension replaced by
/// `tmp` (added where it has none); a path without a file name is kept.
pub open spec fn with_tmp_extension(p: Seq<char>) -> Seq<char> {
    match file_name_span(p) {
        Some((i, j)) => p.take(i + stem_len(p.subrange(i, j))) + ".tmp"@,
        None => p,
    }
}

/// Where a download is written before it is moved into place.
pub fn temp_download_path(local: &str) -> (r: String)
    ensures
        r@ == with_tmp_extension(local@),
{
    match find_file_name(local) {
        None => String::from_str(local),
        Some((i, j)) => {
            let name = local.substring_char(i, j);
            let stem: usize = match rfind_char(name, '.') {
                Some(d) => if d == 0 {
                    j - i
                } else {
                    d
                },
                None => j - i,
            };
            proof {
                lemma_index_of_before(name@, '.', name@.len() as int);
            }
            let mut r = String::from_str(local.substring_char(0, i + stem));
            r.append(".tmp");
            assert(local@.subrange(0, i + stem) =~= local@.take(i + stem));
            r
        },
    }
}

proof fn lemma_same_index_before(a: Seq<char>, b: Seq<char>, c: char, j: int)
    requires
        0 <= j <= a.len(),
        j <= b.len(),
        forall|k: int| 0 <= k < j ==> a[k] == b[k],
    ensures
        index_of_before(a, c, j) == index_of_before(b, c, j),
    decreases j,
{
    if j > 0 && a[j - 1] != c {
        lemma_same_index_before(a, b, c, j - 1);
    }
}

/// The user's home directory, from `dirs::home_dir`, as a string. What
/// comes back depends on the environment and the user database, so no
/// value is stated. Left unsaid: on Unix the `dirs` source never returns an
/// empty path, but its Windows branch does not show that; and a path that
/// is not UTF-8 is converted with its invalid bytes replaced, since the
/// library holds paths as Unicode strings.
#[verifier::external_body]
fn home_dir() -> (r: Option<String>) {
    match dirs::home_dir() {
        Some(p) => Some(p.to_string_lossy().into_owned()),
        None => None,
    }
}

/// The message given where no home directory can be found.
pub open spec fn no_home_message() -> Seq<char> {
    "Cannot determine home directory"@
}

fn no_home_error() -> (e: String)
    ensures
        e@ == no_home_message(),
{
    String::from_str("Cannot determine home directory")
}

/// The directory that holds the launcher's data: `<home>/.darkheim`.
pub open spec fn data_dir_under(home: Seq<char>) -> Seq<char> {
    joined(home, ".darkheim"@)
}

/// Where earlier versions kept the data:
/// `<home>/Library/Application Support/Darkheim`.
pub open spec fn legacy_dir_under(home: Seq<char>) -> Seq<char> {
    joined(home, "Library/Application Support/Darkheim"@)
}

/// The Java runtime's directory: `.darkheim/java/17` under the home
/// directory, or under `.` where there is none.
pub open spec fn java_dir_under(home: Option<Seq<char>>) -> Seq<char> {
    let base = match home {
        Some(h) => h,
        None => "."@,
    };
    joined(base, ".darkheim/java/17"@)
}

/// The Java executable: `bin/java` in the Java runtime's directory.
pub open spec fn java_bin_path_under(home: Option<Seq<char>>) -> Seq<char> {
    joined(java_dir_under(home), "bin/java"@)
}

/// The game instance's directory: `<home>/.darkheim/instance`.
pub open spec fn instance_dir_under(home: Seq<char>) -> Seq<char> {
    joined(home, ".darkheim/instance"@)
}

/// Everything the launcher installs lies in its data directory: the Java
/// runtime in `java/17` and the instance in `instance` there, so clearing
/// the data directory removes both.
pub proof fn lemma_layout_within_data_dir(home: Seq<char>)
    ensures
        java_dir_under(Some(home)) == joined(data_dir_under(home), "java/17"@),
        instance_dir_under(home) == joined(data_dir_under(home), "instance"@),
{
    reveal_strlit(".darkheim");
    reveal_strlit(".darkheim/java/17");
    reveal_strlit(".darkheim/instance");
    reveal_strlit("java/17");
    reveal_strlit("instance");
    let d = data_dir_under(home);
    assert(d.len() > 0 && d.last() == 'm');
    if home.len() > 0 && home.last() != '/' {
        assert(joined(d, "java/17"@) =~= home + seq!['/'] + ".darkheim/java/17"@);
        assert(joined(d, "instance"@) =~= home + seq!['/'] + ".darkheim/instance"@);
    } else {
        assert(joined(d, "java/17"@) =~= home + ".darkheim/java/17"@);
        assert(joined(d, "instance"@) =~= home + ".darkheim/instance"@);
    }
}

/// Joining a relative path keeps the base as the start of the result, and
/// ends the result with the relative path.
pub proof fn lemma_joined_extends_base(base: Seq<char>, rel: Seq<char>)
    requires
        rel.len() > 0,
        rel[0] != '/',
    ensures
        base.is_prefix_of(joined(base, rel)),
        rel.is_suffix_of(joined(base, rel)),
{
    let j = joined(base, rel);
    assert(j.subrange(0, base.len() as int) =~= base);
    assert(j.subrange(j.len() - rel.len(), j.len() as int) =~= rel);
}

/// Everything the launcher places for a home directory lies under that
/// home: the data, legacy, Java and instance directories and both ends of
/// every legacy move start with the home directory's path.
pub proof fn lemma_layout_under_home(home: Seq<char>)
    ensures
        home.is_prefix_of(data_dir_under(home)),
        home.is_prefix_of(legacy_dir_under(home)),
        home.is_prefix_of(java_dir_under(Some(home))),
        home.is_prefix_of(java_bin_path_under(Some(home))),
        home.is_prefix_of(instance_dir_under(home)),
        forall|k: int|
            0 <= k < migration_moves_under(home).len() ==> home.is_prefix_of(
                (#[trigger] migration_moves_under(home)[k]).0,
            ) && home.is_prefix_of(migration_moves_under(home)[k].1),
{
    reveal_strlit(".darkheim");
    reveal_strlit("Library/Application Support/Darkheim");
    reveal_strlit(".darkheim/java/17");
    reveal_strlit("bin/java");
    reveal_strlit(".darkheim/instance");
    reveal_strlit("instances/default");
    reveal_strlit("instance");
    reveal_strlit("java/17");
    let d = data_dir_under(home);
    let l = legacy_dir_under(home);
    let jd = java_dir_under(Some(home));
    lemma_joined_extends_base(home, ".darkheim"@);
    lemma_joined_extends_base(home, "Library/Application Support/Darkheim"@);
    lemma_joined_extends_base(home, ".darkheim/java/17"@);
    lemma_joined_extends_base(jd, "bin/java"@);
    lemma_joined_extends_base(home, ".darkheim/instance"@);
    lemma_joined_extends_base(l, "instances/default"@);
    lemma_joined_extends_base(d, "instance"@);
    lemma_joined_extends_base(l, "java/17"@);
    lemma_joined_extends_base(d, "java/17"@);
    assert forall|a: Seq<char>, b: Seq<char>, c: Seq<char>|
        a.is_prefix_of(b) && b.is_prefix_of(c) implies a.is_prefix_of(c) by {
        assert(c.subrange(0, a.len() as int) =~= b.subrange(0, a.len() as int));
    }
    let moves = migration_moves_under(home);
    assert(moves[0].0 == joined(l, "instances/default"@));
    assert(moves[1].0 == joined(l, "java/17"@));
    assert(moves[0].1 == joined(d, "instance"@));
    assert(moves[1].1 == joined(d, "java/17"@));
}

/// `java_dir` for a given home directory.
pub fn java_dir_for(home: Option<String>) -> (r: String)
    ensures
        r@ == java_dir_under(opt_view(home)),
{
    match home {
        Some(h) => join(h.as_str(), ".darkheim/java/17"),
        None => join(".", ".darkheim/java/17"),
    }
}

/// The Java runtime's directory for the current user.
pub fn java_dir() -> (r: String)
    ensures
        exists|home: Option<Seq<char>>| r@ == java_dir_under(home),
{
    let home = home_dir();
    let r = java_dir_for(home);
    assert(r@ == java_dir_under(opt_view(home)));
    r
}

/// `java_bin_path` for a given home directory.
pub fn java_bin_path_for(home: Option<String>) -> (r: String)
    ensures
        r@ == java_bin_path_under(opt_view(home)),
{
    let dir = java_dir_for(home);
    join(dir.as_str(), "bin/java")
}

/// The Java executable that the launcher installs for the current user.
pub fn java_bin_path() -> (r: String)
    ensures
        exists|home: Option<Seq<char>>| r@ == java_bin_path_under(home),
{
    let home = home_dir();
    let r = java_bin_path_for(home);
    assert(r@ == java_bin_path_under(opt_view(home)));
    r
}

/// `instance_dir` for a given home directory.
pub fn instance_dir_for(home: Option<String>) -> (r: Result<String, String>)
    ensures
        match home {
            Some(h) => r matches Ok(d) && d@ == instance_dir_under(h@),
            None => r matches Err(e) && e@ == no_home_message(),
        },
{
    match home {
        Some(h) => Ok(join(h.as_str(), ".darkheim/instance")),
        None => Err(no_home_error()),
    }
}

/// The game instance's directory for the current user.
pub fn instance_dir() -> (r: Result<String, String>)
    ensures
        match r {
            Ok(d) => exists|home: Seq<char>| d@ == instance_dir_under(home),
            Err(e) => e@ == no_home_message(),
        },
{
    let home = home_dir();
    instance_dir_for(home)
}

/// A directory that earlier versions kept elsewhere and that is moved into
/// place before a launch.
pub struct DirMove {
    pub from: String,
    pub to: String,
    /// The parent of `to`, created before the move.
    pub to_parent: String,
    /// What the message says where the move fails.
    pub failure: String,
}

impl DirMove {
    pub open spec fn view(&self) -> (Seq<char>, Seq<char>, Seq<char>, Seq<char>) {
        (self.from@, self.to@, self.to_parent@, self.failure@)
    }

    /// The move is made only where the old directory exists and the new one
    /// does not.
    pub fn applies(&self, from_exists: bool, to_exists: bool) -> (b: bool)
        ensures
            b == move_applies(from_exists, to_exists),
    {
        from_exists && !to_exists
    }
}

/// Whether a move is made: the old directory exists and the new one does
/// not.
pub open spec fn move_applies(from_exists: bool, to_exists: bool) -> bool {
    from_exists && !to_exists
}

/// Whether the old and the new directory exist after the migration ran:
/// a move that is made leaves the old one gone and the new one in place,
/// and otherwise nothing changes.
pub open spec fn after_migration(from_exists: bool, to_exists: bool) -> (bool, bool) {
    if move_applies(from_exists, to_exists) {
        (false, true)
    } else {
        (from_exists, to_exists)
    }
}

/// Running the migration a second time moves nothing: whatever a move
/// found the first time, it does not apply to what the first run left.
pub proof fn lemma_migration_idempotent(from_exists: bool, to_exists: bool)
    ensures
        ({
            let (f, t) = after_migration(from_exists, to_exists);
            &&& !move_applies(f, t)
            &&& after_migration(f, t) == (f, t)
        }),
{
}

/// The moves from the legacy layout: the instance, then the Java runtime.
pub open spec fn migration_moves_under(home: Seq<char>) -> Seq<
    (Seq<char>, Seq<char>, Seq<char>, Seq<char>),
> {
    let old_base = legacy_dir_under(home);
    let new_base = data_dir_under(home);
    seq![
        (
            joined(old_base, "instances/default"@),
            joined(new_base, "instance"@),
            new_base,
            "Failed to migrate instance dir: "@,
        ),
        (
            joined(old_base, "java/17"@),
            joined(new_base, "java/17"@),
            joined(new_base, "java"@),
            "Failed to migrate Java dir: "@,
        ),
    ]
}

/// The legacy moves for the home directory `home`.
fn migration_moves_in(home: &str) -> (r: Vec<DirMove>)
    ensures
        r@.map_values(|m: DirMove| m.view()) == migration_moves_under(home@),
{
    let old_base = join(home, "Library/Application Support/Darkheim");
    let new_base = join(home, ".darkheim");
    let mut r: Vec<DirMove> = Vec::new();
    r.push(
        DirMove {
            from: join(old_base.as_str(), "instances/default"),
            to: join(new_base.as_str(), "instance"),
            to_parent: new_base.clone(),
            failure: String::from_str("Failed to migrate instance dir: "),
        },
    );
    r.push(
        DirMove {
            from: join(old_base.as_str(), "java/17"),
            to: join(new_base.as_str(), "java/17"),
            to_parent: join(new_base.as_str(), "java"),
            failure: String::from_str("Failed to migrate Java dir: "),
        },
    );
    assert(r@.map_values(|m: DirMove| m.view()) =~= migration_moves_under(home@));
    r
}

/// `migration_plan` for a given home directory (`None` where there is none).
pub fn migration_plan_for(home: Option<String>) -> (r: Result<Vec<DirMove>, String>)
    ensures
        match home {
            Some(h) => r matches Ok(moves) && moves@.map_values(|m: DirMove| m.view())
                == migration_moves_under(h@),
            None => r matches Err(e) && e@ == no_home_message(),
        },
{
    match home {
        Some(h) => Ok(migration_moves_in(h.as_str())),
        None => Err(no_home_error()),
    }
}

/// The moves that bring data from the legacy layout into place.
pub fn migration_plan() -> (r: Result<Vec<DirMove>, String>)
    ensures
        match r {
            Ok(moves) => exists|home: Seq<char>|
                moves@.map_values(|m: DirMove| m.view()) == migration_moves_under(home),
            Err(e) => e@ == no_home_message(),
        },
{
    migration_plan_for(home_dir())
}

/// The directories to clear for the home directory `home`.
fn data_dirs_in(home: &str) -> (r: Vec<String>)
    ensures
        r@.map_values(|s: String| s@) == seq![data_dir_under(home@), legacy_dir_under(home@)],
{
    let mut r: Vec<String> = Vec::new();
    r.push(join(home, ".darkheim"));
    r.push(join(home, "Library/Application Support/Darkheim"));
    assert(r@.map_values(|s: String| s@) =~= seq![data_dir_under(home@), legacy_dir_under(home@)]);
    r
}

/// `clear_data_targets` for a given home directory (`None` where there is
/// none).
pub fn clear_data_targets_for(home: Option<String>) -> (r: Result<Vec<String>, String>)
    ensures
        match home {
            Some(h) => r matches Ok(dirs) && dirs@.map_values(|s: String| s@) == seq![
                data_dir_under(h@),
                legacy_dir_under(h@),
            ],
            None => r matches Err(e) && e@ == no_home_message(),
        },
{
    match home {
        Some(h) => Ok(data_dirs_in(h.as_str())),
        None => Err(no_home_error()),
    }
}

/// The directories removed, where they exist, to clear all data: the data
/// directory, then the legacy one.
pub fn clear_data_targets() -> (r: Result<Vec<String>, String>)
    ensures
        match r {
            Ok(dirs) => exists|home: Seq<char>|
                dirs@.map_values(|s: String| s@) == seq![data_dir_under(home), legacy_dir_under(home)],
            Err(e) => e@ == no_home_message(),
        },
{
    clear_data_targets_for(home_dir())
}

} // verus!
