//! The report given when the game stops right after it was started: the
//! end of its log and of the JVM's crash log.

use vstd::prelude::*;
use vstd::string::*;
use crate::paths::{join, joined};
use crate::text::{
    chars_of, decimal_text, ends_with, i32_text, index_of_from, lemma_index_of_from, starts_with,
};

verus! {

/// `line` without one trailing carriage return.
pub open spec fn without_cr(line: Seq<char>) -> Seq<char> {
    if line.len() > 0 && line.last() == '\r' {
        line.drop_last()
    } else {
        line
    }
}

/// The lines of `s[i..]` as `str::lines` gives them: split at `\n`, a
/// `\r` before the `\n` dropped, no line after a final `\n`.
pub open spec fn lines_from(s: Seq<char>, i: int) -> Seq<Seq<char>>
    decreases s.len() - i,
{
    if i < 0 || i >= s.len() {
        Seq::empty()
    } else {
        let e = index_of_from(s, '\n', i);
        if e < 0 {
            seq![s.subrange(i, s.len() as int)]
        } else {
            proof {
                lemma_index_of_from(s, '\n', i);
            }
            seq![without_cr(s.subrange(i, e))] + lines_from(s, e + 1)
        }
    }
}

/// The lines of `s`.
pub open spec fn lines_of(s: Seq<char>) -> Seq<Seq<char>> {
    lines_from(s, 0)
}

/// The strings of `list` with `sep` between each two.
pub open spec fn joined_with(list: Seq<Seq<char>>, sep: Seq<char>) -> Seq<char>
    decreases list.len(),
{
    if list.len() == 0 {
        Seq::empty()
    } else if list.len() == 1 {
        list[0]
    } else {
        joined_with(list.drop_last(), sep) + sep + list.last()
    }
}

/// The last `n` elements of `list` (all of them where there are fewer).
pub open spec fn last_n<A>(list: Seq<A>, n: nat) -> Seq<A> {
    if list.len() > n {
        list.skip(list.len() - n)
    } else {
        list
    }
}

/// The last `n` lines of `s`, joined by `\n`.
pub open spec fn tail_text(s: Seq<char>, n: nat) -> Seq<char> {
    joined_with(last_n(lines_of(s), n), "\n"@)
}

/// The bounds of the lines of `text`: start and end of each line, the end
/// before any line terminator.
fn line_bounds(text: &str) -> (r: Vec<(usize, usize)>)
    ensures
        r@.len() == lines_of(text@).len(),
        forall|k: int| 0 <= k < r@.len() ==> (#[trigger] r@[k]).0 <= r@[k].1 <= text@.len(),
        forall|k: int|
            0 <= k < r@.len() ==> #[trigger] lines_of(text@)[k] == text@.subrange(
                r@[k].0 as int,
                r@[k].1 as int,
            ),
{
    let cs = chars_of(text);
    let n = cs.len();
    let ghost s = text@;
    let mut r: Vec<(usize, usize)> = Vec::new();
    let mut i: usize = 0;
    while i < n
        invariant
            cs@ == s,
            n == s.len(),
            i <= n,
            lines_of(s) == r@.map_values(|b: (usize, usize)| s.subrange(b.0 as int, b.1 as int))
                + lines_from(s, i as int),
            forall|k: int| 0 <= k < r@.len() ==> #[trigger] r@[k].0 <= r@[k].1 <= n,
        decreases n - i,
    {
        let ghost before = r@;
        let mut e: usize = i;
        while e < n && cs[e] != '\n'
            invariant
                cs@ == s,
                n == s.len(),
                i <= e <= n,
                index_of_from(s, '\n', i as int) == index_of_from(s, '\n', e as int),
            decreases n - e,
        {
            e = e + 1;
        }
        if e == n {
            r.push((i, n));
            assert(r@.map_values(|b: (usize, usize)| s.subrange(b.0 as int, b.1 as int)) =~= before.map_values(
                |b: (usize, usize)| s.subrange(b.0 as int, b.1 as int),
            ).push(s.subrange(i as int, n as int)));
            assert(lines_from(s, n as int) =~= Seq::<Seq<char>>::empty());
            i = n;
        } else {
            let end = if e > i && cs[e - 1] == '\r' {
                e - 1
            } else {
                e
            };
            proof {
                let line = s.subrange(i as int, e as int);
                if e > i && s[e - 1] == '\r' {
                    assert(without_cr(line) =~= s.subrange(i as int, end as int));
                } else {
                    assert(without_cr(line) =~= s.subrange(i as int, end as int));
                }
            }
            r.push((i, end));
            assert(r@.map_values(|b: (usize, usize)| s.subrange(b.0 as int, b.1 as int)) =~= before.map_values(
                |b: (usize, usize)| s.subrange(b.0 as int, b.1 as int),
            ).push(s.subrange(i as int, end as int)));
            i = e + 1;
        }
    }
    assert(lines_from(s, n as int) =~= Seq::<Seq<char>>::empty());
    assert(lines_of(s) =~= r@.map_values(|b: (usize, usize)| s.subrange(b.0 as int, b.1 as int)));
    r
}

/// The last `n` lines of `text`, joined by `\n`.
pub fn last_lines(text: &str, n: usize) -> (r: String)
    ensures
        r@ == tail_text(text@, n as nat),
{
    let bounds = line_bounds(text);
    let count = bounds.len();
    let ghost lines = lines_of(text@);
    let first: usize = if count > n {
        count - n
    } else {
        0
    };
    let ghost kept = last_n(lines, n as nat);
    assert(kept =~= lines.subrange(first as int, count as int));
    let mut r = String::new();
    let mut j: usize = first;
    while j < count
        invariant
            count == bounds@.len() == lines.len(),
            lines == lines_of(text@),
            first <= j <= count,
            forall|k: int|
                0 <= k < bounds@.len() ==> (#[trigger] bounds@[k]).0 <= bounds@[k].1 <= text@.len(),
            forall|k: int|
                0 <= k < bounds@.len() ==> #[trigger] lines_of(text@)[k] == text@.subrange(
                    bounds@[k].0 as int,
                    bounds@[k].1 as int,
                ),
            r@ == joined_with(lines.subrange(first as int, j as int), "\n"@),
        decreases count - j,
    {
        let (a, b) = bounds[j];
        let line = text.substring_char(a, b);
        assert(line@ == lines[j as int]);
        let ghost prev = lines.subrange(first as int, j as int);
        let ghost next = lines.subrange(first as int, j + 1);
        assert(next.drop_last() =~= prev);
        if j > first {
            proof {
                reveal_strlit("\n");
            }
            r.append("\n");
            r.append(line);
        } else {
            assert(next =~= seq![lines[j as int]]);
            r.append(line);
            assert(prev =~= Seq::<Seq<char>>::empty());
        }
        j = j + 1;
    }
    r
}


/// An optional exit code as `{:?}` formats it: `Some(<code>)` or `None`.
pub open spec fn exit_code_text(code: Option<i32>) -> Seq<char> {
    match code {
        Some(c) => "Some("@ + decimal_text(c as int) + ")"@,
        None => "None"@,
    }
}

/// The part of the report about the JVM's crash log, from its path and
/// contents: the path and its last 100 lines.
pub open spec fn crash_log_section(crash_log: Option<(Seq<char>, Seq<char>)>) -> Seq<char> {
    match crash_log {
        Some((path, text)) => "\n\nJVM crash log: "@ + path + "\n"@ + tail_text(text, 100),
        None => Seq::empty(),
    }
}

/// The report given when the game exits at once with a failure: its exit
/// code, the path of its log, the last 200 lines of the log where it could
/// be read, and the crash log section.
pub open spec fn crash_report_text(
    code: Option<i32>,
    log_path: Seq<char>,
    log_text: Option<Seq<char>>,
    crash_log: Option<(Seq<char>, Seq<char>)>,
) -> Seq<char> {
    let tail = match log_text {
        Some(t) => tail_text(t, 200),
        None => Seq::empty(),
    };
    "Minecraft exited unexpectedly (code: "@ + exit_code_text(code) + ")\nFull log: "@ + log_path
        + "\n"@ + tail + crash_log_section(crash_log)
}

/// Lines of the game log shown in the report.
pub const LOG_TAIL_LINES: usize = 200;

/// Lines of the crash log shown in the report.
pub const CRASH_LOG_TAIL_LINES: usize = 100;

/// The report for a game that exited at once with a failure.
pub fn crash_report(
    code: Option<i32>,
    log_path: &str,
    log_text: Option<&str>,
    crash_log: Option<(&str, &str)>,
) -> (r: String)
    ensures
        r@ == crash_report_text(
            code,
            log_path@,
            match log_text {
                Some(t) => Some(t@),
                None => None,
            },
            match crash_log {
                Some((p, t)) => Some((p@, t@)),
                None => None,
            },
        ),
{
    let mut r = String::from_str("Minecraft exited unexpectedly (code: ");
    match code {
        Some(c) => {
            r.append("Some(");
            let digits = i32_text(c);
            r.append(digits.as_str());
            r.append(")");
        },
        None => {
            r.append("None");
        },
    }
    r.append(")\nFull log: ");
    r.append(log_path);
    r.append("\n");
    match log_text {
        Some(t) => {
            let tail = last_lines(t, LOG_TAIL_LINES);
            r.append(tail.as_str());
        },
        None => {},
    }
    match crash_log {
        Some((p, t)) => {
            r.append("\n\nJVM crash log: ");
            r.append(p);
            r.append("\n");
            let tail = last_lines(t, CRASH_LOG_TAIL_LINES);
            r.append(tail.as_str());
        },
        None => {},
    }
    assert(r@ =~= crash_report_text(
        code,
        log_path@,
        match log_text {
            Some(t) => Some(t@),
            None => None,
        },
        match crash_log {
            Some((p, t)) => Some((p@, t@)),
            None => None,
        },
    ));
    r
}

/// The crash log that the JVM is told to write: `hs_err.log` in the game
/// directory.
pub fn explicit_crash_log_path(mc_dir: &str) -> (r: String)
    ensures
        r@ == joined(mc_dir@, "hs_err.log"@),
{
    join(mc_dir, "hs_err.log")
}

/// The report is the header (exit code and log path), then the last 200
/// lines of the log wherever the log was read, whether or not there is a
/// crash log, then the crash log's path and last 100 lines where there is
/// one.
pub proof fn lemma_crash_report_parts(
    code: Option<i32>,
    log_path: Seq<char>,
    log: Seq<char>,
    crash_log: Option<(Seq<char>, Seq<char>)>,
)
    ensures
        crash_report_text(code, log_path, None, None) == "Minecraft exited unexpectedly (code: "@
            + exit_code_text(code) + ")\nFull log: "@ + log_path + "\n"@,
        crash_report_text(code, log_path, Some(log), crash_log) == crash_report_text(
            code,
            log_path,
            None,
            None,
        ) + tail_text(log, 200) + crash_log_section(crash_log),
        crash_report_text(code, log_path, None, crash_log) == crash_report_text(
            code,
            log_path,
            None,
            None,
        ) + crash_log_section(crash_log),
        tail_text(log, 200).is_suffix_of(crash_report_text(code, log_path, Some(log), None)),
        crash_log_section(None) == Seq::<char>::empty(),
        forall|p: Seq<char>, t: Seq<char>|
            crash_log_section(Some((p, t))) == "\n\nJVM crash log: "@ + p + "\n"@ + tail_text(t, 100),
{
    let head = crash_report_text(code, log_path, None, None);
    assert(crash_report_text(code, log_path, None, None) =~= "Minecraft exited unexpectedly (code: "@
        + exit_code_text(code) + ")\nFull log: "@ + log_path + "\n"@);
    assert(crash_report_text(code, log_path, Some(log), crash_log) =~= head + tail_text(log, 200)
        + crash_log_section(crash_log));
    assert(crash_report_text(code, log_path, None, crash_log) =~= head + crash_log_section(crash_log));
    let whole = crash_report_text(code, log_path, Some(log), None);
    assert(whole =~= head + tail_text(log, 200));
    assert(whole.subrange(head.len() as int, whole.len() as int) =~= tail_text(log, 200));
}

/// The directory of the game's logs.
pub fn game_log_dir(mc_dir: &str) -> (r: String)
    ensures
        r@ == joined(mc_dir@, "logs"@),
{
    join(mc_dir, "logs")
}

/// The log that the started game writes to.
pub fn game_log_path(mc_dir: &str) -> (r: String)
    ensures
        r@ == joined(joined(mc_dir@, "logs"@), "latest.log"@),
{
    let dir = game_log_dir(mc_dir);
    join(dir.as_str(), "latest.log")
}


/// `a` comes before `b` in the order of their characters' code points
/// (the byte order of their UTF-8 encodings), compared from index `i` on.
pub open spec fn text_less_from(a: Seq<char>, b: Seq<char>, i: int) -> bool
    decreases a.len() - i,
{
    if i < 0 || i >= a.len() {
        0 <= i < b.len()
    } else if i >= b.len() {
        false
    } else if a[i] != b[i] {
        (a[i] as u32) < (b[i] as u32)
    } else {
        text_less_from(a, b, i + 1)
    }
}

/// `a` comes before `b` in the order in which paths in one directory sort.
pub open spec fn text_less(a: Seq<char>, b: Seq<char>) -> bool {
    text_less_from(a, b, 0)
}

proof fn lemma_text_less_irreflexive(a: Seq<char>, i: int)
    requires
        0 <= i <= a.len(),
    ensures
        !text_less_from(a, a, i),
    decreases a.len() - i,
{
    if i < a.len() {
        lemma_text_less_irreflexive(a, i + 1);
    }
}

proof fn lemma_text_less_transitive(a: Seq<char>, b: Seq<char>, c: Seq<char>, i: int)
    requires
        0 <= i,
        i <= a.len(),
        i <= b.len(),
        i <= c.len(),
        text_less_from(a, b, i),
        text_less_from(b, c, i),
    ensures
        text_less_from(a, c, i),
    decreases a.len() - i,
{
    if i < a.len() && i < b.len() && i < c.len() && a[i] == b[i] && b[i] == c[i] {
        lemma_text_less_transitive(a, b, c, i + 1);
    }
}

fn text_less_exec(a: &str, b: &str) -> (r: bool)
    ensures
        r == text_less(a@, b@),
{
    let x = chars_of(a);
    let y = chars_of(b);
    let mut i: usize = 0;
    while i < x.len() && i < y.len() && x[i] == y[i]
        invariant
            x@ == a@,
            y@ == b@,
            i <= x.len(),
            i <= y.len(),
            text_less(a@, b@) == text_less_from(a@, b@, i as int),
        decreases x.len() - i,
    {
        i = i + 1;
    }
    if i == x.len() {
        i < y.len()
    } else if i == y.len() {
        false
    } else {
        (x[i] as u32) < (y[i] as u32)
    }
}

/// Whether a file in the game directory is a crash log that the JVM named
/// after its process: `hs_err_pid…log`.
pub open spec fn is_crash_log_name(name: Seq<char>) -> bool {
    "hs_err_pid"@.is_prefix_of(name) && ".log"@.is_suffix_of(name)
}

/// The crash log to show: `hs_err.log` in the game directory where it
/// exists; otherwise, among the names listed in the directory (`None` where
/// it cannot be listed), the crash log whose path sorts last.
pub fn pick_crash_log(dir: &str, explicit_exists: bool, names: Option<&Vec<String>>) -> (r: Option<
    String,
>)
    ensures
        explicit_exists ==> (r matches Some(p) && p@ == joined(dir@, "hs_err.log"@)),
        !explicit_exists && names is None ==> r is None,
        !explicit_exists && names is Some ==> ({
            let ns = names->0@.map_values(|s: String| s@);
            &&& r is None <==> (forall|k: int| 0 <= k < ns.len() ==> !is_crash_log_name(#[trigger] ns[k]))
            &&& r matches Some(p) ==> exists|k: int|
                0 <= k < ns.len() && is_crash_log_name(#[trigger] ns[k]) && p@ == joined(dir@, ns[k])
                    && forall|j: int|
                    0 <= j < ns.len() && is_crash_log_name(#[trigger] ns[j]) ==> !text_less(ns[k], ns[j])
        }),
{
    if explicit_exists {
        return Some(explicit_crash_log_path(dir));
    }
    let names = match names {
        Some(ns) => ns,
        None => return None,
    };
    let ghost ns = names@.map_values(|s: String| s@);
    let mut best: Option<usize> = None;
    let mut i: usize = 0;
    while i < names.len()
        invariant
            ns == names@.map_values(|s: String| s@),
            i <= names.len(),
            best is None ==> forall|k: int| 0 <= k < i ==> !is_crash_log_name(#[trigger] ns[k]),
            best matches Some(b) ==> b < i && is_crash_log_name(ns[b as int]) && forall|j: int|
                0 <= j < i && is_crash_log_name(#[trigger] ns[j]) ==> !text_less(ns[b as int], ns[j]),
        decreases names.len() - i,
    {
        let name = names[i].as_str();
        assert(ns[i as int] == name@);
        if starts_with(name, "hs_err_pid") && ends_with(name, ".log") {
            let better = match best {
                None => true,
                Some(b) => text_less_exec(names[b].as_str(), name),
            };
            if better {
                proof {
                    lemma_text_less_irreflexive(ns[i as int], 0);
                    if let Some(b) = best {
                        assert forall|j: int|
                            0 <= j < i + 1 && is_crash_log_name(#[trigger] ns[j]) implies !text_less(
                            ns[i as int],
                            ns[j],
                        ) by {
                            if j < i && text_less(ns[i as int], ns[j]) {
                                lemma_text_less_transitive(ns[b as int], ns[i as int], ns[j], 0);
                            }
                        }
                    }
                }
                best = Some(i);
            }
        }
        i = i + 1;
    }
    match best {
        Some(b) => Some(join(dir, names[b].as_str())),
        None => None,
    }
}

} // verus!
