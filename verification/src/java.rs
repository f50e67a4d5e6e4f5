//! The Java runtime: where it is downloaded from and how an unpacked
//! runtime's executable is found.

use vstd::prelude::*;
use vstd::string::*;
use crate::paths::{file_name, file_name_of, join, joined};
use crate::text::index_of_before;
use crate::text::str_equal;

verus! {

/// The download address of the Java 17 runtime for macOS on `arch`, as the
/// Adoptium API names the architecture.
pub open spec fn java_download_url_for(arch: Seq<char>) -> Seq<char> {
    "https://api.adoptium.net/v3/binary/latest/17/ga/mac/"@ + arch
        + "/jre/hotspot/normal/eclipse?project=jdk"@
}

/// The outcome of choosing the download for the architecture that Rust
/// names `target_arch`: `aarch64` and `x86_64` (`x64` to Adoptium) are
/// supported, every other architecture is refused.
pub open spec fn java_download_outcome(target_arch: Seq<char>) -> Result<Seq<char>, Seq<char>> {
    if target_arch == "aarch64"@ {
        Ok(java_download_url_for("aarch64"@))
    } else if target_arch == "x86_64"@ {
        Ok(java_download_url_for("x64"@))
    } else {
        Err("Unsupported architecture for Java download"@)
    }
}

/// The address to download the Java runtime from on `target_arch`.
pub fn java_download_url(target_arch: &str) -> (r: Result<String, String>)
    ensures
        match r {
            Ok(url) => java_download_outcome(target_arch@) == Ok::<Seq<char>, Seq<char>>(url@),
            Err(e) => java_download_outcome(target_arch@) == Err::<Seq<char>, Seq<char>>(e@),
        },
{
    let arch = if str_equal(target_arch, "aarch64") {
        "aarch64"
    } else if str_equal(target_arch, "x86_64") {
        "x64"
    } else {
        return Err(String::from_str("Unsupported architecture for Java download"));
    };
    let mut url = String::from_str("https://api.adoptium.net/v3/binary/latest/17/ga/mac/");
    url.append(arch);
    url.append("/jre/hotspot/normal/eclipse?project=jdk");
    Ok(url)
}

/// Where the downloaded archive is stored: `java.tar.gz` in `dir`.
pub fn java_archive_path(dir: &str) -> (r: String)
    ensures
        r@ == joined(dir@, "java.tar.gz"@),
{
    join(dir, "java.tar.gz")
}

/// One entry of a directory listing: its name and whether it is a
/// directory (following links).
pub struct DirEntryInfo {
    pub name: String,
    pub is_dir: bool,
}

impl DirEntryInfo {
    pub open spec fn view(&self) -> (Seq<char>, bool) {
        (self.name@, self.is_dir)
    }
}

/// The view of a directory listing.
pub open spec fn listing_view(entries: Seq<DirEntryInfo>) -> Seq<(Seq<char>, bool)> {
    entries.map_values(|e: DirEntryInfo| e.view())
}

/// Whether the entry `e` of directory `dir` is the Java executable: a file
/// named `java` in a directory named `bin`.
pub open spec fn is_java_executable(dir: Seq<char>, e: (Seq<char>, bool)) -> bool {
    !e.1 && e.0 == "java"@ && file_name_of(dir) == Some("bin"@)
}

/// Index of the first entry before `end` that is the Java executable, or -1.
pub open spec fn java_entry_before(dir: Seq<char>, entries: Seq<(Seq<char>, bool)>, end: int) -> int
    decreases end,
{
    if end <= 0 || end > entries.len() {
        -1
    } else if java_entry_before(dir, entries, end - 1) >= 0 {
        java_entry_before(dir, entries, end - 1)
    } else if is_java_executable(dir, entries[end - 1]) {
        end - 1
    } else {
        -1
    }
}

/// The subdirectories among the first `end` entries, as paths, in order.
pub open spec fn subdirs_before(dir: Seq<char>, entries: Seq<(Seq<char>, bool)>, end: int) -> Seq<
    Seq<char>,
>
    decreases end,
{
    if end <= 0 || end > entries.len() {
        Seq::empty()
    } else if entries[end - 1].1 {
        subdirs_before(dir, entries, end - 1).push(joined(dir, entries[end - 1].0))
    } else {
        subdirs_before(dir, entries, end - 1)
    }
}

/// A depth-first search for the Java executable under a directory: the
/// directories still to list are kept on a stack.
pub struct JavaSearch {
    pub pending: Vec<String>,
}

impl JavaSearch {
    pub open spec fn view(&self) -> Seq<Seq<char>> {
        self.pending@.map_values(|s: String| s@)
    }

    /// A search that starts at `dir`.
    pub fn new(dir: &str) -> (r: Self)
        ensures
            r.view() == seq![dir@],
    {
        let mut pending: Vec<String> = Vec::new();
        pending.push(String::from_str(dir));
        let r = JavaSearch { pending };
        assert(r.view() =~= seq![dir@]);
        r
    }

    /// The next directory to list: the one pushed last.
    pub fn next_dir(&mut self) -> (r: Option<String>)
        ensures
            old(self).view().len() == 0 ==> r is None && final(self).view() == old(self).view(),
            old(self).view().len() > 0 ==> (r matches Some(d) && d@ == old(self).view().last()
                && final(self).view() == old(self).view().drop_last()),
    {
        let r = self.pending.pop();
        assert(self.view() =~= old(self).view().drop_last() || old(self).view().len() == 0);
        r
    }

    /// Takes in the listing of `dir`: subdirectories are pushed in listing
    /// order until the Java executable is met, which is then returned.
    pub fn visit(&mut self, dir: &str, entries: &Vec<DirEntryInfo>) -> (r: Option<String>)
        ensures
            ({
                let es = listing_view(entries@);
                let k = java_entry_before(dir@, es, es.len() as int);
                let end = if k >= 0 {
                    k
                } else {
                    es.len() as int
                };
                &&& final(self).view() == old(self).view() + subdirs_before(dir@, es, end)
                &&& k >= 0 ==> (r matches Some(p) && p@ == joined(dir@, es[k].0))
                &&& k < 0 ==> r is None
            }),
    {
        let ghost es = listing_view(entries@);
        let in_bin = match file_name(dir) {
            Some(n) => str_equal(n, "bin"),
            None => false,
        };
        assert(in_bin == (file_name_of(dir@) == Some("bin"@)));
        let mut i: usize = 0;
        while i < entries.len()
            invariant
                es == listing_view(entries@),
                i <= entries.len(),
                in_bin == (file_name_of(dir@) == Some("bin"@)),
                java_entry_before(dir@, es, i as int) == -1,
                self.view() == old(self).view() + subdirs_before(dir@, es, i as int),
            decreases entries.len() - i,
        {
            let e = &entries[i];
            assert(es[i as int] == e.view());
            if e.is_dir {
                let p = join(dir, e.name.as_str());
                let ghost before = self.view();
                self.pending.push(p);
                assert(self.view() =~= before.push(p@));
                assert(subdirs_before(dir@, es, i + 1) == subdirs_before(dir@, es, i as int).push(
                    p@,
                ));
                assert(self.view() =~= old(self).view() + subdirs_before(dir@, es, i + 1));
            } else if in_bin && str_equal(e.name.as_str(), "java") {
                assert(java_entry_before(dir@, es, i + 1) == i);
                proof {
                    lemma_java_entry_stays(dir@, es, i + 1);
                }
                return Some(join(dir, e.name.as_str()));
            }
            i = i + 1;
        }
        None
    }
}

/// The path that the search returns names a file called `java`.
pub proof fn lemma_found_executable_named_java(dir: Seq<char>)
    ensures
        file_name_of(joined(dir, "java"@)) == Some("java"@),
{
    reveal_strlit("java");
    let p = joined(dir, "java"@);
    let n = p.len() as int;
    let start = n - 4;
    assert(p.subrange(start, n) =~= "java"@);
    assert(p[n - 1] == 'a');
    assert(forall|k: int| start <= k < n ==> p[k] != '/');
    assert(index_of_before(p, '/', n) == index_of_before(p, '/', start)) by {
        reveal_with_fuel(index_of_before, 5);
    }
    if start > 0 {
        assert(p[start - 1] == '/');
    }
    assert(index_of_before(p, '/', start) == start - 1);
    assert(!(p.subrange(start, n) =~= seq!['.']));
    assert(!(p.subrange(start, n) =~= seq!['.', '.']));
}

/// The entry that the search stops at is the first Java executable of the
/// listing: it is one, and no entry before it is; where the search does not
/// stop, no entry is one.
pub proof fn lemma_java_entry_is_first(dir: Seq<char>, es: Seq<(Seq<char>, bool)>, end: int)
    requires
        0 <= end <= es.len(),
    ensures
        java_entry_before(dir, es, end) >= 0 ==> ({
            let k = java_entry_before(dir, es, end);
            &&& k < end
            &&& !es[k].1 && es[k].0 == "java"@ && file_name_of(dir) == Some("bin"@)
            &&& forall|j: int| 0 <= j < k ==> !is_java_executable(dir, #[trigger] es[j])
        }),
        java_entry_before(dir, es, end) < 0 ==> forall|j: int|
            0 <= j < end ==> !is_java_executable(dir, #[trigger] es[j]),
    decreases end,
{
    if end > 0 {
        lemma_java_entry_is_first(dir, es, end - 1);
    }
}

/// Before the search stops, every subdirectory of the listing is pushed,
/// in listing order, and nothing else.
pub proof fn lemma_subdirs_are_the_dir_entries(dir: Seq<char>, es: Seq<(Seq<char>, bool)>, end: int)
    requires
        0 <= end <= es.len(),
    ensures
        subdirs_before(dir, es, end) == es.take(end).filter_map(
            |e: (Seq<char>, bool)|
                if e.1 {
                    Some(joined(dir, e.0))
                } else {
                    None
                },
        ),
    decreases end,
{
    let f = |e: (Seq<char>, bool)|
        if e.1 {
            Some(joined(dir, e.0))
        } else {
            None
        };
    let t = es.take(end);
    if end > 0 {
        lemma_subdirs_are_the_dir_entries(dir, es, end - 1);
        assert(t.drop_last() =~= es.take(end - 1));
        assert(t.last() == es[end - 1]);
        if es[end - 1].1 {
            assert(subdirs_before(dir, es, end) =~= es.take(end - 1).filter_map(f) + seq![joined(
                dir,
                es[end - 1].0,
            )]);
        }
    } else {
        assert(t =~= Seq::<(Seq<char>, bool)>::empty());
    }
}

proof fn lemma_java_entry_stays(dir: Seq<char>, es: Seq<(Seq<char>, bool)>, end: int)
    requires
        0 <= end <= es.len(),
        java_entry_before(dir, es, end) >= 0,
    ensures
        java_entry_before(dir, es, es.len() as int) == java_entry_before(dir, es, end),
    decreases es.len() - end,
{
    if end < es.len() {
        lemma_java_entry_stays(dir, es, end + 1);
    }
}

} // verus!
