//! The plan of an SFTP mirror: which remote files exist, which of them are
//! fetched, which local files are removed, and how the work is shared out.

use vstd::prelude::*;
use vstd::string::*;
use crate::paths::{join, joined};

verus! {

/// A file on the server: its path relative to the instance directory and
/// its size in bytes.
pub struct RemoteFile {
    pub relative_path: String,
    pub size: u64,
}

impl RemoteFile {
    pub open spec fn view(&self) -> (Seq<char>, u64) {
        (self.relative_path@, self.size)
    }

    /// A copy of the file's description.
    pub fn duplicate(&self) -> (r: RemoteFile)
        ensures
            r.view() == self.view(),
    {
        RemoteFile { relative_path: self.relative_path.clone(), size: self.size }
    }
}

/// The view of a list of remote files.
pub open spec fn files_view(files: Seq<RemoteFile>) -> Seq<(Seq<char>, u64)> {
    files.map_values(|f: RemoteFile| f.view())
}

/// What a mirror run reports: how many files it fetched.
pub struct SyncResult {
    pub files_to_download: usize,
}

/// The folders of the instance that the server's copy governs.
pub open spec fn managed_folders_view() -> Seq<Seq<char>> {
    seq!["mods"@, "config"@, "resourcepacks"@]
}

/// The folders of the instance that the server's copy governs.
pub fn managed_folders() -> (r: Vec<&'static str>)
    ensures
        r@.map_values(|s: &str| s@) == managed_folders_view(),
{
    let r = vec!["mods", "config", "resourcepacks"];
    assert(r@.map_values(|s: &str| s@) =~= managed_folders_view());
    r
}

/// The path of `name` relative to the instance, inside the folder whose
/// relative path is `prefix`.
pub open spec fn relative_child(prefix: Seq<char>, name: Seq<char>) -> Seq<char> {
    if prefix.len() == 0 {
        name
    } else {
        prefix + seq!['/'] + name
    }
}

/// The remote path of `name` inside the remote directory `dir`.
pub open spec fn remote_child(dir: Seq<char>, name: Seq<char>) -> Seq<char> {
    dir + seq!['/'] + name
}

pub fn relative_child_path(prefix: &str, name: &str) -> (r: String)
    ensures
        r@ == relative_child(prefix@, name@),
{
    if prefix.unicode_len() == 0 {
        String::from_str(name)
    } else {
        proof {
            reveal_strlit("/");
        }
        let mut r = String::from_str(prefix);
        r.append("/");
        r.append(name);
        r
    }
}

pub fn remote_child_path(dir: &str, name: &str) -> (r: String)
    ensures
        r@ == remote_child(dir@, name@),
{
    proof {
        reveal_strlit("/");
    }
    let mut r = String::from_str(dir);
    r.append("/");
    r.append(name);
    r
}

/// The kind of a remote directory entry.
pub enum EntryKind {
    Dir,
    File,
    Other,
}

/// One entry of a remote directory listing.
pub struct RemoteEntry {
    pub name: String,
    pub kind: EntryKind,
    pub size: u64,
}

/// One entry of a local directory listing.
pub struct LocalEntry {
    pub name: String,
    pub is_dir: bool,
}

/// Whether a remote entry is the directory itself or its parent.
pub open spec fn is_dot_entry(name: Seq<char>) -> bool {
    name == seq!['.'] || name == seq!['.', '.']
}

/// The subdirectories among the first `end` remote entries of the directory
/// at `dir` (relative path `rel`): (remote path, relative path) pairs.
pub open spec fn remote_subdirs(dir: Seq<char>, rel: Seq<char>, es: Seq<RemoteEntry>, end: int) -> Seq<
    (Seq<char>, Seq<char>),
>
    decreases end,
{
    if end <= 0 || end > es.len() {
        Seq::empty()
    } else {
        let e = es[end - 1];
        let before = remote_subdirs(dir, rel, es, end - 1);
        if !is_dot_entry(e.name@) && e.kind is Dir {
            before.push((remote_child(dir, e.name@), relative_child(rel, e.name@)))
        } else {
            before
        }
    }
}

/// The regular files among the first `end` remote entries, with sizes.
pub open spec fn remote_files(rel: Seq<char>, es: Seq<RemoteEntry>, end: int) -> Seq<(Seq<char>, u64)>
    decreases end,
{
    if end <= 0 || end > es.len() {
        Seq::empty()
    } else {
        let e = es[end - 1];
        let before = remote_files(rel, es, end - 1);
        if !is_dot_entry(e.name@) && e.kind is File {
            before.push((relative_child(rel, e.name@), e.size))
        } else {
            before
        }
    }
}

/// The subdirectories among the first `end` local entries of the directory
/// at `dir` (relative path `rel`): (local path, relative path) pairs.
pub open spec fn local_subdirs(dir: Seq<char>, rel: Seq<char>, es: Seq<LocalEntry>, end: int) -> Seq<
    (Seq<char>, Seq<char>),
>
    decreases end,
{
    if end <= 0 || end > es.len() {
        Seq::empty()
    } else {
        let e = es[end - 1];
        let before = local_subdirs(dir, rel, es, end - 1);
        if e.is_dir {
            before.push((joined(dir, e.name@), relative_child(rel, e.name@)))
        } else {
            before
        }
    }
}

/// The relative paths of the other local entries among the first `end`.
pub open spec fn local_files(rel: Seq<char>, es: Seq<LocalEntry>, end: int) -> Seq<Seq<char>>
    decreases end,
{
    if end <= 0 || end > es.len() {
        Seq::empty()
    } else {
        let e = es[end - 1];
        let before = local_files(rel, es, end - 1);
        if !e.is_dir {
            before.push(relative_child(rel, e.name@))
        } else {
            before
        }
    }
}

/// A depth-first walk of a directory tree: the directories still to list,
/// each with its path relative to the instance, kept on a stack.
pub struct TreeWalk {
    pub pending: Vec<(String, String)>,
}

impl TreeWalk {
    pub open spec fn view(&self) -> Seq<(Seq<char>, Seq<char>)> {
        self.pending@.map_values(|p: (String, String)| (p.0@, p.1@))
    }

    /// A walk that starts at `dir`, whose relative path is `rel`.
    pub fn new(dir: &str, rel: &str) -> (r: Self)
        ensures
            r.view() == seq![(dir@, rel@)],
    {
        let mut pending: Vec<(String, String)> = Vec::new();
        pending.push((String::from_str(dir), String::from_str(rel)));
        let r = TreeWalk { pending };
        assert(r.view() =~= seq![(dir@, rel@)]);
        r
    }

    /// The next directory to list: the one pushed last.
    pub fn next_dir(&mut self) -> (r: Option<(String, String)>)
        ensures
            old(self).view().len() == 0 ==> r is None && final(self).view() == old(self).view(),
            old(self).view().len() > 0 ==> (r matches Some(d) && (d.0@, d.1@) == old(
                self,
            ).view().last() && final(self).view() == old(self).view().drop_last()),
    {
        let r = self.pending.pop();
        assert(self.view() =~= old(self).view().drop_last() || old(self).view().len() == 0);
        r
    }

    /// Takes in the listing of the remote directory `dir`: `.` and `..` are
    /// skipped, subdirectories are pushed and regular files recorded, in
    /// listing order; other entries are ignored.
    pub fn visit_remote(
        &mut self,
        dir: &str,
        rel: &str,
        entries: &Vec<RemoteEntry>,
        out: &mut Vec<RemoteFile>,
    )
        ensures
            final(self).view() == old(self).view() + remote_subdirs(dir@, rel@, entries@, entries@.len() as int),
            files_view(final(out)@) == files_view(old(out)@) + remote_files(rel@, entries@, entries@.len() as int),
    {
        let mut i: usize = 0;
        while i < entries.len()
            invariant
                i <= entries.len(),
                self.view() == old(self).view() + remote_subdirs(dir@, rel@, entries@, i as int),
                files_view(out@) == files_view(old(out)@) + remote_files(rel@, entries@, i as int),
            decreases entries.len() - i,
        {
            let e = &entries[i];
            let name = e.name.as_str();
            let n = name.unicode_len();
            let dot = (n == 1 && name.get_char(0) == '.') || (n == 2 && name.get_char(0) == '.'
                && name.get_char(1) == '.');
            proof {
                if is_dot_entry(name@) {
                    assert(name@ =~= seq!['.'] || name@ =~= seq!['.', '.']);
                    if name@ =~= seq!['.'] {
                        assert(name@[0] == '.');
                    } else {
                        assert(name@[0] == '.' && name@[1] == '.');
                    }
                }
                if dot {
                    if n == 1 {
                        assert(name@ =~= seq!['.']);
                    } else {
                        assert(name@ =~= seq!['.', '.']);
                    }
                }
            }
            if !dot {
                match e.kind {
                    EntryKind::Dir => {
                        let full = remote_child_path(dir, name);
                        let relative = relative_child_path(rel, name);
                        let ghost before = self.view();
                        self.pending.push((full, relative));
                        assert(self.view() =~= before.push((full@, relative@)));
                        assert(self.view() =~= old(self).view() + remote_subdirs(
                            dir@,
                            rel@,
                            entries@,
                            i + 1,
                        ));
                    },
                    EntryKind::File => {
                        let relative = relative_child_path(rel, name);
                        let ghost before = files_view(out@);
                        out.push(RemoteFile { relative_path: relative, size: e.size });
                        assert(files_view(out@) =~= before.push((relative@, e.size)));
                        assert(files_view(out@) =~= files_view(old(out)@) + remote_files(
                            rel@,
                            entries@,
                            i + 1,
                        ));
                    },
                    EntryKind::Other => {},
                }
            }
            i = i + 1;
        }
    }

    /// Takes in the listing of the local directory `dir`: subdirectories are
    /// pushed and every other entry recorded, in listing order.
    pub fn visit_local(
        &mut self,
        dir: &str,
        rel: &str,
        entries: &Vec<LocalEntry>,
        out: &mut Vec<String>,
    )
        ensures
            final(self).view() == old(self).view() + local_subdirs(dir@, rel@, entries@, entries@.len() as int),
            final(out)@.map_values(|s: String| s@) == old(out)@.map_values(|s: String| s@)
                + local_files(rel@, entries@, entries@.len() as int),
    {
        let mut i: usize = 0;
        while i < entries.len()
            invariant
                i <= entries.len(),
                self.view() == old(self).view() + local_subdirs(dir@, rel@, entries@, i as int),
                out@.map_values(|s: String| s@) == old(out)@.map_values(|s: String| s@)
                    + local_files(rel@, entries@, i as int),
            decreases entries.len() - i,
        {
            let e = &entries[i];
            let name = e.name.as_str();
            let relative = relative_child_path(rel, name);
            if e.is_dir {
                let full = join(dir, name);
                let ghost before = self.view();
                self.pending.push((full, relative));
                assert(self.view() =~= before.push((full@, relative@)));
                assert(self.view() =~= old(self).view() + local_subdirs(dir@, rel@, entries@, i + 1));
            } else {
                let ghost before = out@.map_values(|s: String| s@);
                out.push(relative);
                assert(out@.map_values(|s: String| s@) =~= before.push(relative@));
                assert(out@.map_values(|s: String| s@) =~= old(out)@.map_values(|s: String| s@)
                    + local_files(rel@, entries@, i + 1));
            }
            i = i + 1;
        }
    }
}


/// The size of the local copy of the `i`-th remote file, `None` where
/// there is none (or the list of sizes stops short).
pub open spec fn local_size_at(local: Seq<Option<u64>>, i: int) -> Option<u64> {
    if 0 <= i < local.len() {
        local[i]
    } else {
        None
    }
}

/// A remote file is fetched unless a local copy of the same size exists.
pub open spec fn needs_fetch(local_size: Option<u64>, remote_size: u64) -> bool {
    local_size != Some(remote_size)
}

pub fn needs_download(local_size: Option<u64>, remote_size: u64) -> (b: bool)
    ensures
        b == needs_fetch(local_size, remote_size),
{
    match local_size {
        Some(l) => l != remote_size,
        None => true,
    }
}

/// The files among the first `end` remote ones that are fetched, in order.
pub open spec fn planned(remote: Seq<(Seq<char>, u64)>, local: Seq<Option<u64>>, end: int) -> Seq<
    (Seq<char>, u64),
>
    decreases end,
{
    if end <= 0 || end > remote.len() {
        Seq::empty()
    } else if needs_fetch(local_size_at(local, end - 1), remote[end - 1].1) {
        planned(remote, local, end - 1).push(remote[end - 1])
    } else {
        planned(remote, local, end - 1)
    }
}

/// The files to fetch: `local_sizes[i]` is the size of the local copy of
/// `remote[i]`, `None` where it does not exist.
pub fn plan_downloads(remote: &Vec<RemoteFile>, local_sizes: &Vec<Option<u64>>) -> (r: Vec<RemoteFile>)
    ensures
        files_view(r@) == planned(files_view(remote@), local_sizes@, remote@.len() as int),
{
    let ghost rv = files_view(remote@);
    let mut r: Vec<RemoteFile> = Vec::new();
    let mut i: usize = 0;
    while i < remote.len()
        invariant
            rv == files_view(remote@),
            i <= remote.len(),
            files_view(r@) == planned(rv, local_sizes@, i as int),
        decreases remote.len() - i,
    {
        let size = if i < local_sizes.len() {
            local_sizes[i]
        } else {
            None
        };
        assert(size == local_size_at(local_sizes@, i as int));
        assert(rv[i as int] == remote@[i as int].view());
        if needs_download(size, remote[i].size) {
            let ghost before = files_view(r@);
            r.push(remote[i].duplicate());
            assert(files_view(r@) =~= before.push(rv[i as int]));
        }
        i = i + 1;
    }
    r
}

/// Whether the server lists a file at relative path `p`.
pub open spec fn listed(remote: Seq<(Seq<char>, u64)>, p: Seq<char>) -> bool {
    exists|i: int| 0 <= i < remote.len() && #[trigger] remote[i].0 == p
}

/// Whether the server lists a file at relative path `p`.
pub fn is_listed(remote: &Vec<RemoteFile>, p: &String) -> (b: bool)
    ensures
        b == listed(files_view(remote@), p@),
{
    let ghost rv = files_view(remote@);
    let mut i: usize = 0;
    while i < remote.len()
        invariant
            rv == files_view(remote@),
            i <= remote.len(),
            forall|k: int| 0 <= k < i ==> rv[k].0 != p@,
        decreases remote.len() - i,
    {
        assert(rv[i as int] == remote@[i as int].view());
        if remote[i].relative_path.eq(p) {
            assert(rv[i as int].0 == p@);
            return true;
        }
        i = i + 1;
    }
    false
}

/// The local files among the first `end` that the server does not list.
pub open spec fn stale_before(local: Seq<Seq<char>>, remote: Seq<(Seq<char>, u64)>, end: int) -> Seq<
    Seq<char>,
>
    decreases end,
{
    if end <= 0 || end > local.len() {
        Seq::empty()
    } else if !listed(remote, local[end - 1]) {
        stale_before(local, remote, end - 1).push(local[end - 1])
    } else {
        stale_before(local, remote, end - 1)
    }
}

/// The local files to remove: those that the server does not list, in order.
pub fn stale_local_files(local: &Vec<String>, remote: &Vec<RemoteFile>) -> (r: Vec<String>)
    ensures
        r@.map_values(|s: String| s@) == stale_before(
            local@.map_values(|s: String| s@),
            files_view(remote@),
            local@.len() as int,
        ),
{
    let ghost lv = local@.map_values(|s: String| s@);
    let mut r: Vec<String> = Vec::new();
    let mut i: usize = 0;
    while i < local.len()
        invariant
            lv == local@.map_values(|s: String| s@),
            i <= local.len(),
            r@.map_values(|s: String| s@) == stale_before(lv, files_view(remote@), i as int),
        decreases local.len() - i,
    {
        assert(lv[i as int] == local@[i as int]@);
        if !is_listed(remote, &local[i]) {
            let ghost before = r@.map_values(|s: String| s@);
            r.push(local[i].clone());
            assert(r@.map_values(|s: String| s@) =~= before.push(lv[i as int]));
        }
        i = i + 1;
    }
    r
}

/// The sum of the sizes of the first `end` files.
pub open spec fn total_size(files: Seq<(Seq<char>, u64)>, end: int) -> nat
    decreases end,
{
    if end <= 0 || end > files.len() {
        0
    } else {
        total_size(files, end - 1) + files[end - 1].1 as nat
    }
}

proof fn lemma_total_size_grows(files: Seq<(Seq<char>, u64)>, lo: int, hi: int)
    requires
        0 <= lo <= hi <= files.len(),
    ensures
        total_size(files, lo) <= total_size(files, hi),
    decreases hi - lo,
{
    if lo < hi {
        lemma_total_size_grows(files, lo, hi - 1);
    }
}

/// The number of bytes to fetch, `None` where it does not fit in a `u64`.
pub fn total_download_bytes(files: &Vec<RemoteFile>) -> (r: Option<u64>)
    ensures
        ({
            let t = total_size(files_view(files@), files@.len() as int);
            &&& t <= u64::MAX ==> r == Some(t as u64)
            &&& t > u64::MAX ==> r is None
        }),
{
    let ghost fv = files_view(files@);
    let mut acc: u64 = 0;
    let mut i: usize = 0;
    while i < files.len()
        invariant
            fv == files_view(files@),
            i <= files.len(),
            acc == total_size(fv, i as int),
        decreases files.len() - i,
    {
        assert(fv[i as int] == files@[i as int].view());
        match acc.checked_add(files[i].size) {
            Some(v) => acc = v,
            None => {
                proof {
                    lemma_total_size_grows(fv, i + 1, fv.len() as int);
                }
                return None;
            },
        }
        i = i + 1;
    }
    Some(acc)
}

/// How long a connection to the SFTP server may take, in seconds.
pub const CONNECT_TIMEOUT_SECS: u64 = 20;

/// How long one SFTP request may take, in seconds.
pub const SFTP_REQUEST_TIMEOUT_SECS: u64 = 120;

/// The largest SFTP packet asked for, in bytes.
pub const SFTP_MAX_PACKET_LEN: u32 = 1048576;

/// How many bytes of a file are read and written at a time.
pub const DOWNLOAD_CHUNK_BYTES: usize = 1048576;

/// At most this many downloads run at once.
pub const DOWNLOAD_CONCURRENCY: usize = 8;

/// How many download workers to start for `files` files.
pub fn download_workers(files: usize) -> (r: usize)
    ensures
        r == if files < DOWNLOAD_CONCURRENCY {
            files
        } else {
            DOWNLOAD_CONCURRENCY
        },
{
    if files < DOWNLOAD_CONCURRENCY {
        files
    } else {
        DOWNLOAD_CONCURRENCY
    }
}

/// What a mirror run does once both sides are listed: the files to fetch,
/// the local files to remove, the bytes to fetch, and the number of
/// download workers.
pub struct SyncPlan {
    pub downloads: Vec<RemoteFile>,
    pub removals: Vec<String>,
    pub total_bytes: u64,
    pub workers: usize,
}

impl SyncPlan {
    /// What the run reports.
    pub fn result(&self) -> (r: SyncResult)
        ensures
            r.files_to_download == self.downloads@.len(),
    {
        SyncResult { files_to_download: self.downloads.len() }
    }
}

/// Plans a mirror run from the remote files, the sizes of their local
/// copies (`None` where there is none) and the local files found in the
/// managed folders; `None` where the bytes to fetch overflow a `u64`.
pub fn plan_sync(
    remote: &Vec<RemoteFile>,
    local_sizes: &Vec<Option<u64>>,
    local_files: &Vec<String>,
) -> (r: Option<SyncPlan>)
    ensures
        ({
            let fetched = planned(files_view(remote@), local_sizes@, remote@.len() as int);
            let total = total_size(fetched, fetched.len() as int);
            &&& total > u64::MAX ==> r is None
            &&& total <= u64::MAX ==> (r matches Some(p) && files_view(p.downloads@) == fetched
                && p.removals@.map_values(|s: String| s@) == stale_before(
                local_files@.map_values(|s: String| s@),
                files_view(remote@),
                local_files@.len() as int,
            ) && p.total_bytes == total && p.workers == if fetched.len() < DOWNLOAD_CONCURRENCY {
                fetched.len() as int
            } else {
                DOWNLOAD_CONCURRENCY as int
            })
        }),
{
    let downloads = plan_downloads(remote, local_sizes);
    let removals = stale_local_files(local_files, remote);
    match total_download_bytes(&downloads) {
        None => None,
        Some(total_bytes) => {
            let workers = download_workers(downloads.len());
            Some(SyncPlan { downloads, removals, total_bytes, workers })
        },
    }
}

/// Every regular remote file of a listing is recorded, in listing order,
/// and nothing else: the recorded files are exactly the entries of kind
/// `File` other than `.` and `..`, each as (relative path, size).
pub proof fn lemma_remote_files_are_the_regular_entries(rel: Seq<char>, es: Seq<RemoteEntry>)
    ensures
        remote_files(rel, es, es.len() as int) == es.filter_map(
            |e: RemoteEntry|
                if !(e.name@ == seq!['.'] || e.name@ == seq!['.', '.']) && e.kind is File {
                    Some((relative_child(rel, e.name@), e.size))
                } else {
                    None
                },
        ),
{
    let f = |e: RemoteEntry|
        if !(e.name@ == seq!['.'] || e.name@ == seq!['.', '.']) && e.kind is File {
            Some((relative_child(rel, e.name@), e.size))
        } else {
            None
        };
    lemma_remote_files_prefix(rel, es, f, es.len() as int);
    assert(es.take(es.len() as int) =~= es);
}

proof fn lemma_remote_files_prefix(
    rel: Seq<char>,
    es: Seq<RemoteEntry>,
    f: spec_fn(RemoteEntry) -> Option<(Seq<char>, u64)>,
    n: int,
)
    requires
        0 <= n <= es.len(),
        f == (|e: RemoteEntry|
            if !(e.name@ == seq!['.'] || e.name@ == seq!['.', '.']) && e.kind is File {
                Some((relative_child(rel, e.name@), e.size))
            } else {
                None
            }),
    ensures
        remote_files(rel, es, n) == es.take(n).filter_map(f),
    decreases n,
{
    let t = es.take(n);
    if n > 0 {
        lemma_remote_files_prefix(rel, es, f, n - 1);
        assert(t.drop_last() =~= es.take(n - 1));
        assert(t.last() == es[n - 1]);
        let e = es[n - 1];
        if !is_dot_entry(e.name@) && e.kind is File {
            assert(remote_files(rel, es, n) =~= es.take(n - 1).filter_map(f) + seq![(
                relative_child(rel, e.name@),
                e.size,
            )]);
        }
    } else {
        assert(t =~= Seq::<RemoteEntry>::empty());
    }
}

/// Every remote subdirectory of a listing is walked into, in listing order,
/// and nothing else: the pushed directories are exactly the entries of kind
/// `Dir` other than `.` and `..`, each as (remote path, relative path).
pub proof fn lemma_remote_subdirs_are_the_dir_entries(dir: Seq<char>, rel: Seq<char>, es: Seq<RemoteEntry>)
    ensures
        remote_subdirs(dir, rel, es, es.len() as int) == es.filter_map(
            |e: RemoteEntry|
                if !(e.name@ == seq!['.'] || e.name@ == seq!['.', '.']) && e.kind is Dir {
                    Some((dir + seq!['/'] + e.name@, relative_child(rel, e.name@)))
                } else {
                    None
                },
        ),
{
    let f = |e: RemoteEntry|
        if !(e.name@ == seq!['.'] || e.name@ == seq!['.', '.']) && e.kind is Dir {
            Some((dir + seq!['/'] + e.name@, relative_child(rel, e.name@)))
        } else {
            None
        };
    lemma_remote_subdirs_prefix(dir, rel, es, f, es.len() as int);
    assert(es.take(es.len() as int) =~= es);
}

proof fn lemma_remote_subdirs_prefix(
    dir: Seq<char>,
    rel: Seq<char>,
    es: Seq<RemoteEntry>,
    f: spec_fn(RemoteEntry) -> Option<(Seq<char>, Seq<char>)>,
    n: int,
)
    requires
        0 <= n <= es.len(),
        f == (|e: RemoteEntry|
            if !(e.name@ == seq!['.'] || e.name@ == seq!['.', '.']) && e.kind is Dir {
                Some((dir + seq!['/'] + e.name@, relative_child(rel, e.name@)))
            } else {
                None
            }),
    ensures
        remote_subdirs(dir, rel, es, n) == es.take(n).filter_map(f),
    decreases n,
{
    let t = es.take(n);
    if n > 0 {
        lemma_remote_subdirs_prefix(dir, rel, es, f, n - 1);
        assert(t.drop_last() =~= es.take(n - 1));
        assert(t.last() == es[n - 1]);
        let e = es[n - 1];
        if !is_dot_entry(e.name@) && e.kind is Dir {
            assert(remote_subdirs(dir, rel, es, n) =~= es.take(n - 1).filter_map(f) + seq![(
                dir + seq!['/'] + e.name@,
                relative_child(rel, e.name@),
            )]);
        }
    } else {
        assert(t =~= Seq::<RemoteEntry>::empty());
    }
}

/// Every local entry that is not a directory is recorded, in listing
/// order, and nothing else, each by its relative path.
pub proof fn lemma_local_files_are_the_non_dir_entries(rel: Seq<char>, es: Seq<LocalEntry>)
    ensures
        local_files(rel, es, es.len() as int) == es.filter_map(
            |e: LocalEntry|
                if !e.is_dir {
                    Some(relative_child(rel, e.name@))
                } else {
                    None
                },
        ),
{
    let f = |e: LocalEntry|
        if !e.is_dir {
            Some(relative_child(rel, e.name@))
        } else {
            None
        };
    lemma_local_files_prefix(rel, es, f, es.len() as int);
    assert(es.take(es.len() as int) =~= es);
}

proof fn lemma_local_files_prefix(
    rel: Seq<char>,
    es: Seq<LocalEntry>,
    f: spec_fn(LocalEntry) -> Option<Seq<char>>,
    n: int,
)
    requires
        0 <= n <= es.len(),
        f == (|e: LocalEntry|
            if !e.is_dir {
                Some(relative_child(rel, e.name@))
            } else {
                None
            }),
    ensures
        local_files(rel, es, n) == es.take(n).filter_map(f),
    decreases n,
{
    let t = es.take(n);
    if n > 0 {
        lemma_local_files_prefix(rel, es, f, n - 1);
        assert(t.drop_last() =~= es.take(n - 1));
        assert(t.last() == es[n - 1]);
        let e = es[n - 1];
        if !e.is_dir {
            assert(local_files(rel, es, n) =~= es.take(n - 1).filter_map(f) + seq![relative_child(
                rel,
                e.name@,
            )]);
        }
    } else {
        assert(t =~= Seq::<LocalEntry>::empty());
    }
}

/// Every local subdirectory is walked into, in listing order, and nothing
/// else, each as (local path, relative path).
pub proof fn lemma_local_subdirs_are_the_dir_entries(dir: Seq<char>, rel: Seq<char>, es: Seq<LocalEntry>)
    ensures
        local_subdirs(dir, rel, es, es.len() as int) == es.filter_map(
            |e: LocalEntry|
                if e.is_dir {
                    Some((joined(dir, e.name@), relative_child(rel, e.name@)))
                } else {
                    None
                },
        ),
{
    let f = |e: LocalEntry|
        if e.is_dir {
            Some((joined(dir, e.name@), relative_child(rel, e.name@)))
        } else {
            None
        };
    lemma_local_subdirs_prefix(dir, rel, es, f, es.len() as int);
    assert(es.take(es.len() as int) =~= es);
}

proof fn lemma_local_subdirs_prefix(
    dir: Seq<char>,
    rel: Seq<char>,
    es: Seq<LocalEntry>,
    f: spec_fn(LocalEntry) -> Option<(Seq<char>, Seq<char>)>,
    n: int,
)
    requires
        0 <= n <= es.len(),
        f == (|e: LocalEntry|
            if e.is_dir {
                Some((joined(dir, e.name@), relative_child(rel, e.name@)))
            } else {
                None
            }),
    ensures
        local_subdirs(dir, rel, es, n) == es.take(n).filter_map(f),
    decreases n,
{
    let t = es.take(n);
    if n > 0 {
        lemma_local_subdirs_prefix(dir, rel, es, f, n - 1);
        assert(t.drop_last() =~= es.take(n - 1));
        assert(t.last() == es[n - 1]);
        let e = es[n - 1];
        if e.is_dir {
            assert(local_subdirs(dir, rel, es, n) =~= es.take(n - 1).filter_map(f) + seq![(
                joined(dir, e.name@),
                relative_child(rel, e.name@),
            )]);
        }
    } else {
        assert(t =~= Seq::<LocalEntry>::empty());
    }
}

/// Every remote file whose local copy is missing or has another size is
/// fetched: nothing that needs fetching is left out.
pub proof fn lemma_needed_files_are_planned(
    remote: Seq<(Seq<char>, u64)>,
    local: Seq<Option<u64>>,
    end: int,
    i: int,
)
    requires
        0 <= i < end <= remote.len(),
        needs_fetch(local_size_at(local, i), remote[i].1),
    ensures
        planned(remote, local, end).contains(remote[i]),
    decreases end,
{
    let prev = planned(remote, local, end - 1);
    if i == end - 1 {
        assert(planned(remote, local, end) == prev.push(remote[i]));
        assert(prev.push(remote[i])[prev.len() as int] == remote[i]);
    } else {
        lemma_needed_files_are_planned(remote, local, end - 1, i);
        let k = choose|k: int| 0 <= k < prev.len() && prev[k] == remote[i];
        if needs_fetch(local_size_at(local, end - 1), remote[end - 1].1) {
            assert(prev.push(remote[end - 1])[k] == remote[i]);
        }
    }
}

/// A mirror run removes exactly the local files that the server does not
/// list: no file that the server lists is ever removed.
pub proof fn lemma_stale_files_exact(local: Seq<Seq<char>>, remote: Seq<(Seq<char>, u64)>, x: Seq<char>)
    ensures
        stale_before(local, remote, local.len() as int).contains(x) <==> (local.contains(x)
            && !listed(remote, x)),
{
    lemma_stale_before_members(local, remote, local.len() as int, x);
    assert(local.take(local.len() as int) =~= local);
}

proof fn lemma_stale_before_members(
    local: Seq<Seq<char>>,
    remote: Seq<(Seq<char>, u64)>,
    end: int,
    x: Seq<char>,
)
    requires
        0 <= end <= local.len(),
    ensures
        stale_before(local, remote, end).contains(x) <==> (local.take(end).contains(x)
            && !listed(remote, x)),
    decreases end,
{
    broadcast use vstd::seq_lib::group_seq_properties;

    if end > 0 {
        lemma_stale_before_members(local, remote, end - 1, x);
        assert(local.take(end) =~= local.take(end - 1).push(local[end - 1]));
    } else {
        assert(local.take(0) =~= Seq::<Seq<char>>::empty());
    }
}

/// Every file fetched is one that the server lists, with the listed size,
/// and none whose local copy already has that size.
pub proof fn lemma_planned_files_are_remote(
    remote: Seq<(Seq<char>, u64)>,
    local: Seq<Option<u64>>,
    end: int,
    f: (Seq<char>, u64),
)
    requires
        0 <= end <= remote.len(),
        planned(remote, local, end).contains(f),
    ensures
        exists|i: int|
            0 <= i < end && remote[i] == f && needs_fetch(#[trigger] local_size_at(local, i), f.1),
    decreases end,
{
    if end > 0 {
        let prev = planned(remote, local, end - 1);
        if needs_fetch(local_size_at(local, end - 1), remote[end - 1].1) {
            if f != remote[end - 1] {
                assert(prev.push(remote[end - 1]).contains(f));
                assert(prev.contains(f)) by {
                    let q = prev.push(remote[end - 1]);
                    let j = choose|j: int| 0 <= j < q.len() && #[trigger] q[j] == f;
                    assert(j < prev.len());
                    assert(prev[j] == f);
                }
                lemma_planned_files_are_remote(remote, local, end - 1, f);
            }
        } else {
            lemma_planned_files_are_remote(remote, local, end - 1, f);
        }
    }
}

} // verus!
