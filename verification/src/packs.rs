use vstd::prelude::*;

use crate::fileext::{ext_text, same_text, FileExt};

verus! {

/// Identifies a mounted asset pack.
#[derive(Copy, Clone, Eq, PartialEq, Debug, Structural)]
pub struct AssetPackId(pub u32);

/// A mounted asset pack: its folder, its priority and its id.
struct Mount {
    path: String,
    priority: u32,
    id: AssetPackId,
}

/// What a mount is: its folder's path, its priority and its id.
pub open spec fn mount_view(path: Seq<char>, priority: u32, id: u32) -> (Seq<char>, u32, u32) {
    (path, priority, id)
}

/// The priorities of the mounts do not go down, and no id occurs twice or reaches `next`.
pub open spec fn mounts_ordered(s: Seq<(Seq<char>, u32, u32)>, next: u32) -> bool {
    &&& forall|i: int, j: int| 0 <= i < j < s.len() ==> #[trigger] s[i].1 <= #[trigger] s[j].1
    &&& forall|i: int, j: int| 0 <= i < j < s.len() ==> #[trigger] s[i].2 != #[trigger] s[j].2
    &&& forall|i: int| 0 <= i < s.len() ==> #[trigger] s[i].2 < next
}

/// Where a mount of this priority goes: before the first mount of at least its priority.
pub open spec fn mount_slot(s: Seq<(Seq<char>, u32, u32)>, priority: u32, i: int) -> bool {
    &&& 0 <= i <= s.len()
    &&& forall|j: int| 0 <= j < i ==> #[trigger] s[j].1 < priority
    &&& i < s.len() ==> s[i].1 >= priority
}

/// Reads folders from a list of mounted asset packs, by priority.
pub struct AssetPackReader {
    next_mount_id: u32,
    mounts: Vec<Mount>,
}

impl AssetPackReader {
    /// The mounts, in the order they are read.
    pub closed spec fn view(&self) -> Seq<(Seq<char>, u32, u32)> {
        Seq::new(
            self.mounts@.len(),
            |i: int| mount_view(self.mounts@[i].path@, self.mounts@[i].priority, self.mounts@[i].id.0),
        )
    }

    /// The id that the next mount gets.
    pub closed spec fn next_id(&self) -> u32 {
        self.next_mount_id
    }

    pub closed spec fn wf(&self) -> bool {
        mounts_ordered(self@, self.next_mount_id)
    }

    /// A reader with no mounts.
    pub fn new() -> (r: AssetPackReader)
        ensures
            r.wf(),
            r@ == Seq::<(Seq<char>, u32, u32)>::empty(),
            r.next_id() == 0,
    {
        let r = AssetPackReader { next_mount_id: 0, mounts: Vec::new() };
        assert(r@ =~= Seq::<(Seq<char>, u32, u32)>::empty());
        r
    }

    /// Add an asset pack, before the first one of at least its priority.
    pub fn mount(&mut self, path: String, priority: u32) -> (r: AssetPackId)
        requires
            old(self).wf(),
            old(self).next_id() < u32::MAX,
        ensures
            final(self).wf(),
            r.0 == old(self).next_id(),
            final(self).next_id() == old(self).next_id() + 1,
            exists|i: int| mount_slot(old(self)@, priority, i)
                && final(self)@ == old(self)@.insert(i, mount_view(path@, priority, r.0)),
    {
        let id = AssetPackId(self.next_mount_id);
        self.next_mount_id = self.next_mount_id + 1;
        let ghost path_view = path@;
        let ghost before = old(self)@;
        let n = self.mounts.len();
        let mut i: usize = 0;
        while i < n
            invariant
                i <= n,
                n == self.mounts@.len(),
                forall|j: int| 0 <= j < i ==> #[trigger] self.mounts@[j].priority < priority,
            ensures
                i <= n,
                forall|j: int| 0 <= j < i ==> #[trigger] self.mounts@[j].priority < priority,
                i < n ==> self.mounts@[i as int].priority >= priority,
            decreases n - i,
        {
            if self.mounts[i].priority >= priority {
                break;
            }
            i = i + 1;
        }
        proof {
            assert(self@ == before);
        }
        self.mounts.insert(i, Mount { path, priority, id });
        proof {
            let entry = mount_view(path_view, priority, id.0);
            assert(self@ =~= before.insert(i as int, entry));
            assert forall|j: int| 0 <= j < i implies #[trigger] before[j].1 < priority by {
                assert(before[j].1 == old(self).mounts@[j].priority);
            }
            assert(mount_slot(before, priority, i as int));
            let s = self@;
            assert forall|a: int, b: int| 0 <= a < b < s.len() implies #[trigger] s[a].1 <= #[trigger] s[b].1 by {
                if a < i && b > i {
                    assert(before[a].1 <= before[b - 1].1);
                } else if a > i {
                    assert(before[a - 1].1 <= before[b - 1].1);
                } else if a == i && b > i {
                    assert(before[i as int].1 <= before[b - 1].1);
                }
            }
            assert forall|a: int, b: int| 0 <= a < b < s.len() implies #[trigger] s[a].2 != #[trigger] s[b].2 by {
                if a < i && b > i {
                    assert(before[a].2 != before[b - 1].2);
                } else if a > i {
                    assert(before[a - 1].2 != before[b - 1].2);
                } else if a == i {
                    assert(before[b - 1].2 < id.0);
                } else if b == i {
                    assert(before[a].2 < id.0);
                }
            }
        }
        id
    }

    /// Add an asset pack after all others, with the priority of the last one (or 0).
    pub fn mount_to_end(&mut self, path: String) -> (r: AssetPackId)
        requires
            old(self).wf(),
            old(self).next_id() < u32::MAX,
        ensures
            final(self).wf(),
            r.0 == old(self).next_id(),
            final(self).next_id() == old(self).next_id() + 1,
            final(self)@ == old(self)@.push(
                mount_view(
                    path@,
                    if old(self)@.len() == 0 { 0 } else { old(self)@.last().1 },
                    r.0,
                ),
            ),
    {
        let id = AssetPackId(self.next_mount_id);
        self.next_mount_id = self.next_mount_id + 1;
        let n = self.mounts.len();
        let priority = if n == 0 {
            0
        } else {
            self.mounts[n - 1].priority
        };
        let ghost before = old(self)@;
        let ghost path_view = path@;
        self.mounts.push(Mount { path, priority, id });
        proof {
            assert(self@ =~= before.push(mount_view(path_view, priority, id.0)));
            let s = self@;
            assert forall|a: int, b: int| 0 <= a < b < s.len() implies #[trigger] s[a].1 <= #[trigger] s[b].1 by {
                if b == n && a < n - 1 {
                    assert(before[a].1 <= before[n - 1].1);
                }
            }
        }
        id
    }

    /// The folders of the mounts, with their ids, in the order they are read.
    pub fn mount_paths(&self) -> (r: Vec<(String, AssetPackId)>)
        ensures
            r@.len() == self@.len(),
            forall|i: int| 0 <= i < r@.len() ==> (#[trigger] r@[i]).0@ == self@[i].0 && r@[i].1.0 == self@[i].2,
    {
        let n = self.mounts.len();
        let mut out: Vec<(String, AssetPackId)> = Vec::new();
        let mut i: usize = 0;
        while i < n
            invariant
                i <= n,
                n == self.mounts@.len(),
                out@.len() == i,
                forall|j: int| 0 <= j < i ==> (#[trigger] out@[j]).0@ == self@[j].0 && out@[j].1.0 == self@[j].2,
            decreases n - i,
        {
            out.push((self.mounts[i].path.clone(), self.mounts[i].id));
            i = i + 1;
        }
        out
    }

    /// Choose which files of a folder to load, given the files listed in the folder of each
    /// mount, in mount order. A file is chosen where its relative path is known, its extension
    /// is one of `exts`, and no file with the same relative path was chosen before it; so a
    /// mount read earlier hides the same file in those read later.
    pub fn select_files(&self, listings: &Vec<Vec<ListedFile>>, exts: &[FileExt]) -> (r: Vec<FileTask>)
        requires
            self.wf(),
            listings@.len() == self@.len(),
        ensures
            Seq::new(r@.len(), |i: int| task_view(r@[i])) == selected(
                candidates(listings@, self@, listings@.len() as nat),
                exts@,
            ),
    {
        let mut out: Vec<FileTask> = Vec::new();
        let mut taken: Vec<String> = Vec::new();
        let n = listings.len();
        let mut i: usize = 0;
        while i < n
            invariant
                i <= n,
                n == listings@.len(),
                n == self@.len(),
                n == self.mounts@.len(),
                tasks_view(out@) == selected(candidates(listings@, self@, i as nat), exts@),
                taken@.len() == out@.len(),
                forall|k: int| 0 <= k < taken@.len() ==> #[trigger] taken@[k]@ == out@[k].rel@,
            decreases n - i,
        {
            let files = &listings[i];
            let pack = self.mounts[i].id;
            let m = files.len();
            let mut j: usize = 0;
            while j < m
                invariant
                    i < n,
                    j <= m,
                    m == files@.len(),
                    files == listings@[i as int],
                    n == listings@.len(),
                    n == self@.len(),
                    pack.0 == self@[i as int].2,
                    tasks_view(out@) == selected(
                        candidates(listings@, self@, i as nat) + cands_of(files@, pack.0, j as nat),
                        exts@,
                    ),
                    taken@.len() == out@.len(),
                    forall|k: int| 0 <= k < taken@.len() ==> #[trigger] taken@[k]@ == out@[k].rel@,
                decreases m - j,
            {
                let f = &files[j];
                let ghost prefix = candidates(listings@, self@, i as nat) + cands_of(files@, pack.0, j as nat);
                let ghost prev = selected(prefix, exts@);
                proof {
                    assert(prefix + seq![cand_view(files@[j as int], pack.0)] =~= candidates(listings@, self@, i as nat)
                        + cands_of(files@, pack.0, (j + 1) as nat));
                    lemma_selected_push(prefix, cand_view(files@[j as int], pack.0), exts@);
                }
                match &f.rel {
                    Some(rel) => {
                        proof {
                            assert(rels_of(prev) =~= Seq::new(taken@.len(), |k: int| taken@[k]@));
                        }
                        if ext_listed(exts, &f.ext) && !text_taken(&taken, rel.as_str()) {
                            let ghost old_out = out@;
                            out.push(FileTask { path: f.path.clone(), ext: ext_clone(&f.ext), rel: rel.clone(), pack });
                            taken.push(rel.clone());
                            proof {
                                assert(tasks_view(out@) =~= tasks_view(old_out).push(
                                    (f.path@, f.ext, rel@, pack.0),
                                ));
                                assert(rels_of(prev) =~= Seq::new(old_out.len(), |k: int| old_out[k].rel@));
                            }
                        } else {
                            proof {
                                assert(rels_of(prev) =~= Seq::new(taken@.len(), |k: int| taken@[k]@));
                            }
                        }
                    },
                    None => {},
                }
                j = j + 1;
            }
            proof {
                assert(cands_of(files@, pack.0, m as nat) =~= cands_of(listings@[i as int]@, self@[i as int].2, listings@[i as int]@.len()));
                assert(candidates(listings@, self@, (i + 1) as nat) == candidates(listings@, self@, i as nat) + cands_of(
                    listings@[i as int]@,
                    self@[i as int].2,
                    listings@[i as int]@.len(),
                ));
            }
            i = i + 1;
        }
        out
    }
}

impl Default for AssetPackReader {
    fn default() -> (r: AssetPackReader)
        ensures
            r.wf(),
            r@ == Seq::<(Seq<char>, u32, u32)>::empty(),
            r.next_id() == 0,
    {
        AssetPackReader::new()
    }
}

/// A file listed in the folder of a mount.
pub struct ListedFile {
    /// The file's path.
    pub path: String,
    /// The file's extension.
    pub ext: FileExt,
    /// The file's path relative to the folder, without its extension, where it is known.
    pub rel: Option<String>,
}

/// A file chosen to be loaded.
pub struct FileTask {
    pub path: String,
    pub ext: FileExt,
    /// The file's path relative to the folder, without its extension.
    pub rel: String,
    /// The pack the file belongs to.
    pub pack: AssetPackId,
}

/// A listed file of a pack: its path, extension, relative path and pack.
pub open spec fn cand_view(f: ListedFile, pack: u32) -> (Seq<char>, FileExt, Option<Seq<char>>, u32) {
    (
        f.path@,
        f.ext,
        match f.rel {
            Some(r) => Some(r@),
            None => None,
        },
        pack,
    )
}

/// The first n files of one pack's listing.
pub open spec fn cands_of(files: Seq<ListedFile>, pack: u32, n: nat) -> Seq<(Seq<char>, FileExt, Option<Seq<char>>, u32)> {
    Seq::new(n, |k: int| cand_view(files[k], pack))
}

/// The files of the first n mounts' listings, in order.
pub open spec fn candidates(
    listings: Seq<Vec<ListedFile>>,
    mounts: Seq<(Seq<char>, u32, u32)>,
    n: nat,
) -> Seq<(Seq<char>, FileExt, Option<Seq<char>>, u32)>
    decreases n,
{
    if n == 0 {
        Seq::empty()
    } else {
        candidates(listings, mounts, (n - 1) as nat) + cands_of(
            listings[n - 1]@,
            mounts[n - 1].2,
            listings[n - 1]@.len(),
        )
    }
}

/// A chosen file: its path, extension, relative path and pack.
pub open spec fn task_view(t: FileTask) -> (Seq<char>, FileExt, Seq<char>, u32) {
    (t.path@, t.ext, t.rel@, t.pack.0)
}

pub open spec fn tasks_view(s: Seq<FileTask>) -> Seq<(Seq<char>, FileExt, Seq<char>, u32)> {
    Seq::new(s.len(), |i: int| task_view(s[i]))
}

/// The relative paths of chosen files.
pub open spec fn rels_of(s: Seq<(Seq<char>, FileExt, Seq<char>, u32)>) -> Seq<Seq<char>> {
    Seq::new(s.len(), |i: int| s[i].2)
}

/// Whether two extensions are the same.
pub open spec fn same_ext(a: FileExt, b: FileExt) -> bool {
    match (a, b) {
        (FileExt::Unsupported(x), FileExt::Unsupported(y)) => x@ == y@,
        (FileExt::Unsupported(_), _) => false,
        (_, FileExt::Unsupported(_)) => false,
        _ => a == b,
    }
}

/// Whether the extension is one of exts.
pub open spec fn ext_in(exts: Seq<FileExt>, e: FileExt) -> bool {
    exists|k: int| 0 <= k < exts.len() && same_ext(#[trigger] exts[k], e)
}

/// The files chosen from the candidates, in order: each one whose relative path is known and
/// not chosen before, and whose extension is one of exts.
pub open spec fn selected(
    cands: Seq<(Seq<char>, FileExt, Option<Seq<char>>, u32)>,
    exts: Seq<FileExt>,
) -> Seq<(Seq<char>, FileExt, Seq<char>, u32)>
    decreases cands.len(),
{
    if cands.len() == 0 {
        Seq::empty()
    } else {
        let prev = selected(cands.drop_last(), exts);
        let c = cands.last();
        match c.2 {
            Some(rel) => if ext_in(exts, c.1) && !rels_of(prev).contains(rel) {
                prev.push((c.0, c.1, rel, c.3))
            } else {
                prev
            },
            None => prev,
        }
    }
}

proof fn lemma_selected_push(
    cands: Seq<(Seq<char>, FileExt, Option<Seq<char>>, u32)>,
    c: (Seq<char>, FileExt, Option<Seq<char>>, u32),
    exts: Seq<FileExt>,
)
    ensures
        selected(cands + seq![c], exts) == ({
            let prev = selected(cands, exts);
            match c.2 {
                Some(rel) => if ext_in(exts, c.1) && !rels_of(prev).contains(rel) {
                    prev.push((c.0, c.1, rel, c.3))
                } else {
                    prev
                },
                None => prev,
            }
        }),
{
    assert((cands + seq![c]).drop_last() =~= cands);
}

/// A copy of an extension.
fn ext_clone(e: &FileExt) -> (r: FileExt)
    ensures
        r == *e,
{
    match e {
        FileExt::NoExtension => FileExt::NoExtension,
        FileExt::Unsupported(s) => FileExt::Unsupported(s.clone()),
        FileExt::Png => FileExt::Png,
        FileExt::Jpg => FileExt::Jpg,
        FileExt::Jpeg => FileExt::Jpeg,
        FileExt::Toml => FileExt::Toml,
        FileExt::Json => FileExt::Json,
        FileExt::Ron => FileExt::Ron,
    }
}

/// Whether two extensions are the same.
fn ext_eq(a: &FileExt, b: &FileExt) -> (r: bool)
    ensures
        r == same_ext(*a, *b),
{
    match (a, b) {
        (FileExt::Unsupported(x), FileExt::Unsupported(y)) => same_text(x.as_str(), y.as_str()),
        (FileExt::Unsupported(_), _) => false,
        (_, FileExt::Unsupported(_)) => false,
        (FileExt::NoExtension, FileExt::NoExtension) => true,
        (FileExt::Png, FileExt::Png) => true,
        (FileExt::Jpg, FileExt::Jpg) => true,
        (FileExt::Jpeg, FileExt::Jpeg) => true,
        (FileExt::Toml, FileExt::Toml) => true,
        (FileExt::Json, FileExt::Json) => true,
        (FileExt::Ron, FileExt::Ron) => true,
        _ => false,
    }
}

/// Whether the extension is one of exts.
fn ext_listed(exts: &[FileExt], e: &FileExt) -> (r: bool)
    ensures
        r == ext_in(exts@, *e),
{
    let n = exts.len();
    let mut k: usize = 0;
    while k < n
        invariant
            k <= n,
            n == exts@.len(),
            forall|j: int| 0 <= j < k ==> !same_ext(#[trigger] exts@[j], *e),
        decreases n - k,
    {
        if ext_eq(&exts[k], e) {
            return true;
        }
        k = k + 1;
    }
    false
}

/// Whether the text is among the taken ones.
fn text_taken(taken: &Vec<String>, s: &str) -> (r: bool)
    ensures
        r == Seq::new(taken@.len(), |k: int| taken@[k]@).contains(s@),
{
    let n = taken.len();
    let mut k: usize = 0;
    while k < n
        invariant
            k <= n,
            n == taken@.len(),
            forall|j: int| 0 <= j < k ==> #[trigger] taken@[j]@ != s@,
        decreases n - k,
    {
        if same_text(taken[k].as_str(), s) {
            proof {
                assert(Seq::new(taken@.len(), |j: int| taken@[j]@)[k as int] == s@);
            }
            return true;
        }
        k = k + 1;
    }
    false
}

} // verus!
