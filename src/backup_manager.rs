use vstd::prelude::*;
use crate::error::BackupError;
use crate::music_backup_entry::{entries_view, EntryView, MusicBackupEntry};
use crate::queue::{prefix_view, queue_from, queue_start, sort_by_artist};

verus! {

/// No two entries share an id.
pub open spec fn ids_unique(c: Seq<EntryView>) -> bool {
    forall|i: int, j: int| 0 <= i < c.len() && 0 <= j < c.len() && i != j ==> c[i].id != c[j].id
}

/// The entries whose artist is exactly `artist`, in catalog order.
pub open spec fn found(c: Seq<EntryView>, artist: Seq<char>) -> Seq<EntryView> {
    c.filter(|e: EntryView| e.artist == artist)
}

/// The catalog with the flag of each entry that has this id flipped.
pub open spec fn toggled(c: Seq<EntryView>, id: nat) -> Seq<EntryView> {
    Seq::new(
        c.len(),
        |i: int|
            if c[i].id == id {
                EntryView { downloaded: !c[i].downloaded, ..c[i] }
            } else {
                c[i]
            },
    )
}

/// The found entries are the entries of the catalog with exactly that artist, in catalog
/// order; when no entry has that artist, none is found.
pub proof fn lemma_find_exact(c: Seq<EntryView>, artist: Seq<char>)
    ensures
        forall|e: EntryView| #[trigger]
            found(c, artist).contains(e) <==> c.contains(e) && e.artist == artist,
        (forall|i: int| 0 <= i < c.len() ==> c[i].artist != artist) ==> found(c, artist).len() == 0,
{
    broadcast use vstd::seq_lib::group_filter_ensures;

    let f = found(c, artist);
    assert forall|e: EntryView| #[trigger] f.contains(e) implies c.contains(e) && e.artist == artist by {
        c.lemma_filter_contains_rev(|e: EntryView| e.artist == artist, e);
    }
    if forall|i: int| 0 <= i < c.len() ==> c[i].artist != artist {
        if f.len() > 0 {
            assert(f.contains(f[0]));
        }
    }
}

/// Toggling flips the flag of the entries with that id and changes nothing else.
pub proof fn lemma_toggle_only_target(c: Seq<EntryView>, id: nat)
    ensures
        toggled(c, id).len() == c.len(),
        forall|i: int|
            0 <= i < c.len() && c[i].id != id ==> #[trigger] toggled(c, id)[i] == c[i],
        forall|i: int|
            0 <= i < c.len() && c[i].id == id ==> #[trigger] toggled(c, id)[i] == (EntryView {
                downloaded: !c[i].downloaded,
                ..c[i]
            }),
{
}

/// Toggling the same id twice gives back the catalog.
pub proof fn lemma_toggle_twice(c: Seq<EntryView>, id: nat)
    ensures
        toggled(toggled(c, id), id) == c,
{
    assert(toggled(toggled(c, id), id) =~= c);
}

/// Toggling an id that no entry has changes nothing.
pub proof fn lemma_toggle_unknown(c: Seq<EntryView>, id: nat)
    requires
        forall|i: int| 0 <= i < c.len() ==> c[i].id != id,
    ensures
        toggled(c, id) == c,
{
    assert(toggled(c, id) =~= c);
}

/// A loaded catalog, bound to the file it was read from.
pub struct BackupManager {
    path: String,
    backup: Vec<MusicBackupEntry>,
}

impl BackupManager {
    /// The entries held, in storage order.
    pub closed spec fn catalog(&self) -> Seq<EntryView> {
        entries_view(self.backup@)
    }

    /// The file that the catalog is saved to.
    pub closed spec fn path_view(&self) -> Seq<char> {
        self.path@
    }

    /// The entry ids are unique.
    pub open spec fn wf(&self) -> bool {
        ids_unique(self.catalog())
    }

    /// Takes the entries read from `path`; fails when two of them share an id.
    pub fn new(path: String, backup: Vec<MusicBackupEntry>) -> (r: Result<BackupManager, BackupError>)
        ensures
            r is Ok <==> ids_unique(entries_view(backup@)),
            r matches Ok(m) ==> m.wf() && m.catalog() == entries_view(backup@) && m.path_view()
                == path@,
            r matches Err(e) ==> e is Parse,
    {
        let n = backup.len();
        let mut i: usize = 0;
        while i < n
            invariant
                n == backup@.len(),
                i <= n,
                forall|a: int, b: int|
                    0 <= a < i && 0 <= b < n && a != b ==> backup@[a].id != backup@[b].id,
            decreases n - i,
        {
            let mut j: usize = 0;
            while j < n
                invariant
                    n == backup@.len(),
                    i < n,
                    j <= n,
                    forall|a: int, b: int|
                        0 <= a < i && 0 <= b < n && a != b ==> backup@[a].id != backup@[b].id,
                    forall|b: int| 0 <= b < j && b != i ==> backup@[i as int].id != backup@[b].id,
                decreases n - j,
            {
                if j != i && backup[i].id == backup[j].id {
                    proof {
                        let c = entries_view(backup@);
                        assert(c[i as int].id == c[j as int].id);
                    }
                    return Err(BackupError::Parse(String::from_str("two entries share an id")));
                }
                j = j + 1;
            }
            i = i + 1;
        }
        proof {
            let c = entries_view(backup@);
            assert forall|a: int, b: int| 0 <= a < c.len() && 0 <= b < c.len() && a != b implies c[a].id
                != c[b].id by {
                assert(backup@[a].id != backup@[b].id);
            }
        }
        Ok(BackupManager { path, backup })
    }

    /// The file that the catalog is saved to.
    pub fn path(&self) -> (r: &String)
        ensures
            r@ == self.path_view(),
    {
        &self.path
    }

    /// All entries, in storage order.
    pub fn get_backup(&self) -> (r: &Vec<MusicBackupEntry>)
        ensures
            entries_view(r@) == self.catalog(),
    {
        &self.backup
    }

    /// The entries whose artist equals `artist` exactly; empty when none does.
    pub fn find(&self, artist: String) -> (r: Vec<&MusicBackupEntry>)
        ensures
            r@.map_values(|e: &MusicBackupEntry| e@) == found(self.catalog(), artist@),
    {
        let mut result: Vec<&MusicBackupEntry> = Vec::new();
        let mut i: usize = 0;
        while i < self.backup.len()
            invariant
                i <= self.backup@.len(),
                result@.map_values(|e: &MusicBackupEntry| e@) == found(
                    entries_view(self.backup@.take(i as int)),
                    artist@,
                ),
            decreases self.backup@.len() - i,
        {
            let entry = &self.backup[i];
            proof {
                assert(self.backup@.take(i + 1) == self.backup@.take(i as int).push(*entry));
                assert(entries_view(self.backup@.take(i + 1)) =~= entries_view(
                    self.backup@.take(i as int),
                ).push(entry@));
                entries_view(self.backup@.take(i as int)).lemma_filter_push(
                    entry@,
                    |e: EntryView| e.artist == artist@,
                );
            }
            if entry.artist == artist {
                result.push(entry);
                assert(result@.map_values(|e: &MusicBackupEntry| e@) =~= found(
                    entries_view(self.backup@.take(i as int)),
                    artist@,
                ).push(entry@));
            }
            i = i + 1;
        }
        assert(self.backup@.take(self.backup@.len() as int) =~= self.backup@);
        result
    }

    /// Copies of the entries ordered by artist, starting at the first whose artist begins
    /// with `from`; all of them when `from` is absent or begins no artist.
    pub fn list_queued(&self, from: Option<String>) -> (r: Vec<MusicBackupEntry>)
        ensures
            exists|k: int|
                queue_start(sort_by_artist(self.catalog()), prefix_view(from), k) && entries_view(
                    r@,
                ) == sort_by_artist(self.catalog()).skip(k),
    {
        let r = queue_from(&self.backup, &from);
        assert(self.catalog() == entries_view(self.backup@));
        r
    }

    /// Flips the flag of the entry with this id; does nothing when no entry has it.
    pub fn toggle_downloaded(&mut self, id: usize)
        requires
            old(self).wf(),
        ensures
            final(self).wf(),
            final(self).path_view() == old(self).path_view(),
            final(self).catalog() == toggled(old(self).catalog(), id as nat),
    {
        let ghost c0 = self.catalog();
        let mut i: usize = 0;
        while i < self.backup.len()
            invariant
                self.backup@ == old(self).backup@,
                self.path == old(self).path,
                c0 == entries_view(self.backup@),
                c0.len() == self.backup@.len(),
                ids_unique(c0),
                i <= self.backup@.len(),
                forall|k: int| 0 <= k < i ==> self.backup@[k].id != id,
            decreases self.backup@.len() - i,
        {
            if self.backup[i].id == id {
                let e = self.backup[i].copy();
                let flipped = MusicBackupEntry {
                    id: e.id,
                    artist: e.artist,
                    albums: e.albums,
                    downloaded: !e.downloaded,
                };
                self.backup.set(i, flipped);
                proof {
                    assert(c0[i as int].id == id);
                    assert forall|k: int| 0 <= k < c0.len() && k != i implies c0[k].id != id by {
                        assert(c0[k].id != c0[i as int].id);
                    }
                    assert(self.catalog() =~= toggled(c0, id as nat));
                }
                return;
            }
            i = i + 1;
        }
        assert(self.catalog() =~= toggled(c0, id as nat));
    }
}

} // verus!
