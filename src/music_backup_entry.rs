use vstd::prelude::*;

verus! {

/// One artist of the catalog, with the albums found under it.
#[derive(Debug, Clone)]
pub struct MusicBackupEntry {
    pub id: usize,
    pub artist: String,
    pub albums: Vec<String>,
    pub downloaded: bool,
}

/// The mathematical value of an entry.
pub struct EntryView {
    pub id: nat,
    pub artist: Seq<char>,
    pub albums: Seq<Seq<char>>,
    pub downloaded: bool,
}

/// The characters of each string of a vector, in order.
pub open spec fn names_of(v: Seq<String>) -> Seq<Seq<char>> {
    v.map_values(|s: String| s@)
}

impl View for MusicBackupEntry {
    type V = EntryView;

    open spec fn view(&self) -> EntryView {
        EntryView {
            id: self.id as nat,
            artist: self.artist@,
            albums: names_of(self.albums@),
            downloaded: self.downloaded,
        }
    }
}

/// The views of a sequence of entries.
pub open spec fn entries_view(v: Seq<MusicBackupEntry>) -> Seq<EntryView> {
    v.map_values(|e: MusicBackupEntry| e@)
}

/// A copy of a vector of strings, character for character.
pub fn copy_names(v: &Vec<String>) -> (r: Vec<String>)
    ensures
        names_of(r@) == names_of(v@),
{
    let mut r: Vec<String> = Vec::new();
    let mut i: usize = 0;
    while i < v.len()
        invariant
            i <= v.len(),
            r@.len() == i,
            forall|j: int| 0 <= j < i ==> r@[j]@ == v@[j]@,
        decreases v.len() - i,
    {
        r.push(v[i].clone());
        i = i + 1;
    }
    assert(names_of(r@) =~= names_of(v@));
    r
}

impl MusicBackupEntry {
    /// A copy of this entry with the same id, artist, albums and flag.
    pub fn copy(&self) -> (r: MusicBackupEntry)
        ensures
            r@ == self@,
    {
        MusicBackupEntry {
            id: self.id,
            artist: self.artist.clone(),
            albums: copy_names(&self.albums),
            downloaded: self.downloaded,
        }
    }
}

} // verus!
