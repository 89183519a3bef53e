use vstd::prelude::*;
pub use crate::music_backup_entry::MusicBackupEntry;
use crate::music_backup_entry::{entries_view, names_of, EntryView};

verus! {

/// A child of a directory: its name, and whether it is a directory.
pub struct DirItem {
    pub name: String,
    pub is_dir: bool,
}

impl View for DirItem {
    type V = (Seq<char>, bool);

    open spec fn view(&self) -> (Seq<char>, bool) {
        (self.name@, self.is_dir)
    }
}

/// A child of the music root, with its own children when it was read as a directory.
pub struct ArtistListing {
    pub name: String,
    pub is_dir: bool,
    pub albums: Vec<DirItem>,
}

/// The mathematical value of an artist listing.
pub struct ListingView {
    pub name: Seq<char>,
    pub is_dir: bool,
    pub albums: Seq<(Seq<char>, bool)>,
}

impl View for ArtistListing {
    type V = ListingView;

    open spec fn view(&self) -> ListingView {
        ListingView {
            name: self.name@,
            is_dir: self.is_dir,
            albums: self.albums@.map_values(|d: DirItem| d@),
        }
    }
}

/// What the crawl does with a child of a directory.
#[derive(Debug, PartialEq, Eq, Structural, Clone, Copy)]
pub enum Admission {
    /// Taken into the catalog.
    Accept,
    /// Its name is in the ignore set: left out silently.
    Ignore,
    /// It is not a directory: left out, with a notice.
    SkipNotDirectory,
}

/// The admission of a child with this name and kind under this ignore set.
pub open spec fn admission(ignore: Seq<Seq<char>>, name: Seq<char>, is_dir: bool) -> Admission {
    if ignore.contains(name) {
        Admission::Ignore
    } else if !is_dir {
        Admission::SkipNotDirectory
    } else {
        Admission::Accept
    }
}

/// A child is taken when its name is not ignored and it is a directory.
pub open spec fn accepted(ignore: Seq<Seq<char>>, name: Seq<char>, is_dir: bool) -> bool {
    !ignore.contains(name) && is_dir
}

/// The names of the accepted children, in listing order.
pub open spec fn album_names(items: Seq<(Seq<char>, bool)>, ignore: Seq<Seq<char>>) -> Seq<
    Seq<char>,
> {
    items.filter(|c: (Seq<char>, bool)| accepted(ignore, c.0, c.1)).map_values(
        |c: (Seq<char>, bool)| c.0,
    )
}

/// The accepted artists of a listing, in listing order.
pub open spec fn accepted_artists(listing: Seq<ListingView>, ignore: Seq<Seq<char>>) -> Seq<
    ListingView,
> {
    listing.filter(|a: ListingView| accepted(ignore, a.name, a.is_dir))
}

/// The entry made for an accepted artist.
pub open spec fn entry_for(a: ListingView, ignore: Seq<Seq<char>>, id: nat) -> EntryView {
    EntryView { id, artist: a.name, albums: album_names(a.albums, ignore), downloaded: false }
}

/// The entries that a crawl of `listing` makes: one per accepted artist, in order,
/// with the ids counted up from `first_id`.
pub open spec fn crawl(listing: Seq<ListingView>, ignore: Seq<Seq<char>>, first_id: nat) -> Seq<
    EntryView,
> {
    let acc = accepted_artists(listing, ignore);
    Seq::new(acc.len(), |i: int| entry_for(acc[i], ignore, first_id + i as nat))
}

proof fn lemma_album_names_push(
    items: Seq<(Seq<char>, bool)>,
    x: (Seq<char>, bool),
    ignore: Seq<Seq<char>>,
)
    ensures
        album_names(items.push(x), ignore) == if accepted(ignore, x.0, x.1) {
            album_names(items, ignore).push(x.0)
        } else {
            album_names(items, ignore)
        },
{
    let p = |c: (Seq<char>, bool)| accepted(ignore, c.0, c.1);
    items.lemma_filter_push(x, p);
    if accepted(ignore, x.0, x.1) {
        assert(album_names(items.push(x), ignore) =~= album_names(items, ignore).push(x.0));
    }
}

proof fn lemma_crawl_push(
    listing: Seq<ListingView>,
    x: ListingView,
    ignore: Seq<Seq<char>>,
    first_id: nat,
)
    ensures
        crawl(listing.push(x), ignore, first_id) == if accepted(ignore, x.name, x.is_dir) {
            crawl(listing, ignore, first_id).push(
                entry_for(x, ignore, first_id + crawl(listing, ignore, first_id).len()),
            )
        } else {
            crawl(listing, ignore, first_id)
        },
{
    let p = |a: ListingView| accepted(ignore, a.name, a.is_dir);
    listing.lemma_filter_push(x, p);
    if accepted(ignore, x.name, x.is_dir) {
        assert(crawl(listing.push(x), ignore, first_id) =~= crawl(listing, ignore, first_id).push(
            entry_for(x, ignore, first_id + crawl(listing, ignore, first_id).len()),
        ));
    } else {
        assert(crawl(listing.push(x), ignore, first_id) =~= crawl(listing, ignore, first_id));
    }
}

/// The artist and albums of each entry, ids left aside.
pub open spec fn shape(c: Seq<EntryView>) -> Seq<(Seq<char>, Seq<Seq<char>>)> {
    c.map_values(|e: EntryView| (e.artist, e.albums))
}

/// The names other than `n`, in order.
pub open spec fn drop_name(s: Seq<Seq<char>>, n: Seq<char>) -> Seq<Seq<char>> {
    s.filter(|a: Seq<char>| a != n)
}

/// The entries of a shape whose artist is not `n`.
pub open spec fn other_artists(s: Seq<(Seq<char>, Seq<Seq<char>>)>, n: Seq<char>) -> Seq<
    (Seq<char>, Seq<Seq<char>>),
> {
    s.filter(|p: (Seq<char>, Seq<Seq<char>>)| p.0 != n)
}

/// Each entry of a shape without its albums named `n`.
pub open spec fn strip_albums(s: Seq<(Seq<char>, Seq<Seq<char>>)>, n: Seq<char>) -> Seq<
    (Seq<char>, Seq<Seq<char>>),
> {
    s.map_values(|p: (Seq<char>, Seq<Seq<char>>)| (p.0, drop_name(p.1, n)))
}

/// The entries of a shape whose artist is not `n`, each without its albums named `n`.
pub open spec fn without_name(s: Seq<(Seq<char>, Seq<Seq<char>>)>, n: Seq<char>) -> Seq<
    (Seq<char>, Seq<Seq<char>>),
> {
    strip_albums(other_artists(s, n), n)
}

proof fn lemma_drop_name_push(s: Seq<Seq<char>>, x: Seq<char>, n: Seq<char>)
    ensures
        drop_name(s.push(x), n) == if x != n {
            drop_name(s, n).push(x)
        } else {
            drop_name(s, n)
        },
{
    reveal(Seq::filter);
    assert(s.push(x).drop_last() =~= s);
}

proof fn lemma_without_name_push(
    s: Seq<(Seq<char>, Seq<Seq<char>>)>,
    x: (Seq<char>, Seq<Seq<char>>),
    n: Seq<char>,
)
    ensures
        without_name(s.push(x), n) == if x.0 != n {
            without_name(s, n).push((x.0, drop_name(x.1, n)))
        } else {
            without_name(s, n)
        },
{
    assert(other_artists(s.push(x), n) == if x.0 != n {
        other_artists(s, n).push(x)
    } else {
        other_artists(s, n)
    }) by {
        reveal(Seq::filter);
        assert(s.push(x).drop_last() =~= s);
    }
    if x.0 != n {
        let o = other_artists(s, n);
        assert(strip_albums(o.push(x), n) =~= strip_albums(o, n).push((x.0, drop_name(x.1, n))));
    }
}

proof fn lemma_accepted_push(ignore: Seq<Seq<char>>, n: Seq<char>, name: Seq<char>, is_dir: bool)
    ensures
        accepted(ignore.push(n), name, is_dir) == (accepted(ignore, name, is_dir) && name != n),
{
    if ignore.contains(name) {
        let k = choose|k: int| 0 <= k < ignore.len() && ignore[k] == name;
        assert(ignore.push(n)[k] == name);
    }
    if name == n {
        assert(ignore.push(n)[ignore.len() as int] == n);
    }
    if ignore.push(n).contains(name) && name != n {
        let k = choose|k: int| 0 <= k < ignore.len() + 1 && ignore.push(n)[k] == name;
        assert(ignore[k] == name);
    }
}

/// Ignoring one more name drops exactly the albums of that name.
pub proof fn lemma_ignore_album(items: Seq<(Seq<char>, bool)>, ignore: Seq<Seq<char>>, n: Seq<char>)
    ensures
        album_names(items, ignore.push(n)) == drop_name(album_names(items, ignore), n),
    decreases items.len(),
{
    if items.len() == 0 {
        reveal(Seq::filter);
        assert(album_names(items, ignore.push(n)) =~= Seq::<Seq<char>>::empty());
        assert(album_names(items, ignore) =~= Seq::<Seq<char>>::empty());
        assert(drop_name(Seq::<Seq<char>>::empty(), n) =~= Seq::<Seq<char>>::empty());
    } else {
        let d = items.drop_last();
        let x = items.last();
        assert(items == d.push(x));
        lemma_ignore_album(d, ignore, n);
        lemma_album_names_push(d, x, ignore);
        lemma_album_names_push(d, x, ignore.push(n));
        lemma_accepted_push(ignore, n, x.0, x.1);
        lemma_drop_name_push(album_names(d, ignore), x.0, n);
        if accepted(ignore, x.0, x.1) {
            assert(album_names(items, ignore) == album_names(d, ignore).push(x.0));
            if x.0 != n {
                assert(album_names(items, ignore.push(n)) == album_names(d, ignore.push(n)).push(x.0));
                assert(drop_name(album_names(items, ignore), n) == drop_name(album_names(d, ignore), n).push(x.0));
            } else {
                assert(album_names(items, ignore.push(n)) == album_names(d, ignore.push(n)));
                assert(drop_name(album_names(items, ignore), n) == drop_name(album_names(d, ignore), n));
            }
        } else {
            assert(album_names(items, ignore) == album_names(d, ignore));
            assert(album_names(items, ignore.push(n)) == album_names(d, ignore.push(n)));
        }
    }
}

/// Ignoring one more name removes exactly the artist of that name, and the albums of that
/// name from every artist, and changes nothing else but the ids.
pub proof fn lemma_ignore_name(
    listing: Seq<ListingView>,
    ignore: Seq<Seq<char>>,
    n: Seq<char>,
    first_id: nat,
    other_first_id: nat,
)
    ensures
        shape(crawl(listing, ignore.push(n), first_id)) == without_name(
            shape(crawl(listing, ignore, other_first_id)),
            n,
        ),
    decreases listing.len(),
{
    let ig = ignore.push(n);
    if listing.len() == 0 {
        reveal(Seq::filter);
        assert(accepted_artists(listing, ig) =~= Seq::<ListingView>::empty());
        assert(accepted_artists(listing, ignore) =~= Seq::<ListingView>::empty());
        assert(shape(crawl(listing, ig, first_id)) =~= without_name(
            shape(crawl(listing, ignore, other_first_id)),
            n,
        ));
    } else {
        let d = listing.drop_last();
        let x = listing.last();
        assert(listing == d.push(x));
        lemma_ignore_name(d, ignore, n, first_id, other_first_id);
        lemma_crawl_push(d, x, ignore, other_first_id);
        lemma_crawl_push(d, x, ig, first_id);
        lemma_accepted_push(ignore, n, x.name, x.is_dir);
        let a = crawl(d, ig, first_id);
        let b = crawl(d, ignore, other_first_id);
        let sb = shape(b);
        if accepted(ignore, x.name, x.is_dir) {
            let eb = entry_for(x, ignore, other_first_id + b.len());
            assert(shape(b.push(eb)) =~= sb.push((x.name, eb.albums)));
            lemma_without_name_push(sb, (x.name, eb.albums), n);
            if x.name != n {
                let ea = entry_for(x, ig, first_id + a.len());
                lemma_ignore_album(x.albums, ignore, n);
                assert(shape(a.push(ea)) =~= shape(a).push((x.name, ea.albums)));
            }
        }
    }
}

/// Dropping a name that a sequence does not hold changes nothing.
pub proof fn lemma_drop_absent(s: Seq<Seq<char>>, n: Seq<char>)
    requires
        !s.contains(n),
    ensures
        drop_name(s, n) == s,
    decreases s.len(),
{
    if s.len() == 0 {
        reveal(Seq::filter);
        assert(drop_name(s, n) =~= s);
    } else {
        let d = s.drop_last();
        assert(s == d.push(s.last()));
        assert(!d.contains(n)) by {
            if d.contains(n) {
                let k = choose|k: int| 0 <= k < d.len() && d[k] == n;
                assert(s[k] == n);
            }
        }
        assert(s[s.len() - 1] != n);
        lemma_drop_absent(d, n);
        lemma_drop_name_push(d, s.last(), n);
    }
}

proof fn lemma_other_artists_all(s: Seq<(Seq<char>, Seq<Seq<char>>)>, n: Seq<char>)
    requires
        forall|i: int| 0 <= i < s.len() ==> (#[trigger] s[i]).0 != n,
    ensures
        other_artists(s, n) == s,
    decreases s.len(),
{
    reveal(Seq::filter);
    if s.len() == 0 {
        assert(other_artists(s, n) =~= s);
    } else {
        let d = s.drop_last();
        assert(s.drop_last() == d);
        assert forall|i: int| 0 <= i < d.len() implies (#[trigger] d[i]).0 != n by {
            assert(d[i] == s[i]);
        }
        lemma_other_artists_all(d, n);
        assert(s == d.push(s.last()));
    }
}

/// Ignoring one more name, where no album of the crawl has that name, removes exactly the
/// artist of that name and keeps every other entry, its albums and their order.
pub proof fn lemma_ignore_artist_only(
    listing: Seq<ListingView>,
    ignore: Seq<Seq<char>>,
    n: Seq<char>,
    first_id: nat,
    other_first_id: nat,
)
    requires
        forall|i: int|
            0 <= i < crawl(listing, ignore, other_first_id).len() ==> !(#[trigger] crawl(
                listing,
                ignore,
                other_first_id,
            )[i]).albums.contains(n),
    ensures
        shape(crawl(listing, ignore.push(n), first_id)) == other_artists(
            shape(crawl(listing, ignore, other_first_id)),
            n,
        ),
{
    let c = crawl(listing, ignore, other_first_id);
    let sh = shape(c);
    let o = other_artists(sh, n);
    lemma_ignore_name(listing, ignore, n, first_id, other_first_id);
    assert forall|i: int| 0 <= i < o.len() implies strip_albums(o, n)[i] == o[i] by {
        broadcast use Seq::lemma_filter_contains_rev;

        assert(o.contains(o[i]));
        let j = choose|j: int| 0 <= j < sh.len() && sh[j] == o[i];
        assert(sh[j].1 == c[j].albums);
        lemma_drop_absent(o[i].1, n);
    }
    assert(strip_albums(o, n) =~= o);
}

/// Ignoring one more name that is no artist of the crawl keeps every entry's artist, in
/// order, and removes from each entry exactly its albums of that name.
pub proof fn lemma_ignore_album_only(
    listing: Seq<ListingView>,
    ignore: Seq<Seq<char>>,
    n: Seq<char>,
    first_id: nat,
    other_first_id: nat,
)
    requires
        forall|i: int|
            0 <= i < crawl(listing, ignore, other_first_id).len() ==> (#[trigger] crawl(
                listing,
                ignore,
                other_first_id,
            )[i]).artist != n,
    ensures
        crawl(listing, ignore.push(n), first_id).len() == crawl(listing, ignore, other_first_id).len(),
        forall|i: int|
            0 <= i < crawl(listing, ignore, other_first_id).len() ==> (#[trigger] crawl(
                listing,
                ignore.push(n),
                first_id,
            )[i]).artist == crawl(listing, ignore, other_first_id)[i].artist && crawl(
                listing,
                ignore.push(n),
                first_id,
            )[i].albums == drop_name(crawl(listing, ignore, other_first_id)[i].albums, n),
{
    let a = crawl(listing, ignore.push(n), first_id);
    let c = crawl(listing, ignore, other_first_id);
    let sh = shape(c);
    lemma_ignore_name(listing, ignore, n, first_id, other_first_id);
    assert forall|i: int| 0 <= i < sh.len() implies (#[trigger] sh[i]).0 != n by {
        assert(sh[i].0 == c[i].artist);
    }
    lemma_other_artists_all(sh, n);
    assert(shape(a).len() == a.len());
    assert forall|i: int| 0 <= i < c.len() implies (#[trigger] a[i]).artist == c[i].artist
        && a[i].albums == drop_name(c[i].albums, n) by {
        assert(shape(a)[i] == strip_albums(sh, n)[i]);
    }
}

/// Builds a catalog from a music directory tree.
pub struct MusicBackuper {
    backup: Vec<MusicBackupEntry>,
    path: String,
    save_path: String,
    ignore: Vec<String>,
}

impl MusicBackuper {
    /// The entries made so far.
    pub closed spec fn entries(&self) -> Seq<EntryView> {
        entries_view(self.backup@)
    }

    /// The names left out at both levels of the tree.
    pub closed spec fn ignored(&self) -> Seq<Seq<char>> {
        names_of(self.ignore@)
    }

    /// The music root.
    pub closed spec fn path_view(&self) -> Seq<char> {
        self.path@
    }

    /// Where the catalog is to be saved.
    pub closed spec fn save_path_view(&self) -> Seq<char> {
        self.save_path@
    }

    /// A crawler of the tree at `path`, to save at `save_path`, leaving out `ignore`.
    pub fn new(path: String, save_path: String, ignore: Vec<String>) -> (r: MusicBackuper)
        ensures
            r.entries() == Seq::<EntryView>::empty(),
            r.ignored() == names_of(ignore@),
            r.path_view() == path@,
            r.save_path_view() == save_path@,
    {
        let r = MusicBackuper { backup: Vec::with_capacity(300), path, ignore, save_path };
        assert(r.entries() =~= Seq::<EntryView>::empty());
        r
    }

    /// The music root.
    pub fn path(&self) -> (r: &String)
        ensures
            r@ == self.path_view(),
    {
        &self.path
    }

    /// Where the catalog is to be saved.
    pub fn save_path(&self) -> (r: &String)
        ensures
            r@ == self.save_path_view(),
    {
        &self.save_path
    }

    /// The entries made so far, in crawl order.
    pub fn get_backup(&self) -> (r: &Vec<MusicBackupEntry>)
        ensures
            entries_view(r@) == self.entries(),
    {
        &self.backup
    }

    /// What the crawl does with a child named `name`: ignored names first, then whatever is not a directory.
    pub fn ignore_if_needed(&self, name: &String, is_dir: bool) -> (r: Admission)
        ensures
            r == admission(self.ignored(), name@, is_dir),
    {
        let mut i: usize = 0;
        while i < self.ignore.len()
            invariant
                i <= self.ignore@.len(),
                forall|k: int| 0 <= k < i ==> self.ignore@[k]@ != name@,
            decreases self.ignore@.len() - i,
        {
            if self.ignore[i] == *name {
                assert(self.ignored()[i as int] == name@);
                return Admission::Ignore;
            }
            i = i + 1;
        }
        assert(!self.ignored().contains(name@));
        if !is_dir {
            Admission::SkipNotDirectory
        } else {
            Admission::Accept
        }
    }

    /// Adds one entry per accepted artist of `listing`, each with its accepted albums,
    /// not downloaded, with ids counted up from the number of entries held.
    pub fn backup(&mut self, listing: &Vec<ArtistListing>)
        ensures
            final(self).entries() == old(self).entries() + crawl(
                listing@.map_values(|a: ArtistListing| a@),
                old(self).ignored(),
                old(self).entries().len(),
            ),
            final(self).ignored() == old(self).ignored(),
            final(self).path_view() == old(self).path_view(),
            final(self).save_path_view() == old(self).save_path_view(),
    {
        let ghost lv = listing@.map_values(|a: ArtistListing| a@);
        let ghost ig = self.ignored();
        let ghost base = self.entries().len();
        let mut i: usize = 0;
        while i < listing.len()
            invariant
                i <= listing@.len(),
                lv == listing@.map_values(|a: ArtistListing| a@),
                ig == self.ignored(),
                self.ignore == old(self).ignore,
                self.path == old(self).path,
                self.save_path == old(self).save_path,
                base == old(self).entries().len(),
                self.entries() == old(self).entries() + crawl(lv.take(i as int), ig, base),
            decreases listing@.len() - i,
        {
            let artist = &listing[i];
            proof {
                assert(lv.take(i + 1) =~= lv.take(i as int).push(artist@));
                lemma_crawl_push(lv.take(i as int), artist@, ig, base);
            }
            if self.ignore_if_needed(&artist.name, artist.is_dir) == Admission::Accept {
                let albums = self.accepted_albums(&artist.albums);
                let ghost before = self.entries();
                let entry = MusicBackupEntry {
                    id: self.backup.len(),
                    artist: artist.name.clone(),
                    albums,
                    downloaded: false,
                };
                self.backup.push(entry);
                proof {
                    assert(self.entries() =~= before.push(entry@));
                    assert(entry@ == entry_for(artist@, ig, base + crawl(lv.take(i as int), ig, base).len()));
                    assert(self.entries() =~= old(self).entries() + crawl(lv.take(i + 1), ig, base));
                }
            }
            i = i + 1;
        }
        assert(lv.take(listing@.len() as int) =~= lv);
    }

    /// The names of the accepted children of an artist directory, in order.
    fn accepted_albums(&self, items: &Vec<DirItem>) -> (r: Vec<String>)
        ensures
            names_of(r@) == album_names(items@.map_values(|d: DirItem| d@), self.ignored()),
    {
        let ghost iv = items@.map_values(|d: DirItem| d@);
        let mut r: Vec<String> = Vec::new();
        let mut j: usize = 0;
        while j < items.len()
            invariant
                j <= items@.len(),
                iv == items@.map_values(|d: DirItem| d@),
                names_of(r@) == album_names(iv.take(j as int), self.ignored()),
            decreases items@.len() - j,
        {
            let item = &items[j];
            proof {
                assert(iv.take(j + 1) =~= iv.take(j as int).push(item@));
                lemma_album_names_push(iv.take(j as int), item@, self.ignored());
            }
            if self.ignore_if_needed(&item.name, item.is_dir) == Admission::Accept {
                let ghost before = r@;
                r.push(item.name.clone());
                assert(names_of(r@) =~= names_of(before).push(item.name@));
            }
            j = j + 1;
        }
        assert(iv.take(items@.len() as int) =~= iv);
        r
    }
}

} // verus!
