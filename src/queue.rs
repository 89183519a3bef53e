use vstd::prelude::*;
use crate::music_backup_entry::{entries_view, EntryView, MusicBackupEntry};
use crate::text::{
    has_prefix, lemma_text_lt_asymmetric, lemma_text_lt_split, starts_with_text, text_less,
    text_lt,
};

verus! {

/// `s` sorted by artist, with `x` placed after every entry whose artist is not above its own.
pub open spec fn insert_by_artist(s: Seq<EntryView>, x: EntryView) -> Seq<EntryView>
    decreases s.len(),
{
    if s.len() == 0 {
        seq![x]
    } else if text_lt(x.artist, s.last().artist) {
        insert_by_artist(s.drop_last(), x).push(s.last())
    } else {
        s.push(x)
    }
}

/// The entries ordered by artist; entries with the same artist keep their order.
pub open spec fn sort_by_artist(s: Seq<EntryView>) -> Seq<EntryView>
    decreases s.len(),
{
    if s.len() == 0 {
        s
    } else {
        insert_by_artist(sort_by_artist(s.drop_last()), s.last())
    }
}

/// No entry has an artist below that of an entry before it.
pub open spec fn sorted_by_artist(s: Seq<EntryView>) -> bool {
    forall|i: int, j: int| 0 <= i < j < s.len() ==> !text_lt(s[j].artist, s[i].artist)
}

/// `k` is where a review of `s` starts for the prefix `from`: the first entry whose artist
/// begins with it, or the first entry when there is no prefix or no such entry.
pub open spec fn queue_start(s: Seq<EntryView>, from: Option<Seq<char>>, k: int) -> bool {
    match from {
        None => k == 0,
        Some(p) => if exists|i: int| 0 <= i < s.len() && has_prefix(s[i].artist, p) {
            0 <= k < s.len() && has_prefix(s[k].artist, p) && forall|i: int|
                0 <= i < k ==> !has_prefix(#[trigger] s[i].artist, p)
        } else {
            k == 0
        },
    }
}

proof fn lemma_insert_at(s: Seq<EntryView>, x: EntryView, p: int)
    requires
        0 <= p <= s.len(),
        p == 0 || !text_lt(x.artist, s[p - 1].artist),
        forall|k: int| p <= k < s.len() ==> text_lt(x.artist, #[trigger] s[k].artist),
    ensures
        insert_by_artist(s, x) == s.take(p).push(x) + s.skip(p),
    decreases s.len(),
{
    if s.len() == 0 {
        assert(s.take(p).push(x) + s.skip(p) =~= seq![x]);
    } else if p == s.len() {
        assert(s.take(p).push(x) + s.skip(p) =~= s.push(x));
    } else {
        let d = s.drop_last();
        lemma_insert_at(d, x, p);
        assert(s.take(p).push(x) + s.skip(p) =~= (d.take(p).push(x) + d.skip(p)).push(s.last()));
    }
}

proof fn lemma_insert_sorted(s: Seq<EntryView>, x: EntryView)
    requires
        sorted_by_artist(s),
    ensures
        sorted_by_artist(insert_by_artist(s, x)),
        insert_by_artist(s, x).to_multiset() == s.to_multiset().insert(x),
        insert_by_artist(s, x).len() == s.len() + 1,
        forall|i: int|
            0 <= i < insert_by_artist(s, x).len() ==> #[trigger] insert_by_artist(s, x)[i] == x
                || s.contains(insert_by_artist(s, x)[i]),
    decreases s.len(),
{
    broadcast use vstd::seq_lib::group_to_multiset_ensures;

    let r = insert_by_artist(s, x);
    if s.len() == 0 {
        assert(r =~= seq![x]);
        assert(seq![x] == Seq::<EntryView>::empty().push(x));
    } else if text_lt(x.artist, s.last().artist) {
        let d = s.drop_last();
        let l = s.last();
        assert(s == d.push(l));
        lemma_insert_sorted(d, x);
        let t = insert_by_artist(d, x);
        assert forall|i: int, j: int| 0 <= i < j < r.len() implies !text_lt(
            r[j].artist,
            r[i].artist,
        ) by {
            if j == r.len() - 1 {
                assert(r[j] == l);
                assert(t[i] == x || d.contains(t[i]));
                if t[i] == x {
                    lemma_text_lt_asymmetric(x.artist, l.artist);
                } else {
                    let k = choose|k: int| 0 <= k < d.len() && d[k] == t[i];
                    assert(s[k] == d[k]);
                }
            } else {
                assert(r[i] == t[i] && r[j] == t[j]);
            }
        }
        assert forall|i: int| 0 <= i < r.len() implies #[trigger] r[i] == x || s.contains(r[i]) by {
            if i == r.len() - 1 {
                assert(s[s.len() - 1] == r[i]);
            } else {
                assert(r[i] == t[i]);
                if t[i] != x {
                    let k = choose|k: int| 0 <= k < d.len() && d[k] == t[i];
                    assert(s[k] == d[k]);
                }
            }
        }
        assert(r.to_multiset() == t.to_multiset().insert(l));
        assert(s.to_multiset() == d.to_multiset().insert(l));
        assert(r.to_multiset() =~= s.to_multiset().insert(x));
    } else {
        assert(r == s.push(x));
        assert forall|i: int, j: int| 0 <= i < j < r.len() implies !text_lt(
            r[j].artist,
            r[i].artist,
        ) by {
            if j == r.len() - 1 {
                if i < s.len() - 1 {
                    lemma_text_lt_split(x.artist, s.last().artist, s[i].artist);
                }
            } else {
                assert(r[i] == s[i] && r[j] == s[j]);
            }
        }
        assert forall|i: int| 0 <= i < r.len() implies #[trigger] r[i] == x || s.contains(r[i]) by {
            if i < s.len() {
                assert(r[i] == s[i]);
            }
        }
    }
}

/// The artist order is sorted, and holds the same entries as the catalog, as often.
pub proof fn lemma_sort_by_artist(s: Seq<EntryView>)
    ensures
        sorted_by_artist(sort_by_artist(s)),
        sort_by_artist(s).to_multiset() == s.to_multiset(),
        sort_by_artist(s).len() == s.len(),
    decreases s.len(),
{
    broadcast use vstd::seq_lib::group_to_multiset_ensures;

    if s.len() > 0 {
        lemma_sort_by_artist(s.drop_last());
        lemma_insert_sorted(sort_by_artist(s.drop_last()), s.last());
        assert(s == s.drop_last().push(s.last()));
    }
}

/// A review queue is sorted by artist. Without a prefix, or with one that begins no artist,
/// it holds every entry; otherwise it starts at the first entry whose artist begins with it.
pub proof fn lemma_queue_order(c: Seq<EntryView>, from: Option<Seq<char>>, k: int)
    requires
        queue_start(sort_by_artist(c), from, k),
    ensures
        sorted_by_artist(sort_by_artist(c).skip(k)),
        from is None ==> sort_by_artist(c).skip(k) == sort_by_artist(c),
        from is Some && (forall|i: int|
            0 <= i < c.len() ==> !has_prefix(#[trigger] c[i].artist, from->0)) ==> sort_by_artist(
            c,
        ).skip(k) == sort_by_artist(c),
        from is Some && k > 0 ==> has_prefix(sort_by_artist(c)[k].artist, from->0),
        sort_by_artist(c).to_multiset() == c.to_multiset(),
{
    broadcast use vstd::seq_lib::group_to_multiset_ensures;

    lemma_sort_by_artist(c);
    let s = sort_by_artist(c);
    assert(s.skip(0) =~= s);
    if let Some(p) = from {
        if forall|i: int| 0 <= i < c.len() ==> !has_prefix(#[trigger] c[i].artist, p) {
            if exists|i: int| 0 <= i < s.len() && has_prefix(s[i].artist, p) {
                let i = choose|i: int| 0 <= i < s.len() && has_prefix(s[i].artist, p);
                assert(s.to_multiset().count(s[i]) > 0);
                assert(c.contains(s[i]));
            }
        }
    }
}

/// Copies of the entries, ordered by artist; entries with the same artist keep their order.
pub fn sorted_entries(v: &Vec<MusicBackupEntry>) -> (r: Vec<MusicBackupEntry>)
    ensures
        entries_view(r@) == sort_by_artist(entries_view(v@)),
{
    let ghost ev = entries_view(v@);
    let mut r: Vec<MusicBackupEntry> = Vec::new();
    let mut i: usize = 0;
    assert(ev.take(0) =~= Seq::<EntryView>::empty());
    assert(entries_view(r@) =~= Seq::<EntryView>::empty());
    while i < v.len()
        invariant
            i <= v@.len(),
            ev == entries_view(v@),
            ev.len() == v@.len(),
            entries_view(r@) == sort_by_artist(ev.take(i as int)),
            r@.len() == entries_view(r@).len(),
        decreases v@.len() - i,
    {
        let x = v[i].copy();
        let ghost rv = entries_view(r@);
        let mut p: usize = r.len();
        while p > 0 && text_less(x.artist.as_str(), r[p - 1].artist.as_str())
            invariant
                p <= r@.len(),
                rv == entries_view(r@),
                r@.len() == rv.len(),
                forall|k: int| p <= k < rv.len() ==> text_lt(x@.artist, #[trigger] rv[k].artist),
            decreases p,
        {
            p = p - 1;
        }
        proof {
            let s = ev.take(i as int);
            assert(ev.take(i + 1) =~= s.push(x@));
            assert(ev.take(i + 1).drop_last() =~= s);
            lemma_insert_at(rv, x@, p as int);
        }
        r.insert(p, x);
        assert(entries_view(r@) =~= rv.take(p as int).push(x@) + rv.skip(p as int));
        i = i + 1;
    }
    assert(ev.take(v@.len() as int) =~= ev);
    r
}

/// The characters of an optional prefix.
pub open spec fn prefix_view(from: Option<String>) -> Option<Seq<char>> {
    match from {
        Some(p) => Some(p@),
        None => None,
    }
}

/// The review order: entries by artist, from the first whose artist begins with `from`
/// when there is one.
pub fn queue_from(v: &Vec<MusicBackupEntry>, from: &Option<String>) -> (r: Vec<MusicBackupEntry>)
    ensures
        exists|k: int|
            queue_start(sort_by_artist(entries_view(v@)), prefix_view(*from), k) && entries_view(
                r@,
            ) == sort_by_artist(entries_view(v@)).skip(k),
{
    let mut sorted = sorted_entries(v);
    let ghost s = entries_view(sorted@);
    assert(s.skip(0) =~= s);
    match from {
        None => {
            assert(queue_start(s, None, 0));
            sorted
        },
        Some(p) => {
            assert(prefix_view(*from) == Some(p@));
            let mut i: usize = 0;
            while i < sorted.len()
                invariant
                    i <= sorted@.len(),
                    s == entries_view(sorted@),
                    s.len() == sorted@.len(),
                    prefix_view(*from) == Some(p@),
                    s == sort_by_artist(entries_view(v@)),
                    forall|k: int| 0 <= k < i ==> !has_prefix(#[trigger] s[k].artist, p@),
                decreases sorted@.len() - i,
            {
                if starts_with_text(sorted[i].artist.as_str(), p.as_str()) {
                    assert(has_prefix(s[i as int].artist, p@));
                    let rest = sorted.split_off(i);
                    assert(queue_start(s, Some(p@), i as int));
                    assert(entries_view(rest@) =~= s.skip(i as int));
                    assert(queue_start(s, prefix_view(*from), i as int) && entries_view(rest@)
                        == s.skip(i as int));
                    return rest;
                }
                i = i + 1;
            }
            assert(queue_start(s, Some(p@), 0));
            sorted
        },
    }
}

} // verus!
