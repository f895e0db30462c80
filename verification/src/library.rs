//! The library list: which songs a filter and a search show, and the
//! order songs are kept in (by artist, then title).
use vstd::prelude::*;
use crate::model::{Instrument, InstrumentFilter, Song, filter_admits};
use crate::text::{chars_of, to_lowercase, contains_chars, lowercase, contains_seq, occurs_at};

verus! {

/// `a` sorts strictly before `b`: lexicographically by character (Unicode
/// scalar value), a proper prefix first. This is the order of `String`'s
/// `Ord`, which compares UTF-8 bytes, an encoding that keeps scalar order.
pub open spec fn text_lt(a: Seq<char>, b: Seq<char>) -> bool
    decreases a.len(),
{
    if a.len() == 0 {
        b.len() > 0
    } else if b.len() == 0 {
        false
    } else if a[0] < b[0] {
        true
    } else if a[0] > b[0] {
        false
    } else {
        text_lt(a.drop_first(), b.drop_first())
    }
}

/// `text_lt` is a strict total order.
pub proof fn lemma_text_lt_order(a: Seq<char>, b: Seq<char>, c: Seq<char>)
    ensures
        !text_lt(a, a),
        text_lt(a, b) ==> !text_lt(b, a),
        text_lt(a, b) && text_lt(b, c) ==> text_lt(a, c),
        a != b ==> text_lt(a, b) || text_lt(b, a),
    decreases a.len(),
{
    if a.len() > 0 {
        let bb = if b.len() > 0 { b.drop_first() } else { a.drop_first() };
        let cc = if c.len() > 0 { c.drop_first() } else { bb };
        lemma_text_lt_order(a.drop_first(), bb, cc);
        if b.len() > 0 && a != b && a[0] == b[0] {
            if a.drop_first() == b.drop_first() {
                assert(a =~= seq![a[0]] + a.drop_first());
                assert(b =~= seq![b[0]] + b.drop_first());
            }
        }
    } else {
        if b.len() == 0 {
            assert(a =~= b);
        }
    }
}

/// Whether `a` sorts strictly before `b` (see `text_lt`).
pub fn text_less(a: &str, b: &str) -> (r: bool)
    ensures
        r == text_lt(a@, b@),
{
    let va = chars_of(a);
    let vb = chars_of(b);
    let mut i: usize = 0;
    assert(va@.skip(0) =~= va@);
    assert(vb@.skip(0) =~= vb@);
    while i < va.len() && i < vb.len()
        invariant
            i <= va.len(),
            i <= vb.len(),
            va@ == a@,
            vb@ == b@,
            text_lt(va@, vb@) == text_lt(va@.skip(i as int), vb@.skip(i as int)),
        decreases va.len() - i,
    {
        let x = va[i];
        let y = vb[i];
        let ghost sa = va@.skip(i as int);
        let ghost sb = vb@.skip(i as int);
        assert(sa[0] == va@[i as int] && sb[0] == vb@[i as int]);
        assert(sa.len() > 0 && sb.len() > 0);
        if x < y {
            assert(text_lt(sa, sb));
            return true;
        }
        if x > y {
            assert(!text_lt(sa, sb));
            return false;
        }
        assert(sa.drop_first() =~= va@.skip(i + 1));
        assert(sb.drop_first() =~= vb@.skip(i + 1));
        i += 1;
    }
    i == va.len() && i < vb.len()
}

/// The order songs are kept in: by artist, then by title.
pub open spec fn song_before(a: Song, b: Song) -> bool {
    text_lt(a.artist@, b.artist@) || (a.artist@ == b.artist@ && text_lt(a.title@, b.title@))
}

/// Two songs have the same artist and title.
pub open spec fn same_place(a: Song, b: Song) -> bool {
    a.artist@ == b.artist@ && a.title@ == b.title@
}

proof fn lemma_song_before_order(a: Song, b: Song, c: Song)
    ensures
        !song_before(a, a),
        song_before(a, b) ==> !song_before(b, a),
        song_before(a, b) && song_before(b, c) ==> song_before(a, c),
        !same_place(a, b) ==> song_before(a, b) || song_before(b, a),
        same_place(a, b) ==> !song_before(a, b),
        same_place(a, b) ==> (song_before(a, c) == song_before(b, c) && song_before(c, a)
            == song_before(c, b)),
{
    lemma_text_lt_order(a.artist@, b.artist@, c.artist@);
    lemma_text_lt_order(a.title@, b.title@, c.title@);
    lemma_text_lt_order(b.artist@, a.artist@, c.artist@);
    lemma_text_lt_order(b.title@, a.title@, c.title@);
    lemma_text_lt_order(c.artist@, a.artist@, b.artist@);
    lemma_text_lt_order(c.title@, a.title@, b.title@);
    lemma_text_lt_order(a.artist@, c.artist@, b.artist@);
    lemma_text_lt_order(a.title@, c.title@, b.title@);
}

/// Whether song `a` sorts strictly before song `b`.
pub fn song_is_before(a: &Song, b: &Song) -> (r: bool)
    ensures
        r == song_before(*a, *b),
{
    if text_less(a.artist.as_str(), b.artist.as_str()) {
        true
    } else if text_less(b.artist.as_str(), a.artist.as_str()) {
        false
    } else {
        proof {
            lemma_text_lt_order(a.artist@, b.artist@, a.artist@);
        }
        text_less(a.title.as_str(), b.title.as_str())
    }
}

/// Position `j` appears in `perm`.
pub open spec fn listed(perm: Seq<int>, j: int) -> bool {
    exists|k: int| 0 <= k < perm.len() && perm[k] == j
}

/// `out` is `orig` sorted stably by artist and title: `perm` says where
/// each song of `out` stood in `orig`, each once; no song of `out` sorts
/// before one listed ahead of it; and songs at the same place keep their
/// order.
pub open spec fn stably_sorted(orig: Seq<Song>, out: Seq<Song>, perm: Seq<int>) -> bool {
    &&& out.len() == orig.len() == perm.len()
    &&& forall|k: int| 0 <= k < out.len() ==> 0 <= #[trigger] perm[k] < orig.len() && out[k] == orig[perm[k]]
    &&& forall|k: int, k2: int| 0 <= k < k2 < out.len() ==> #[trigger] perm[k] != #[trigger] perm[k2]
    &&& forall|j: int| 0 <= j < orig.len() ==> #[trigger] listed(perm, j)
    &&& forall|k: int, k2: int| 0 <= k < k2 < out.len() ==> !song_before(#[trigger] out[k2], #[trigger] out[k])
    &&& forall|k: int, k2: int|
        0 <= k < k2 < out.len() && same_place(#[trigger] out[k], #[trigger] out[k2]) ==> perm[k] < perm[k2]
}

/// `songs` sorted by artist, then title; songs at the same place keep their
/// order (`sort_by` on the pair, which is stable).
pub fn sort_songs(songs: Vec<Song>) -> (out: Vec<Song>)
    ensures
        exists|perm: Seq<int>| stably_sorted(songs@, out@, perm),
{
    let ghost orig = songs@;
    let n = songs.len();
    let mut rest = songs;
    let mut out: Vec<Song> = Vec::new();
    let ghost mut perm: Seq<int> = seq![];
    let mut i: usize = 0;
    while i < n
        invariant
            n == orig.len(),
            i <= n,
            rest@ == orig.skip(i as int),
            out.len() == i,
            perm.len() == i,
            forall|k: int| 0 <= k < i ==> 0 <= #[trigger] perm[k] < i && out@[k] == orig[perm[k]],
            forall|k: int, k2: int| 0 <= k < k2 < i ==> #[trigger] perm[k] != #[trigger] perm[k2],
            forall|j: int| 0 <= j < i ==> #[trigger] listed(perm, j),
            forall|k: int, k2: int| 0 <= k < k2 < i ==> !song_before(#[trigger] out@[k2], #[trigger] out@[k]),
            forall|k: int, k2: int|
                0 <= k < k2 < i && same_place(#[trigger] out@[k], #[trigger] out@[k2]) ==> perm[k] < perm[k2],
        decreases n - i,
    {
        assert(rest@[0] == orig[i as int]);
        let x = rest.remove(0);
        assert(rest@ =~= orig.skip(i + 1));
        let mut j: usize = 0;
        while j < out.len() && !song_is_before(&x, &out[j])
            invariant
                j <= out.len(),
                forall|k: int| 0 <= k < j ==> !song_before(x, #[trigger] out@[k]),
            decreases out.len() - j,
        {
            j += 1;
        }
        let ghost old_out = out@;
        let ghost old_perm = perm;
        out.insert(j, x);
        proof {
            perm = old_perm.insert(j as int, i as int);
            assert(out@ == old_out.insert(j as int, x));
            assert forall|k: int| 0 <= k < i + 1 implies 0 <= #[trigger] perm[k] < i + 1 && out@[k]
                == orig[perm[k]] by {
                if k < j {
                    assert(perm[k] == old_perm[k]);
                } else if k > j {
                    assert(perm[k] == old_perm[k - 1]);
                }
            }
            assert forall|k: int, k2: int| 0 <= k < k2 < i + 1 implies #[trigger] perm[k]
                != #[trigger] perm[k2] by {
                if k < j && k2 < j {
                } else if k < j && k2 == j {
                } else if k < j {
                    assert(perm[k2] == old_perm[k2 - 1]);
                } else if k == j {
                    assert(perm[k2] == old_perm[k2 - 1]);
                } else {
                    assert(perm[k] == old_perm[k - 1]);
                    assert(perm[k2] == old_perm[k2 - 1]);
                }
            }
            assert forall|jj: int| 0 <= jj < i + 1 implies #[trigger] listed(perm, jj) by {
                if jj == i {
                    assert(perm[j as int] == jj);
                } else {
                    assert(listed(old_perm, jj));
                    let k0 = choose|k: int| 0 <= k < old_perm.len() && old_perm[k] == jj;
                    if k0 < j {
                        assert(perm[k0] == jj);
                    } else {
                        assert(perm[k0 + 1] == jj);
                    }
                }
            }
            assert forall|k: int, k2: int| 0 <= k < k2 < i + 1 implies !song_before(
                #[trigger] out@[k2],
                #[trigger] out@[k],
            ) && (same_place(out@[k], out@[k2]) ==> perm[k] < perm[k2]) by {
                if k2 < j {
                    assert(out@[k] == old_out[k] && out@[k2] == old_out[k2]);
                } else if k2 == j {
                    assert(out@[k] == old_out[k]);
                    assert(!song_before(x, old_out[k]));
                    lemma_song_before_order(old_out[k], x, x);
                } else if k == j {
                    assert(out@[k2] == old_out[k2 - 1]);
                    assert(j < old_out.len());
                    assert(song_before(x, old_out[j as int]));
                    if k2 - 1 > j {
                        assert(!song_before(old_out[k2 - 1], old_out[j as int]));
                    }
                    lemma_song_before_order(old_out[k2 - 1], x, old_out[j as int]);
                    lemma_song_before_order(x, old_out[j as int], old_out[k2 - 1]);
                    lemma_song_before_order(x, old_out[k2 - 1], old_out[j as int]);
                } else if k < j {
                    assert(out@[k] == old_out[k]);
                    assert(out@[k2] == old_out[k2 - 1]);
                    assert(perm[k] == old_perm[k]);
                    assert(perm[k2] == old_perm[k2 - 1]);
                } else {
                    assert(out@[k] == old_out[k - 1]);
                    assert(out@[k2] == old_out[k2 - 1]);
                    assert(perm[k] == old_perm[k - 1]);
                    assert(perm[k2] == old_perm[k2 - 1]);
                }
            }
        }
        i += 1;
    }
    assert(stably_sorted(orig, out@, perm));
    out
}

/// Whether the library list shows song `s` under filter `f` and the search
/// text `search`: the filter admits its instrument, and the search, lower
/// cased, is empty or occurs in its lower-cased title or artist.
pub open spec fn song_visible(s: Song, f: InstrumentFilter, search: Seq<char>) -> bool {
    let q = lowercase(search);
    &&& filter_admits(f, s.instrument)
    &&& (q.len() == 0 || contains_seq(lowercase(s.title@), q) || contains_seq(
        lowercase(s.artist@),
        q,
    ))
}

/// The positions in `songs` of the songs the list shows, in order.
pub fn visible_songs(songs: &Vec<Song>, filter: InstrumentFilter, search: &str) -> (r: Vec<usize>)
    ensures
        forall|k: int| 0 <= k < r.len() ==> #[trigger] r@[k] < songs.len() && song_visible(songs@[r@[k] as int], filter, search@),
        forall|k: int, k2: int| 0 <= k < k2 < r.len() ==> #[trigger] r@[k] < #[trigger] r@[k2],
        forall|i: int| 0 <= i < songs.len() && #[trigger] song_visible(songs@[i], filter, search@) ==> exists|k: int| 0 <= k < r.len() && r@[k] == i,
        forall|i: int, at: int|
            0 <= i < songs.len() && filter_admits(filter, songs@[i].instrument) && (#[trigger] occurs_at(
                lowercase(songs@[i].title@),
                lowercase(search@),
                at,
            ) || occurs_at(lowercase(songs@[i].artist@), lowercase(search@), at)) ==> exists|k: int|
                0 <= k < r.len() && r@[k] == i,
        forall|i: int, at: int|
            0 <= i < songs.len() && filter_admits(filter, songs@[i].instrument) && #[trigger] occurs_at(
                lowercase(songs@[i].artist@),
                lowercase(search@),
                at,
            ) ==> exists|k: int| 0 <= k < r.len() && r@[k] == i,
        forall|k: int|
            0 <= k < r.len() ==> filter_admits(filter, (#[trigger] songs@[r@[k] as int]).instrument) && (
            lowercase(search@).len() == 0 || contains_seq(lowercase(songs@[r@[k] as int].title@), lowercase(search@))
                || contains_seq(lowercase(songs@[r@[k] as int].artist@), lowercase(search@))),
{
    let q = to_lowercase(search);
    let qv = chars_of(q.as_str());
    let mut r: Vec<usize> = Vec::new();
    let mut i: usize = 0;
    while i < songs.len()
        invariant
            i <= songs.len(),
            qv@ == lowercase(search@),
            forall|k: int| 0 <= k < r.len() ==> #[trigger] r@[k] < i && song_visible(songs@[r@[k] as int], filter, search@),
            forall|k: int, k2: int| 0 <= k < k2 < r.len() ==> #[trigger] r@[k] < #[trigger] r@[k2],
            forall|j: int| 0 <= j < i && #[trigger] song_visible(songs@[j], filter, search@) ==> exists|k: int| 0 <= k < r.len() && r@[k] == j,
        decreases songs.len() - i,
    {
        let s = &songs[i];
        let shown = if !filter.admits(s.instrument) {
            false
        } else if qv.len() == 0 {
            true
        } else {
            let title = chars_of(to_lowercase(s.title.as_str()).as_str());
            let artist = chars_of(to_lowercase(s.artist.as_str()).as_str());
            contains_chars(&title, &qv) || contains_chars(&artist, &qv)
        };
        assert(shown == song_visible(songs@[i as int], filter, search@));
        let ghost old_r = r@;
        if shown {
            r.push(i);
            assert(r@[r.len() - 1] == i);
        }
        proof {
            assert forall|j: int| 0 <= j < i + 1 && #[trigger] song_visible(songs@[j], filter, search@)
                implies exists|k: int| 0 <= k < r.len() && r@[k] == j by {
                if j < i {
                    let k = choose|k: int| 0 <= k < old_r.len() && old_r[k] == j;
                    assert(r@[k] == old_r[k]);
                } else {
                    assert(r@[r.len() - 1] == j);
                }
            }
        }
        i += 1;
    }
    proof {
        assert forall|i: int, at: int|
            0 <= i < songs.len() && filter_admits(filter, songs@[i].instrument) && (#[trigger] occurs_at(
                lowercase(songs@[i].title@),
                lowercase(search@),
                at,
            ) || occurs_at(lowercase(songs@[i].artist@), lowercase(search@), at)) implies exists|k: int|
                0 <= k < r.len() && r@[k] == i by {
            lemma_search_matches_anywhere(songs@[i], filter, search@, at);
        }
        assert forall|i: int, at: int|
            0 <= i < songs.len() && filter_admits(filter, songs@[i].instrument) && #[trigger] occurs_at(
                lowercase(songs@[i].artist@),
                lowercase(search@),
                at,
            ) implies exists|k: int| 0 <= k < r.len() && r@[k] == i by {
            lemma_search_matches_anywhere(songs@[i], filter, search@, at);
        }
    }
    r
}

/// A song that the filter admits is shown when the lower-cased search text
/// occurs at any position of its lower-cased title or artist.
pub proof fn lemma_search_matches_anywhere(s: Song, f: InstrumentFilter, search: Seq<char>, at: int)
    requires
        filter_admits(f, s.instrument),
        occurs_at(lowercase(s.title@), lowercase(search), at) || occurs_at(
            lowercase(s.artist@),
            lowercase(search),
            at,
        ),
    ensures
        song_visible(s, f, search),
{
    if occurs_at(lowercase(s.title@), lowercase(search), at) {
        assert(contains_seq(lowercase(s.title@), lowercase(search)));
    } else {
        assert(contains_seq(lowercase(s.artist@), lowercase(search)));
    }
}

/// The instrument a stored record names; a name that is not an instrument's
/// reads as guitar.
pub fn instrument_from_db(name: &str) -> (i: Instrument)
    ensures
        i == match crate::model::instrument_named(name@) {
            Some(j) => j,
            None => Instrument::Guitar,
        },
{
    match Instrument::from_str(name) {
        Some(j) => j,
        None => Instrument::Guitar,
    }
}

} // verus!
