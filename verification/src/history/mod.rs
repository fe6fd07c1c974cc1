//! The clipboard history: entries newest first, the retention rule, pins.
pub mod laws;
pub mod model;

use self::model::{
    evicted, evicted_by_insert, after_insert, has_hash, history_ok, ids_of, image_entry,
    in_recency_order, insert_all, largest_id, lemma_insert_contains,
    lemma_insert_in_order_at, lemma_insert_ok, lemma_insert_sorted, lemma_largest_id_bounds,
    lemma_pinned_only_ok, lemma_retained_ok, lemma_without_id_ok, most_recent, newer,
    newest_first, distinct_ids, pinned_only, retained, text_entry, views, with_pin_toggled,
    without_id, unpinned_only, has_id,
};
use crate::domain::{ClipboardEntry, EntryKind, EntryView, StoredImage};
use vstd::prelude::*;

verus! {

/// How many unpinned entries the history keeps; pinned entries are not counted.
pub const HISTORY_LIMIT: usize = 200;

/// Why a history operation did not happen.
#[derive(Debug, Clone, Copy, PartialEq, Eq, Structural)]
pub enum HistoryError {
    /// Every entry id up to `i64::MAX` has been handed out.
    IdsExhausted,
    /// A count does not fit in an `i64`.
    LimitTooLarge,
    /// Two stored entries have the same id.
    DuplicateId,
}

/// What a successful insertion reports: the new entry's id and the ids of the
/// entries that the retention rule removed.
#[derive(Debug)]
pub struct Inserted {
    pub id: i64,
    pub evicted: Vec<i64>,
}

/// The clipboard history: its entries newest first, and the last id handed out.
#[derive(Debug)]
pub struct ClipboardHistory {
    entries: Vec<ClipboardEntry>,
    last_id: i64,
}

impl View for ClipboardHistory {
    type V = Seq<EntryView>;

    closed spec fn view(&self) -> Seq<EntryView> {
        views(self.entries@)
    }
}

/// Whether `n` fits in an `i64`.
pub fn fits_i64(n: usize) -> (fits: bool)
    ensures
        fits == (n <= i64::MAX),
{
    (n as u64) <= 0x7fff_ffff_ffff_ffffu64
}

/// Whether `a` comes before `b` in the history.
fn is_newer(a: &ClipboardEntry, b: &ClipboardEntry) -> (r: bool)
    ensures
        r == newer(a@, b@),
{
    a.created_at > b.created_at || (a.created_at == b.created_at && a.id > b.id)
}

/// Splits entries, newest first, into those the retention rule keeps (every
/// pinned one and the first `budget` unpinned ones) and the ids of the others.
fn apply_retention(entries: Vec<ClipboardEntry>, budget: usize) -> (split: (
    Vec<ClipboardEntry>,
    Vec<i64>,
))
    ensures
        views(split.0@) == retained(views(entries@), budget as nat),
        split.1@ == ids_of(evicted(views(entries@), budget as nat)),
{
    let ghost all = views(entries@);
    let mut rest = entries;
    let mut kept: Vec<ClipboardEntry> = Vec::new();
    let mut gone: Vec<i64> = Vec::new();
    let mut b = budget;
    assert(views(kept@) =~= Seq::<EntryView>::empty());
    assert(gone@ =~= Seq::<i64>::empty());
    while rest.len() > 0
        invariant
            retained(all, budget as nat) == views(kept@) + retained(views(rest@), b as nat),
            ids_of(evicted(all, budget as nat)) == gone@ + ids_of(evicted(views(rest@), b as nat)),
        decreases rest@.len(),
    {
        let ghost rv = views(rest@);
        let ghost kv = views(kept@);
        let ghost gv = gone@;
        let e = rest.remove(0);
        assert(views(rest@) =~= rv.drop_first());
        assert(rv[0] == e@);
        if e.pinned {
            kept.push(e);
            assert(views(kept@) =~= kv.push(rv[0]));
            assert(kv + retained(rv, b as nat) =~= views(kept@) + retained(rv.drop_first(), b as nat));
            assert(evicted(rv, b as nat) == evicted(rv.drop_first(), b as nat));
        } else if b > 0 {
            kept.push(e);
            assert(views(kept@) =~= kv.push(rv[0]));
            assert(kv + retained(rv, b as nat) =~= views(kept@) + retained(rv.drop_first(), (b - 1) as nat));
            assert(evicted(rv, b as nat) == evicted(rv.drop_first(), (b - 1) as nat));
            b = b - 1;
        } else {
            gone.push(e.id);
            assert(retained(rv, b as nat) == retained(rv.drop_first(), b as nat));
            assert(ids_of(evicted(rv, b as nat)) =~= seq![rv[0].id] + ids_of(evicted(rv.drop_first(), b as nat)));
            assert(gv + ids_of(evicted(rv, b as nat)) =~= gone@ + ids_of(evicted(rv.drop_first(), b as nat)));
        }
    }
    assert(views(rest@) =~= Seq::<EntryView>::empty());
    assert(views(kept@) =~= retained(all, budget as nat));
    assert(gone@ =~= ids_of(evicted(all, budget as nat)));
    (kept, gone)
}

impl ClipboardHistory {
    /// The last id handed out; new entries get larger ids.
    pub closed spec fn last_id(&self) -> i64 {
        self.last_id
    }

    pub open spec fn wf(&self) -> bool {
        history_ok(self@, self.last_id())
    }

    /// An empty history.
    pub fn new() -> (history: Self)
        ensures
            history.wf(),
            history@ == Seq::<EntryView>::empty(),
            history.last_id() == 0,
    {
        let history = ClipboardHistory { entries: Vec::new(), last_id: 0 };
        assert(history@ =~= Seq::<EntryView>::empty());
        history
    }

    /// The number of entries.
    pub fn len(&self) -> (n: usize)
        ensures
            n == self@.len(),
    {
        self.entries.len()
    }

    /// The last id handed out.
    pub fn last_assigned_id(&self) -> (id: i64)
        ensures
            id == self.last_id(),
    {
        self.last_id
    }

    /// Whether an entry with content hash `content_hash` is in the history.
    pub fn contains_hash(&self, content_hash: &str) -> (found: bool)
        ensures
            found == has_hash(self@, content_hash@),
            found <==> exists|i: int| 0 <= i < self@.len() && #[trigger] self@[i].content_hash == content_hash@,
    {
        let wanted = crate::text::chars_of(content_hash);
        let mut i: usize = 0;
        while i < self.entries.len()
            invariant
                i <= self.entries@.len(),
                wanted@ == content_hash@,
                forall|k: int| 0 <= k < i ==> #[trigger] self@[k].content_hash != content_hash@,
            decreases self.entries@.len() - i,
        {
            let candidate = crate::text::chars_of(self.entries[i].content_hash.as_str());
            if crate::text::same_chars(&candidate, &wanted) {
                assert(self@[i as int].content_hash == content_hash@);
                return true;
            }
            i = i + 1;
        }
        false
    }

    /// Adds `entry`, whose id is the next one, at its place, then applies the
    /// retention rule; returns the ids the rule removed.
    fn insert_entry(&mut self, entry: ClipboardEntry) -> (gone: Vec<i64>)
        requires
            old(self).wf(),
            old(self).last_id() < entry.id,
        ensures
            final(self).wf(),
            final(self).last_id() == entry.id,
            final(self)@ == after_insert(old(self)@, entry@),
            gone@ == evicted_by_insert(old(self)@, entry@),
    {
        let ghost before = self@;
        let n = self.entries.len();
        let mut i: usize = 0;
        while i < n && is_newer(&self.entries[i], &entry)
            invariant
                n == self.entries@.len(),
                before == views(self.entries@),
                i <= n,
                forall|j: int| 0 <= j < i ==> newer(#[trigger] before[j], entry@),
            decreases n - i,
        {
            i = i + 1;
        }
        proof {
            lemma_insert_in_order_at(before, entry@, i as int);
            lemma_insert_ok(before, entry@, i as int, self.last_id);
        }
        let ghost e = entry@;
        let id = entry.id;
        self.entries.insert(i, entry);
        assert(views(self.entries@) =~= before.insert(i as int, e));
        self.last_id = id;
        let mut all: Vec<ClipboardEntry> = Vec::new();
        std::mem::swap(&mut all, &mut self.entries);
        let (kept, gone) = apply_retention(all, HISTORY_LIMIT);
        proof {
            lemma_retained_ok(before.insert(i as int, e), HISTORY_LIMIT as nat, e.id);
        }
        self.entries = kept;
        gone
    }

    /// Records a text entry with content hash `content_hash`, created at
    /// `now`, under the next id, then applies the retention rule.
    pub fn insert_text(&mut self, text: &str, content_hash: &str, now: i64) -> (inserted: Result<
        Inserted,
        HistoryError,
    >)
        requires
            old(self).wf(),
        ensures
            final(self).wf(),
            match inserted {
                Ok(ins) => {
                    &&& old(self).last_id() < i64::MAX
                    &&& ins.id == old(self).last_id() + 1
                    &&& final(self).last_id() == ins.id
                    &&& final(self)@ == after_insert(
                        old(self)@,
                        text_entry(ins.id, text@, content_hash@, now),
                    )
                    &&& ins.evicted@ == evicted_by_insert(
                        old(self)@,
                        text_entry(ins.id, text@, content_hash@, now),
                    )
                },
                Err(e) => {
                    &&& e == HistoryError::IdsExhausted
                    &&& old(self).last_id() == i64::MAX
                    &&& final(self)@ == old(self)@
                    &&& final(self).last_id() == old(self).last_id()
                },
            },
    {
        if self.last_id == i64::MAX {
            return Err(HistoryError::IdsExhausted);
        }
        let id = self.last_id + 1;
        let entry = ClipboardEntry {
            id,
            kind: EntryKind::Text,
            text: Some(text.to_owned()),
            image: None,
            content_hash: content_hash.to_owned(),
            pinned: false,
            created_at: now,
        };
        assert(entry@ == text_entry(id, text@, content_hash@, now));
        let evicted = self.insert_entry(entry);
        Ok(Inserted { id, evicted })
    }

    /// Records an image entry with content hash `content_hash`, created at
    /// `now`, under the next id, then applies the retention rule.
    pub fn insert_image(
        &mut self,
        rgba: &[u8],
        width: i64,
        height: i64,
        content_hash: &str,
        now: i64,
    ) -> (inserted: Result<Inserted, HistoryError>)
        requires
            old(self).wf(),
        ensures
            final(self).wf(),
            match inserted {
                Ok(ins) => {
                    &&& old(self).last_id() < i64::MAX
                    &&& ins.id == old(self).last_id() + 1
                    &&& final(self).last_id() == ins.id
                    &&& final(self)@ == after_insert(
                        old(self)@,
                        image_entry(ins.id, rgba@, width, height, content_hash@, now),
                    )
                    &&& ins.evicted@ == evicted_by_insert(
                        old(self)@,
                        image_entry(ins.id, rgba@, width, height, content_hash@, now),
                    )
                },
                Err(e) => {
                    &&& e == HistoryError::IdsExhausted
                    &&& old(self).last_id() == i64::MAX
                    &&& final(self)@ == old(self)@
                    &&& final(self).last_id() == old(self).last_id()
                },
            },
    {
        if self.last_id == i64::MAX {
            return Err(HistoryError::IdsExhausted);
        }
        let id = self.last_id + 1;
        let entry = ClipboardEntry {
            id,
            kind: EntryKind::Image,
            text: None,
            image: Some(StoredImage { rgba: vstd::slice::slice_to_vec(rgba), width, height }),
            content_hash: content_hash.to_owned(),
            pinned: false,
            created_at: now,
        };
        assert(entry@ == image_entry(id, rgba@, width, height, content_hash@, now));
        let evicted = self.insert_entry(entry);
        Ok(Inserted { id, evicted })
    }

    /// Applies the retention rule with `maximum` unpinned entries; returns the
    /// ids it removed.
    pub fn remove_old_unpinned_entries(&mut self, maximum: usize) -> (gone: Result<
        Vec<i64>,
        HistoryError,
    >)
        requires
            old(self).wf(),
        ensures
            final(self).wf(),
            final(self).last_id() == old(self).last_id(),
            match gone {
                Ok(ids) => {
                    &&& maximum <= i64::MAX
                    &&& final(self)@ == retained(old(self)@, maximum as nat)
                    &&& ids@ == ids_of(evicted(old(self)@, maximum as nat))
                },
                Err(e) => {
                    &&& maximum > i64::MAX
                    &&& e == HistoryError::LimitTooLarge
                    &&& final(self)@ == old(self)@
                },
            },
    {
        if !fits_i64(maximum) {
            return Err(HistoryError::LimitTooLarge);
        }
        let ghost before = self@;
        let mut all: Vec<ClipboardEntry> = Vec::new();
        std::mem::swap(&mut all, &mut self.entries);
        let (kept, gone) = apply_retention(all, maximum);
        proof {
            lemma_retained_ok(before, maximum as nat, self.last_id);
        }
        self.entries = kept;
        Ok(gone)
    }

    /// Removes the entry with id `id`, if there is one; says whether there was.
    pub fn delete_entry(&mut self, id: i64) -> (found: bool)
        requires
            old(self).wf(),
        ensures
            final(self).wf(),
            final(self).last_id() == old(self).last_id(),
            final(self)@ == without_id(old(self)@, id),
            found == has_id(old(self)@, id),
    {
        let ghost all = self@;
        let found = match self.get(id) {
            Some(e) => {
                proof {
                    let k = choose|k: int| 0 <= k < all.len() && all[k] == e@;
                    assert(all[k].id == id);
                }
                true
            },
            None => false,
        };
        let mut rest: Vec<ClipboardEntry> = Vec::new();
        std::mem::swap(&mut rest, &mut self.entries);
        let mut kept: Vec<ClipboardEntry> = Vec::new();
        assert(views(kept@) =~= Seq::<EntryView>::empty());
        while rest.len() > 0
            invariant
                without_id(all, id) == views(kept@) + without_id(views(rest@), id),
            decreases rest@.len(),
        {
            let ghost rv = views(rest@);
            let ghost kv = views(kept@);
            let e = rest.remove(0);
            assert(views(rest@) =~= rv.drop_first());
            assert(rv[0] == e@);
            if e.id != id {
                kept.push(e);
                assert(views(kept@) =~= kv.push(rv[0]));
                assert(kv + without_id(rv, id) =~= views(kept@) + without_id(rv.drop_first(), id));
            }
        }
        assert(views(rest@) =~= Seq::<EntryView>::empty());
        assert(views(kept@) =~= without_id(all, id));
        proof {
            lemma_without_id_ok(all, id, self.last_id);
        }
        self.entries = kept;
        found
    }

    /// Removes every entry that is not pinned; returns their ids.
    pub fn clear_unpinned(&mut self) -> (removed: Vec<i64>)
        requires
            old(self).wf(),
        ensures
            final(self).wf(),
            final(self).last_id() == old(self).last_id(),
            final(self)@ == pinned_only(old(self)@),
            removed@ == ids_of(unpinned_only(old(self)@)),
    {
        let ghost all = self@;
        let mut rest: Vec<ClipboardEntry> = Vec::new();
        std::mem::swap(&mut rest, &mut self.entries);
        let mut kept: Vec<ClipboardEntry> = Vec::new();
        let mut removed: Vec<i64> = Vec::new();
        assert(views(kept@) =~= Seq::<EntryView>::empty());
        assert(removed@ =~= Seq::<i64>::empty());
        while rest.len() > 0
            invariant
                pinned_only(all) == views(kept@) + pinned_only(views(rest@)),
                ids_of(unpinned_only(all)) == removed@ + ids_of(unpinned_only(views(rest@))),
            decreases rest@.len(),
        {
            let ghost rv = views(rest@);
            let ghost kv = views(kept@);
            let ghost gv = removed@;
            let e = rest.remove(0);
            assert(views(rest@) =~= rv.drop_first());
            assert(rv[0] == e@);
            if e.pinned {
                kept.push(e);
                assert(views(kept@) =~= kv.push(rv[0]));
                assert(kv + pinned_only(rv) =~= views(kept@) + pinned_only(rv.drop_first()));
                assert(unpinned_only(rv) == unpinned_only(rv.drop_first()));
            } else {
                removed.push(e.id);
                assert(pinned_only(rv) == pinned_only(rv.drop_first()));
                assert(ids_of(unpinned_only(rv)) =~= seq![rv[0].id] + ids_of(unpinned_only(rv.drop_first())));
                assert(gv + ids_of(unpinned_only(rv)) =~= removed@ + ids_of(unpinned_only(rv.drop_first())));
            }
        }
        assert(views(rest@) =~= Seq::<EntryView>::empty());
        assert(views(kept@) =~= pinned_only(all));
        assert(removed@ =~= ids_of(unpinned_only(all)));
        proof {
            lemma_pinned_only_ok(all, self.last_id);
        }
        self.entries = kept;
        removed
    }

    /// Flips the pin of the entry with id `id`, if there is one; returns
    /// whether it is pinned now.
    pub fn toggle_pinned(&mut self, id: i64) -> (pinned: Option<bool>)
        requires
            old(self).wf(),
        ensures
            final(self).wf(),
            final(self).last_id() == old(self).last_id(),
            final(self)@ == with_pin_toggled(old(self)@, id),
            match pinned {
                Some(p) => {
                    &&& has_id(old(self)@, id)
                    &&& forall|k: int| 0 <= k < old(self)@.len() && #[trigger] old(self)@[k].id == id
                        ==> p == !old(self)@[k].pinned
                },
                None => !has_id(old(self)@, id),
            },
    {
        let ghost all = self@;
        let n = self.entries.len();
        let mut i: usize = 0;
        while i < n && self.entries[i].id != id
            invariant
                n == self.entries@.len(),
                all == views(self.entries@),
                i <= n,
                forall|k: int| 0 <= k < i ==> #[trigger] all[k].id != id,
            decreases n - i,
        {
            i = i + 1;
        }
        if i == n {
            assert(with_pin_toggled(all, id) =~= all);
            return None;
        }
        assert(all[i as int].id == id);
        let mut e = self.entries.remove(i);
        e.pinned = !e.pinned;
        let now_pinned = e.pinned;
        self.entries.insert(i, e);
        assert forall|k: int| 0 <= k < all.len() && #[trigger] all[k].id == id implies now_pinned
            == !all[k].pinned by {
            if k != i {
                assert(all[k].id != all[i as int].id);
            }
        }
        assert(views(self.entries@) =~= with_pin_toggled(all, id)) by {
            assert forall|k: int| 0 <= k < all.len() && k != i implies all[k].id != id by {
                assert(all[k].id != all[i as int].id);
            }
        }
        assert(history_ok(self@, self.last_id)) by {
            let t = self@;
            assert forall|a: int| 0 <= a < t.len() implies #[trigger] t[a].id == all[a].id
                && t[a].created_at == all[a].created_at by {}
        }
        Some(now_pinned)
    }

    /// A history made of stored entries, put newest first; `sequence` is the
    /// last id handed out before, and new ids go past it and past every stored
    /// id. Two entries with one id are refused.
    pub fn from_entries(entries: Vec<ClipboardEntry>, sequence: i64) -> (history: Result<
        ClipboardHistory,
        HistoryError,
    >)
        ensures
            match history {
                Ok(h) => {
                    &&& distinct_ids(views(entries@))
                    &&& h.wf()
                    &&& h@ == in_recency_order(views(entries@))
                    &&& h@.len() == entries@.len()
                    &&& forall|j: int| 0 <= j < entries@.len() ==> h@.contains(#[trigger] entries@[j]@)
                    &&& forall|k: int| 0 <= k < h@.len() ==> views(entries@).contains(#[trigger] h@[k])
                    &&& h.last_id() == largest_id(views(entries@), sequence)
                },
                Err(e) => e == HistoryError::DuplicateId && !distinct_ids(views(entries@)),
            },
    {
        let ghost all = views(entries@);
        let n = entries.len();
        // Refuse two entries with one id.
        let mut i: usize = 0;
        while i < n
            invariant
                n == entries@.len(),
                all == views(entries@),
                i <= n,
                forall|a: int, b: int| 0 <= a < i && 0 <= b < n && a != b ==> #[trigger] all[a].id != #[trigger] all[b].id,
            decreases n - i,
        {
            let mut j: usize = 0;
            while j < n
                invariant
                    n == entries@.len(),
                    all == views(entries@),
                    i < n,
                    j <= n,
                    forall|a: int, b: int| 0 <= a < i && 0 <= b < n && a != b ==> #[trigger] all[a].id != #[trigger] all[b].id,
                    forall|b: int| 0 <= b < j && b != i ==> all[i as int].id != #[trigger] all[b].id,
                decreases n - j,
            {
                if j != i && entries[i].id == entries[j].id {
                    assert(all[i as int].id == all[j as int].id);
                    return Err(HistoryError::DuplicateId);
                }
                j = j + 1;
            }
            i = i + 1;
        }
        // The last id handed out.
        let mut last = sequence;
        let mut k: usize = 0;
        while k < n
            invariant
                n == entries@.len(),
                all == views(entries@),
                k <= n,
                last == largest_id(all.take(k as int), sequence),
            decreases n - k,
        {
            assert(all.take(k + 1).drop_last() =~= all.take(k as int));
            if entries[k].id > last {
                last = entries[k].id;
            }
            k = k + 1;
        }
        assert(all.take(n as int) =~= all);
        proof {
            lemma_largest_id_bounds(all, sequence);
        }
        // Put the entries newest first.
        let mut rest = entries;
        let mut acc: Vec<ClipboardEntry> = Vec::new();
        let mut done: usize = 0;
        assert(views(acc@) =~= Seq::<EntryView>::empty());
        assert(views(rest@) =~= all.skip(0));
        while rest.len() > 0
            invariant
                n == all.len(),
                distinct_ids(all),
                done <= n,
                views(rest@) == all.skip(done as int),
                insert_all(views(acc@), views(rest@)) == in_recency_order(all),
                newest_first(views(acc@)),
                distinct_ids(views(acc@)),
                views(acc@).len() == done,
                forall|j: int| 0 <= j < done ==> views(acc@).contains(#[trigger] all[j]),
                forall|m: int| 0 <= m < views(acc@).len() ==> all.take(done as int).contains(#[trigger] views(acc@)[m]),
            decreases rest@.len(),
        {
            let ghost av = views(acc@);
            let ghost rv = views(rest@);
            let e = rest.remove(0);
            assert(views(rest@) =~= rv.drop_first());
            assert(rv[0] == e@ && e@ == all[done as int]);
            assert(views(rest@) =~= all.skip(done + 1));
            let m = acc.len();
            let mut p: usize = 0;
            while p < m && is_newer(&acc[p], &e)
                invariant
                    m == acc@.len(),
                    av == views(acc@),
                    p <= m,
                    forall|j: int| 0 <= j < p ==> newer(#[trigger] av[j], e@),
                decreases m - p,
            {
                p = p + 1;
            }
            proof {
                assert forall|q: int| 0 <= q < av.len() implies #[trigger] av[q].id != e@.id by {
                    assert(all.take(done as int).contains(av[q]));
                    let w = choose|w: int| 0 <= w < done && all.take(done as int)[w] == av[q];
                    assert(all[w] == av[q]);
                }
                lemma_insert_in_order_at(av, e@, p as int);
                lemma_insert_sorted(av, e@, p as int);
                lemma_insert_contains(av, p as int, e@);
            }
            let ghost ev = e@;
            acc.insert(p, e);
            assert(views(acc@) =~= av.insert(p as int, ev));
            proof {
                let nv = views(acc@);
                assert forall|j: int| 0 <= j < done + 1 implies nv.contains(#[trigger] all[j]) by {
                    if j < done {
                        assert(av.contains(all[j]));
                    }
                }
                assert forall|q: int| 0 <= q < nv.len() implies all.take(done + 1).contains(#[trigger] nv[q]) by {
                    assert(av.contains(nv[q]) || nv[q] == ev);
                    if nv[q] == ev {
                        assert(all.take(done + 1)[done as int] == ev);
                    } else {
                        let w = choose|w: int| 0 <= w < av.len() && av[w] == nv[q];
                        assert(all.take(done as int).contains(av[w]));
                        let z = choose|z: int| 0 <= z < done && all.take(done as int)[z] == av[w];
                        assert(all.take(done + 1)[z] == nv[q]);
                    }
                }
            }
            done = done + 1;
        }
        assert(views(rest@) =~= Seq::<EntryView>::empty());
        let history = ClipboardHistory { entries: acc, last_id: last };
        assert(all.take(n as int) =~= all);
        assert forall|k: int| 0 <= k < history@.len() implies all.contains(#[trigger] history@[k]) by {
            let z = choose|z: int| 0 <= z < n && all.take(n as int)[z] == history@[k];
            assert(all[z] == history@[k]);
        }
        assert forall|j: int| 0 <= j < n implies history@.contains(#[trigger] entries@[j]@) by {
            assert(all[j] == entries@[j]@);
        }
        Ok(history)
    }

    /// The entry with id `id`, if there is one.
    pub fn get(&self, id: i64) -> (entry: Option<&ClipboardEntry>)
        ensures
            match entry {
                Some(e) => self@.contains(e@) && e.id == id,
                None => forall|k: int| 0 <= k < self@.len() ==> #[trigger] self@[k].id != id,
            },
    {
        let mut i: usize = 0;
        while i < self.entries.len()
            invariant
                i <= self.entries@.len(),
                forall|k: int| 0 <= k < i ==> #[trigger] self@[k].id != id,
            decreases self.entries@.len() - i,
        {
            if self.entries[i].id == id {
                assert(self@[i as int] == self.entries@[i as int]@);
                return Some(&self.entries[i]);
            }
            i = i + 1;
        }
        None
    }

    /// The `limit` most recent entries, newest first.
    pub fn list_recent(&self, limit: usize) -> (recent: Result<Vec<ClipboardEntry>, HistoryError>)
        ensures
            match recent {
                Ok(entries) => limit <= i64::MAX && views(entries@) == most_recent(self@, limit as nat),
                Err(e) => limit > i64::MAX && e == HistoryError::LimitTooLarge,
            },
    {
        if !fits_i64(limit) {
            return Err(HistoryError::LimitTooLarge);
        }
        let n = if limit < self.entries.len() {
            limit
        } else {
            self.entries.len()
        };
        let mut out: Vec<ClipboardEntry> = Vec::new();
        let mut i: usize = 0;
        while i < n
            invariant
                n <= self.entries@.len(),
                i <= n,
                views(out@) == self@.take(i as int),
            decreases n - i,
        {
            let copy = self.entries[i].clone();
            let ghost before = out@;
            out.push(copy);
            assert(views(out@) =~= views(before).push(copy@));
            assert(self@.take(i + 1) =~= self@.take(i as int).push(self@[i as int]));
            i = i + 1;
        }
        assert(self@.take(n as int) =~= most_recent(self@, limit as nat));
        Ok(out)
    }
}

} // verus!
