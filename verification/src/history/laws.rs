//! What holds of the history across its operations.
use super::model::{
    after_insert, count_unpinned, evicted, has_hash, history_ok, in_recency_order, insert_all,
    insert_in_order, lemma_insert_in_order_at, lemma_insert_ok, most_recent, newer, newest_first,
    pinned_only, retained, with_pin_toggled, without_id,
};
use super::HISTORY_LIMIT;
use crate::domain::EntryView;
use vstd::prelude::*;

verus! {

/// An entry recorded at a time no earlier than any other, with a fresh id and
/// no pin, comes first in the history afterwards: the most recent listing
/// starts with it.
pub proof fn lemma_latest_insert_comes_first(s: Seq<EntryView>, e: EntryView, last_id: i64)
    requires
        history_ok(s, last_id),
        last_id < e.id,
        !e.pinned,
        forall|k: int| 0 <= k < s.len() ==> #[trigger] s[k].created_at <= e.created_at,
    ensures
        after_insert(s, e).len() > 0,
        after_insert(s, e)[0] == e,
        forall|limit: nat| limit > 0 ==> #[trigger] most_recent(after_insert(s, e), limit)[0] == e,
{
    if s.len() > 0 {
        assert(s[0].id <= last_id);
        assert(!newer(s[0], e));
    }
    assert(insert_in_order(s, e) == seq![e] + s);
    let r = seq![e] + s;
    assert(r[0] == e && r.drop_first() =~= s);
    assert(retained(r, HISTORY_LIMIT as nat) == seq![e] + retained(s, (HISTORY_LIMIT - 1) as nat));
}

/// After the retention rule, at most `budget` entries are unpinned.
pub proof fn lemma_retained_unpinned_bound(s: Seq<EntryView>, budget: nat)
    ensures
        count_unpinned(retained(s, budget)) <= budget,
    decreases s.len(),
{
    if s.len() > 0 {
        let t = s.drop_first();
        if s[0].pinned {
            lemma_retained_unpinned_bound(t, budget);
            let r = seq![s[0]] + retained(t, budget);
            assert(r[0] == s[0] && r.drop_first() =~= retained(t, budget));
        } else if budget > 0 {
            lemma_retained_unpinned_bound(t, (budget - 1) as nat);
            let r = seq![s[0]] + retained(t, (budget - 1) as nat);
            assert(r[0] == s[0] && r.drop_first() =~= retained(t, (budget - 1) as nat));
        } else {
            lemma_retained_unpinned_bound(t, budget);
        }
    }
}

/// The retention rule never removes a pinned entry.
pub proof fn lemma_retained_keeps_pinned(s: Seq<EntryView>, budget: nat)
    ensures
        pinned_only(retained(s, budget)) == pinned_only(s),
    decreases s.len(),
{
    if s.len() > 0 {
        let t = s.drop_first();
        let b = if s[0].pinned || budget == 0 { budget } else { (budget - 1) as nat };
        lemma_retained_keeps_pinned(t, b);
        if s[0].pinned || budget > 0 {
            let r = seq![s[0]] + retained(t, b);
            assert(r[0] == s[0] && r.drop_first() =~= retained(t, b));
        }
    }
}

/// When at most `budget` entries are unpinned, the retention rule removes nothing.
pub proof fn lemma_retained_within_budget(s: Seq<EntryView>, budget: nat)
    requires
        count_unpinned(s) <= budget,
    ensures
        retained(s, budget) == s,
        evicted(s, budget).len() == 0,
    decreases s.len(),
{
    if s.len() > 0 {
        let t = s.drop_first();
        let b = if s[0].pinned { budget } else { (budget - 1) as nat };
        lemma_retained_within_budget(t, b);
        assert(seq![s[0]] + t =~= s);
    }
}

/// Adding an unpinned entry leaves the pinned entries as they were.
pub proof fn lemma_insert_in_order_pinned(s: Seq<EntryView>, e: EntryView)
    requires
        !e.pinned,
    ensures
        pinned_only(insert_in_order(s, e)) == pinned_only(s),
    decreases s.len(),
{
    if s.len() == 0 {
        let r = seq![e];
        assert(r.drop_first() =~= s);
    } else if newer(s[0], e) {
        lemma_insert_in_order_pinned(s.drop_first(), e);
        let r = seq![s[0]] + insert_in_order(s.drop_first(), e);
        assert(r[0] == s[0] && r.drop_first() =~= insert_in_order(s.drop_first(), e));
    } else {
        let r = seq![e] + s;
        assert(r[0] == e && r.drop_first() =~= s);
    }
}

/// Recording an entry keeps every pinned entry, and leaves at most
/// `HISTORY_LIMIT` entries unpinned.
pub proof fn lemma_insert_keeps_pinned_and_limit(s: Seq<EntryView>, e: EntryView)
    requires
        !e.pinned,
    ensures
        pinned_only(after_insert(s, e)) == pinned_only(s),
        count_unpinned(after_insert(s, e)) <= HISTORY_LIMIT,
{
    lemma_retained_keeps_pinned(insert_in_order(s, e), HISTORY_LIMIT as nat);
    lemma_insert_in_order_pinned(s, e);
    lemma_retained_unpinned_bound(insert_in_order(s, e), HISTORY_LIMIT as nat);
}

/// Clearing keeps exactly the pinned entries: all that remain are pinned, and
/// every pinned entry remains.
pub proof fn lemma_clear_keeps_exactly_pinned(s: Seq<EntryView>)
    ensures
        forall|k: int| 0 <= k < pinned_only(s).len() ==> (#[trigger] pinned_only(s)[k]).pinned,
        forall|k: int| 0 <= k < s.len() && (#[trigger] s[k]).pinned ==> pinned_only(s).contains(s[k]),
        count_unpinned(pinned_only(s)) == 0,
    decreases s.len(),
{
    if s.len() > 0 {
        let t = s.drop_first();
        lemma_clear_keeps_exactly_pinned(t);
        let r = pinned_only(s);
        if s[0].pinned {
            assert(r[0] == s[0] && r.drop_first() =~= pinned_only(t));
            assert forall|k: int| 0 <= k < r.len() implies (#[trigger] r[k]).pinned by {
                if k > 0 {
                    assert(r[k] == pinned_only(t)[k - 1]);
                }
            }
            assert forall|k: int| 0 <= k < s.len() && (#[trigger] s[k]).pinned implies r.contains(s[k]) by {
                if k == 0 {
                    assert(r[0] == s[0]);
                } else {
                    assert(s[k] == t[k - 1]);
                    let m = choose|m: int| 0 <= m < pinned_only(t).len() && pinned_only(t)[m] == t[k - 1];
                    assert(r[m + 1] == s[k]);
                }
            }
        } else {
            assert forall|k: int| 0 <= k < s.len() && (#[trigger] s[k]).pinned implies r.contains(s[k]) by {
                assert(k > 0);
                assert(s[k] == t[k - 1]);
            }
        }
    }
}

/// Flipping the same pin twice gives back the history.
pub proof fn lemma_toggle_twice(s: Seq<EntryView>, id: i64)
    ensures
        with_pin_toggled(with_pin_toggled(s, id), id) == s,
{
    assert(with_pin_toggled(with_pin_toggled(s, id), id) =~= s);
}

/// Removing an id leaves no entry with that id and every entry with another.
pub proof fn lemma_delete_removes_only_that_id(s: Seq<EntryView>, id: i64)
    ensures
        forall|k: int| 0 <= k < without_id(s, id).len() ==> (#[trigger] without_id(s, id)[k]).id != id,
        forall|k: int| 0 <= k < s.len() && (#[trigger] s[k]).id != id ==> without_id(s, id).contains(s[k]),
    decreases s.len(),
{
    if s.len() > 0 {
        let t = s.drop_first();
        lemma_delete_removes_only_that_id(t, id);
        let r = without_id(s, id);
        if s[0].id != id {
            assert(r[0] == s[0] && r.drop_first() =~= without_id(t, id));
            assert forall|k: int| 0 <= k < r.len() implies (#[trigger] r[k]).id != id by {
                if k > 0 {
                    assert(r[k] == without_id(t, id)[k - 1]);
                }
            }
            assert forall|k: int| 0 <= k < s.len() && (#[trigger] s[k]).id != id implies r.contains(s[k]) by {
                if k == 0 {
                    assert(r[0] == s[0]);
                } else {
                    assert(s[k] == t[k - 1]);
                    let m = choose|m: int| 0 <= m < without_id(t, id).len() && without_id(t, id)[m] == t[k - 1];
                    assert(r[m + 1] == s[k]);
                }
            }
        } else {
            assert forall|k: int| 0 <= k < s.len() && (#[trigger] s[k]).id != id implies r.contains(s[k]) by {
                assert(k > 0);
                assert(s[k] == t[k - 1]);
            }
        }
    }
}

/// An entry older than every entry of `acc` goes at its end.
pub proof fn lemma_insert_oldest(acc: Seq<EntryView>, e: EntryView)
    requires
        forall|k: int| 0 <= k < acc.len() ==> newer(#[trigger] acc[k], e),
    ensures
        insert_in_order(acc, e) == acc.push(e),
    decreases acc.len(),
{
    if acc.len() > 0 {
        let t = acc.drop_first();
        assert forall|k: int| 0 <= k < t.len() implies newer(#[trigger] t[k], e) by {
            assert(t[k] == acc[k + 1]);
        }
        lemma_insert_oldest(t, e);
        assert(seq![acc[0]] + t.push(e) =~= acc.push(e));
    }
}

/// Entries that are already newest first are put back in the same order:
/// reading back a stored history gives that history.
pub proof fn lemma_reload_keeps_order(s: Seq<EntryView>)
    requires
        newest_first(s),
    ensures
        in_recency_order(s) == s,
{
    lemma_insert_all_sorted(Seq::empty(), s);
    assert(Seq::<EntryView>::empty() + s =~= s);
}

proof fn lemma_insert_all_sorted(acc: Seq<EntryView>, s: Seq<EntryView>)
    requires
        newest_first(acc + s),
    ensures
        insert_all(acc, s) == acc + s,
    decreases s.len(),
{
    if s.len() > 0 {
        let whole = acc + s;
        assert forall|k: int| 0 <= k < acc.len() implies newer(#[trigger] acc[k], s[0]) by {
            assert(whole[k] == acc[k] && whole[acc.len() as int] == s[0]);
        }
        lemma_insert_oldest(acc, s[0]);
        assert(acc.push(s[0]) + s.drop_first() =~= whole);
        lemma_insert_all_sorted(acc.push(s[0]), s.drop_first());
    }
}

/// The retention rule splits the entries: every entry is kept or evicted, and
/// only unpinned entries are evicted.
pub proof fn lemma_retention_splits(s: Seq<EntryView>, budget: nat)
    ensures
        retained(s, budget).len() + evicted(s, budget).len() == s.len(),
        forall|k: int| 0 <= k < evicted(s, budget).len() ==> !(#[trigger] evicted(s, budget)[k]).pinned,
    decreases s.len(),
{
    if s.len() > 0 {
        let t = s.drop_first();
        let b = if s[0].pinned || budget == 0 { budget } else { (budget - 1) as nat };
        lemma_retention_splits(t, b);
        let ev = evicted(s, budget);
        assert forall|k: int| 0 <= k < ev.len() implies !(#[trigger] ev[k]).pinned by {
            if !s[0].pinned && budget == 0 {
                if k > 0 {
                    assert(ev[k] == evicted(t, b)[k - 1]);
                }
            } else {
                assert(ev[k] == evicted(t, b)[k]);
            }
        }
    }
}

/// Where `insert_in_order` puts `e`: after the entries newer than it.
pub open spec fn insert_position(s: Seq<EntryView>, e: EntryView) -> nat
    decreases s.len(),
{
    if s.len() > 0 && newer(s[0], e) {
        1 + insert_position(s.drop_first(), e)
    } else {
        0
    }
}

proof fn lemma_insert_position(s: Seq<EntryView>, e: EntryView)
    ensures
        insert_position(s, e) <= s.len(),
        forall|j: int| 0 <= j < insert_position(s, e) ==> newer(#[trigger] s[j], e),
        insert_position(s, e) == s.len() || !newer(s[insert_position(s, e) as int], e),
    decreases s.len(),
{
    if s.len() > 0 && newer(s[0], e) {
        let t = s.drop_first();
        lemma_insert_position(t, e);
        assert forall|j: int| 0 <= j < insert_position(s, e) implies newer(#[trigger] s[j], e) by {
            if j > 0 {
                assert(s[j] == t[j - 1]);
            }
        }
        if insert_position(s, e) < s.len() {
            assert(s[insert_position(s, e) as int] == t[insert_position(t, e) as int]);
        }
    }
}

/// Every entry that the retention rule evicts was there before.
proof fn lemma_evicted_within(s: Seq<EntryView>, budget: nat)
    ensures
        forall|k: int| 0 <= k < evicted(s, budget).len() ==> s.contains(#[trigger] evicted(s, budget)[k]),
    decreases s.len(),
{
    if s.len() > 0 {
        let t = s.drop_first();
        let b = if s[0].pinned || budget == 0 { budget } else { (budget - 1) as nat };
        lemma_evicted_within(t, b);
        let r = evicted(s, budget);
        assert forall|k: int| 0 <= k < r.len() implies s.contains(#[trigger] r[k]) by {
            if !s[0].pinned && budget == 0 {
                if k == 0 {
                    assert(s[0] == r[0]);
                } else {
                    assert(r[k] == evicted(t, b)[k - 1]);
                    let m = choose|m: int| 0 <= m < t.len() && t[m] == r[k];
                    assert(s[m + 1] == r[k]);
                }
            } else {
                assert(r[k] == evicted(t, b)[k]);
                let m = choose|m: int| 0 <= m < t.len() && t[m] == r[k];
                assert(s[m + 1] == r[k]);
            }
        }
    }
}

/// With no budget left, the retention rule keeps pinned entries only.
proof fn lemma_retained_without_budget(s: Seq<EntryView>)
    ensures
        forall|k: int| 0 <= k < retained(s, 0).len() ==> (#[trigger] retained(s, 0)[k]).pinned,
    decreases s.len(),
{
    if s.len() > 0 {
        let t = s.drop_first();
        lemma_retained_without_budget(t);
        let r = retained(s, 0);
        assert forall|k: int| 0 <= k < r.len() implies (#[trigger] r[k]).pinned by {
            if s[0].pinned {
                if k > 0 {
                    assert(r[k] == retained(t, 0)[k - 1]);
                }
            } else {
                assert(r[k] == retained(t, 0)[k]);
            }
        }
    }
}

/// The retention rule evicts the oldest unpinned entries: every evicted entry
/// is older, by creation time and then id, than every unpinned entry it keeps.
pub proof fn lemma_evicted_older_than_kept(s: Seq<EntryView>, budget: nat)
    requires
        newest_first(s),
    ensures
        forall|i: int, j: int|
            0 <= i < evicted(s, budget).len() && 0 <= j < retained(s, budget).len() && !(
            #[trigger] retained(s, budget)[j]).pinned ==> newer(
                retained(s, budget)[j],
                #[trigger] evicted(s, budget)[i],
            ),
    decreases s.len(),
{
    if s.len() > 0 {
        let t = s.drop_first();
        assert forall|a: int, b: int| 0 <= a < b < t.len() implies newer(#[trigger] t[a], #[trigger] t[b]) by {
            assert(t[a] == s[a + 1] && t[b] == s[b + 1]);
        }
        let b = if s[0].pinned || budget == 0 { budget } else { (budget - 1) as nat };
        lemma_evicted_older_than_kept(t, b);
        let ev = evicted(s, budget);
        let kept = retained(s, budget);
        let ev_t = evicted(t, b);
        let kept_t = retained(t, b);
        if s[0].pinned {
            assert forall|i: int, j: int|
                0 <= i < ev.len() && 0 <= j < kept.len() && !(#[trigger] kept[j]).pinned implies newer(
                kept[j],
                #[trigger] ev[i],
            ) by {
                assert(ev[i] == ev_t[i]);
                assert(j > 0);
                assert(kept[j] == kept_t[j - 1]);
            }
        } else if budget > 0 {
            lemma_evicted_within(t, b);
            assert forall|i: int, j: int|
                0 <= i < ev.len() && 0 <= j < kept.len() && !(#[trigger] kept[j]).pinned implies newer(
                kept[j],
                #[trigger] ev[i],
            ) by {
                assert(ev[i] == ev_t[i]);
                if j == 0 {
                    assert(t.contains(ev_t[i]));
                    let m = choose|m: int| 0 <= m < t.len() && t[m] == ev_t[i];
                    assert(s[m + 1] == ev[i]);
                    assert(kept[0] == s[0]);
                } else {
                    assert(kept[j] == kept_t[j - 1]);
                }
            }
        } else {
            lemma_retained_without_budget(t);
            assert forall|i: int, j: int|
                0 <= i < ev.len() && 0 <= j < kept.len() && !(#[trigger] kept[j]).pinned implies newer(
                kept[j],
                #[trigger] ev[i],
            ) by {
                assert(kept[j] == kept_t[j]);
                if i > 0 {
                    assert(ev[i] == ev_t[i - 1]);
                }
            }
        }
    }
}

/// Recording an entry evicts the oldest unpinned entries: every entry it evicts
/// is older than every unpinned entry that stays.
pub proof fn lemma_insert_evicts_oldest(s: Seq<EntryView>, e: EntryView, last_id: i64)
    requires
        history_ok(s, last_id),
        last_id < e.id,
    ensures
        forall|i: int, j: int|
            0 <= i < evicted(insert_in_order(s, e), HISTORY_LIMIT as nat).len() && 0 <= j
                < after_insert(s, e).len() && !(#[trigger] after_insert(s, e)[j]).pinned ==> newer(
                after_insert(s, e)[j],
                #[trigger] evicted(insert_in_order(s, e), HISTORY_LIMIT as nat)[i],
            ),
{
    let p = insert_position(s, e);
    lemma_insert_position(s, e);
    lemma_insert_in_order_at(s, e, p as int);
    lemma_insert_ok(s, e, p as int, last_id);
    lemma_evicted_older_than_kept(insert_in_order(s, e), HISTORY_LIMIT as nat);
}

/// A content hash is known to the history exactly when some entry, at any
/// place in it, has that hash: an entry at index `i` makes its hash known, and
/// a known hash is carried by some entry.
pub proof fn lemma_hash_known_anywhere(s: Seq<EntryView>, hash: Seq<char>, i: int)
    ensures
        0 <= i < s.len() && s[i].content_hash == hash ==> has_hash(s, hash),
        has_hash(s, hash) ==> exists|k: int| 0 <= k < s.len() && #[trigger] s[k].content_hash == hash,
        s.len() == 0 ==> !has_hash(s, hash),
{
}

} // verus!
