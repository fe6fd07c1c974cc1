//! The history as values: what each operation makes of the entries, and the
//! facts about it that the operations' proofs use.
use super::HISTORY_LIMIT;
use crate::domain::{ClipboardEntry, EntryKind, EntryView};
use vstd::prelude::*;

verus! {

/// `a` comes before `b` in the history: it was created later, or at the same
/// time with a larger id.
pub open spec fn newer(a: EntryView, b: EntryView) -> bool {
    a.created_at > b.created_at || (a.created_at == b.created_at && a.id > b.id)
}

/// The entries are listed newest first.
pub open spec fn newest_first(s: Seq<EntryView>) -> bool {
    forall|i: int, j: int| 0 <= i < j < s.len() ==> newer(#[trigger] s[i], #[trigger] s[j])
}

/// No two entries share an id.
pub open spec fn distinct_ids(s: Seq<EntryView>) -> bool {
    forall|i: int, j: int| 0 <= i < s.len() && 0 <= j < s.len() && i != j ==> #[trigger] s[i].id != #[trigger] s[j].id
}

/// Every id is at most `last_id`.
pub open spec fn ids_at_most(s: Seq<EntryView>, last_id: i64) -> bool {
    forall|i: int| 0 <= i < s.len() ==> #[trigger] s[i].id <= last_id
}

/// The shape every history has.
pub open spec fn history_ok(s: Seq<EntryView>, last_id: i64) -> bool {
    &&& newest_first(s)
    &&& distinct_ids(s)
    &&& ids_at_most(s, last_id)
}

/// `s` with `e` put in its place by recency.
pub open spec fn insert_in_order(s: Seq<EntryView>, e: EntryView) -> Seq<EntryView>
    decreases s.len(),
{
    if s.len() == 0 {
        seq![e]
    } else if newer(s[0], e) {
        seq![s[0]] + insert_in_order(s.drop_first(), e)
    } else {
        seq![e] + s
    }
}

/// The entries that the retention rule keeps: every pinned entry, and the first
/// `budget` unpinned ones.
pub open spec fn retained(s: Seq<EntryView>, budget: nat) -> Seq<EntryView>
    decreases s.len(),
{
    if s.len() == 0 {
        s
    } else if s[0].pinned {
        seq![s[0]] + retained(s.drop_first(), budget)
    } else if budget > 0 {
        seq![s[0]] + retained(s.drop_first(), (budget - 1) as nat)
    } else {
        retained(s.drop_first(), budget)
    }
}

/// The entries that the retention rule removes: the unpinned ones after the
/// first `budget` unpinned ones.
pub open spec fn evicted(s: Seq<EntryView>, budget: nat) -> Seq<EntryView>
    decreases s.len(),
{
    if s.len() == 0 {
        s
    } else if s[0].pinned {
        evicted(s.drop_first(), budget)
    } else if budget > 0 {
        evicted(s.drop_first(), (budget - 1) as nat)
    } else {
        seq![s[0]] + evicted(s.drop_first(), budget)
    }
}

/// The ids of some entries.
pub open spec fn ids_of(s: Seq<EntryView>) -> Seq<i64> {
    s.map_values(|e: EntryView| e.id)
}

/// The entries of `s` other than the one with id `id`.
pub open spec fn without_id(s: Seq<EntryView>, id: i64) -> Seq<EntryView>
    decreases s.len(),
{
    if s.len() == 0 {
        s
    } else if s[0].id == id {
        without_id(s.drop_first(), id)
    } else {
        seq![s[0]] + without_id(s.drop_first(), id)
    }
}

/// The pinned entries of `s`.
pub open spec fn pinned_only(s: Seq<EntryView>) -> Seq<EntryView>
    decreases s.len(),
{
    if s.len() == 0 {
        s
    } else if s[0].pinned {
        seq![s[0]] + pinned_only(s.drop_first())
    } else {
        pinned_only(s.drop_first())
    }
}

/// The unpinned entries of `s`.
pub open spec fn unpinned_only(s: Seq<EntryView>) -> Seq<EntryView>
    decreases s.len(),
{
    if s.len() == 0 {
        s
    } else if s[0].pinned {
        unpinned_only(s.drop_first())
    } else {
        seq![s[0]] + unpinned_only(s.drop_first())
    }
}

/// Whether an entry of `s` has the id `id`.
pub open spec fn has_id(s: Seq<EntryView>, id: i64) -> bool {
    exists|k: int| 0 <= k < s.len() && #[trigger] s[k].id == id
}

/// `e` with its pin flipped when its id is `id`.
pub open spec fn toggled_entry(e: EntryView, id: i64) -> EntryView {
    if e.id == id {
        EntryView { pinned: !e.pinned, ..e }
    } else {
        e
    }
}

/// `s` with the pin of the entry with id `id` flipped.
pub open spec fn with_pin_toggled(s: Seq<EntryView>, id: i64) -> Seq<EntryView> {
    s.map_values(|e: EntryView| toggled_entry(e, id))
}

/// How many entries of `s` are unpinned.
pub open spec fn count_unpinned(s: Seq<EntryView>) -> nat
    decreases s.len(),
{
    if s.len() == 0 {
        0
    } else {
        (if s[0].pinned {
            0nat
        } else {
            1nat
        }) + count_unpinned(s.drop_first())
    }
}

/// The first `limit` entries of `s`, or all of them when there are fewer.
pub open spec fn most_recent(s: Seq<EntryView>, limit: nat) -> Seq<EntryView> {
    if limit < s.len() {
        s.take(limit as int)
    } else {
        s
    }
}

/// Some entries put in recency order, one after another, into `acc`.
pub open spec fn insert_all(acc: Seq<EntryView>, s: Seq<EntryView>) -> Seq<EntryView>
    decreases s.len(),
{
    if s.len() == 0 {
        acc
    } else {
        insert_all(insert_in_order(acc, s[0]), s.drop_first())
    }
}

/// Some entries in recency order, newest first.
pub open spec fn in_recency_order(s: Seq<EntryView>) -> Seq<EntryView> {
    insert_all(Seq::empty(), s)
}

/// Whether some entry of `s` has the content hash `hash`.
pub open spec fn has_hash(s: Seq<EntryView>, hash: Seq<char>) -> bool {
    exists|i: int| 0 <= i < s.len() && #[trigger] s[i].content_hash == hash
}

/// The entry that recording a text adds.
pub open spec fn text_entry(id: i64, text: Seq<char>, content_hash: Seq<char>, now: i64) -> EntryView {
    EntryView {
        id,
        kind: EntryKind::Text,
        text: Some(text),
        image: None,
        content_hash,
        pinned: false,
        created_at: now,
    }
}

/// The entry that recording an image adds.
pub open spec fn image_entry(
    id: i64,
    rgba: Seq<u8>,
    width: i64,
    height: i64,
    content_hash: Seq<char>,
    now: i64,
) -> EntryView {
    EntryView {
        id,
        kind: EntryKind::Image,
        text: None,
        image: Some(crate::domain::ImageView { rgba, width, height }),
        content_hash,
        pinned: false,
        created_at: now,
    }
}

/// The history after adding `e` and applying the retention rule.
pub open spec fn after_insert(s: Seq<EntryView>, e: EntryView) -> Seq<EntryView> {
    retained(insert_in_order(s, e), HISTORY_LIMIT as nat)
}

/// The ids that adding `e` makes the retention rule remove.
pub open spec fn evicted_by_insert(s: Seq<EntryView>, e: EntryView) -> Seq<i64> {
    ids_of(evicted(insert_in_order(s, e), HISTORY_LIMIT as nat))
}

/// The largest of `floor` and the ids of `s`.
pub open spec fn largest_id(s: Seq<EntryView>, floor: i64) -> i64
    decreases s.len(),
{
    if s.len() == 0 {
        floor
    } else {
        let m = largest_id(s.drop_last(), floor);
        if s.last().id > m {
            s.last().id
        } else {
            m
        }
    }
}

pub open spec fn views(v: Seq<ClipboardEntry>) -> Seq<EntryView> {
    v.map_values(|e: ClipboardEntry| e@)
}

/// Dropping the first entry keeps the shape of a history.
pub proof fn lemma_drop_first_ok(s: Seq<EntryView>, last_id: i64)
    requires
        history_ok(s, last_id),
        s.len() > 0,
    ensures
        history_ok(s.drop_first(), last_id),
{
    let t = s.drop_first();
    assert forall|i: int, j: int| 0 <= i < j < t.len() implies newer(#[trigger] t[i], #[trigger] t[j]) by {
        assert(t[i] == s[i + 1] && t[j] == s[j + 1]);
    }
    assert forall|i: int, j: int| 0 <= i < t.len() && 0 <= j < t.len() && i != j implies #[trigger] t[i].id != #[trigger] t[j].id by {
        assert(t[i] == s[i + 1] && t[j] == s[j + 1]);
    }
    assert forall|i: int| 0 <= i < t.len() implies #[trigger] t[i].id <= last_id by {
        assert(t[i] == s[i + 1]);
    }
}

/// Putting the first entry of a history in front of a history made of some of
/// its other entries gives a history.
pub proof fn lemma_cons_ok(s: Seq<EntryView>, rest: Seq<EntryView>, last_id: i64)
    requires
        history_ok(s, last_id),
        s.len() > 0,
        history_ok(rest, last_id),
        forall|k: int| 0 <= k < rest.len() ==> s.drop_first().contains(#[trigger] rest[k]),
    ensures
        history_ok(seq![s[0]] + rest, last_id),
{
    let r = seq![s[0]] + rest;
    let t = s.drop_first();
    assert forall|k: int| 0 <= k < rest.len() implies newer(s[0], #[trigger] rest[k]) && s[0].id
        != rest[k].id by {
        assert(t.contains(rest[k]));
        let m = choose|m: int| 0 <= m < t.len() && t[m] == rest[k];
        assert(t[m] == s[m + 1]);
        assert(newer(s[0], s[m + 1]));
        assert(s[0].id != s[m + 1].id);
    }
    assert forall|i: int, j: int| 0 <= i < j < r.len() implies newer(#[trigger] r[i], #[trigger] r[j]) by {
        if i == 0 {
            assert(r[j] == rest[j - 1]);
        } else {
            assert(r[i] == rest[i - 1] && r[j] == rest[j - 1]);
        }
    }
    assert forall|i: int, j: int| 0 <= i < r.len() && 0 <= j < r.len() && i != j implies #[trigger] r[i].id != #[trigger] r[j].id by {
        if i == 0 {
            assert(r[j] == rest[j - 1]);
        } else if j == 0 {
            assert(r[i] == rest[i - 1]);
        } else {
            assert(r[i] == rest[i - 1] && r[j] == rest[j - 1]);
        }
    }
    assert forall|i: int| 0 <= i < r.len() implies #[trigger] r[i].id <= last_id by {
        if i > 0 {
            assert(r[i] == rest[i - 1]);
        }
    }
}

/// Every entry that the retention rule keeps was there before.
pub proof fn lemma_retained_within(s: Seq<EntryView>, budget: nat)
    ensures
        forall|k: int| 0 <= k < retained(s, budget).len() ==> s.contains(#[trigger] retained(s, budget)[k]),
    decreases s.len(),
{
    if s.len() > 0 {
        let t = s.drop_first();
        let b = if s[0].pinned || budget == 0 { budget } else { (budget - 1) as nat };
        lemma_retained_within(t, b);
        let r = retained(s, budget);
        assert forall|k: int| 0 <= k < r.len() implies s.contains(#[trigger] r[k]) by {
            if (s[0].pinned || budget > 0) {
                if k == 0 {
                    assert(s[0] == r[0]);
                } else {
                    assert(r[k] == retained(t, b)[k - 1]);
                    let m = choose|m: int| 0 <= m < t.len() && t[m] == r[k];
                    assert(s[m + 1] == r[k]);
                }
            } else {
                assert(r[k] == retained(t, b)[k]);
                let m = choose|m: int| 0 <= m < t.len() && t[m] == r[k];
                assert(s[m + 1] == r[k]);
            }
        }
    }
}

/// The retention rule keeps the shape of a history.
pub proof fn lemma_retained_ok(s: Seq<EntryView>, budget: nat, last_id: i64)
    requires
        history_ok(s, last_id),
    ensures
        history_ok(retained(s, budget), last_id),
    decreases s.len(),
{
    if s.len() > 0 {
        let t = s.drop_first();
        let b = if s[0].pinned || budget == 0 { budget } else { (budget - 1) as nat };
        lemma_drop_first_ok(s, last_id);
        lemma_retained_ok(t, b, last_id);
        if s[0].pinned || budget > 0 {
            lemma_retained_within(t, b);
            lemma_cons_ok(s, retained(t, b), last_id);
        }
    }
}

/// Where `insert_in_order` puts an entry, given where the newer entries end.
pub proof fn lemma_insert_in_order_at(s: Seq<EntryView>, e: EntryView, i: int)
    requires
        0 <= i <= s.len(),
        forall|j: int| 0 <= j < i ==> newer(#[trigger] s[j], e),
        i == s.len() || !newer(s[i], e),
    ensures
        insert_in_order(s, e) == s.insert(i, e),
    decreases i,
{
    if i == 0 {
        assert(insert_in_order(s, e) =~= s.insert(0, e));
    } else {
        let t = s.drop_first();
        assert forall|j: int| 0 <= j < i - 1 implies newer(#[trigger] t[j], e) by {
            assert(t[j] == s[j + 1]);
        }
        lemma_insert_in_order_at(t, e, i - 1);
        assert(insert_in_order(s, e) =~= s.insert(i, e));
    }
}

/// Inserting an entry with a fresh, larger id at its place keeps the shape of a
/// history.
pub proof fn lemma_insert_ok(s: Seq<EntryView>, e: EntryView, i: int, last_id: i64)
    requires
        history_ok(s, last_id),
        last_id < e.id,
        0 <= i <= s.len(),
        forall|j: int| 0 <= j < i ==> newer(#[trigger] s[j], e),
        i == s.len() || !newer(s[i], e),
    ensures
        history_ok(s.insert(i, e), e.id),
{
    let r = s.insert(i, e);
    assert forall|j: int| i <= j < s.len() implies newer(e, #[trigger] s[j]) by {
        assert(s[j].id <= last_id);
        if j > i {
            assert(newer(s[i], s[j]));
        }
    }
    assert forall|a: int, b: int| 0 <= a < b < r.len() implies newer(#[trigger] r[a], #[trigger] r[b]) by {
        if a < i {
            if b < i {
                assert(r[a] == s[a] && r[b] == s[b]);
            } else if b == i {
                assert(r[a] == s[a]);
            } else {
                assert(r[a] == s[a] && r[b] == s[b - 1]);
            }
        } else if a == i {
            assert(r[b] == s[b - 1]);
        } else {
            assert(r[a] == s[a - 1] && r[b] == s[b - 1]);
        }
    }
    assert forall|a: int, b: int| 0 <= a < r.len() && 0 <= b < r.len() && a != b implies #[trigger] r[a].id != #[trigger] r[b].id by {
        let x = if a < i { a } else { a - 1 };
        let y = if b < i { b } else { b - 1 };
        if a != i && b != i {
            assert(r[a] == s[x] && r[b] == s[y]);
        } else if a == i {
            assert(r[b] == s[y]);
            assert(s[y].id <= last_id);
        } else {
            assert(r[a] == s[x]);
            assert(s[x].id <= last_id);
        }
    }
    assert forall|a: int| 0 <= a < r.len() implies #[trigger] r[a].id <= e.id by {
        if a < i {
            assert(r[a] == s[a]);
        } else if a > i {
            assert(r[a] == s[a - 1]);
        }
    }
}

/// Every entry left after removing an id was there before.
pub proof fn lemma_without_id_within(s: Seq<EntryView>, id: i64)
    ensures
        forall|k: int| 0 <= k < without_id(s, id).len() ==> s.contains(#[trigger] without_id(s, id)[k]),
    decreases s.len(),
{
    if s.len() > 0 {
        let t = s.drop_first();
        lemma_without_id_within(t, id);
        let r = without_id(s, id);
        assert forall|k: int| 0 <= k < r.len() implies s.contains(#[trigger] r[k]) by {
            if s[0].id != id && k == 0 {
                assert(s[0] == r[0]);
            } else {
                let k2 = if s[0].id != id { k - 1 } else { k };
                assert(r[k] == without_id(t, id)[k2]);
                let m = choose|m: int| 0 <= m < t.len() && t[m] == r[k];
                assert(s[m + 1] == r[k]);
            }
        }
    }
}

/// Removing an id keeps the shape of a history.
pub proof fn lemma_without_id_ok(s: Seq<EntryView>, id: i64, last_id: i64)
    requires
        history_ok(s, last_id),
    ensures
        history_ok(without_id(s, id), last_id),
    decreases s.len(),
{
    if s.len() > 0 {
        let t = s.drop_first();
        lemma_drop_first_ok(s, last_id);
        lemma_without_id_ok(t, id, last_id);
        if s[0].id != id {
            lemma_without_id_within(t, id);
            lemma_cons_ok(s, without_id(t, id), last_id);
        }
    }
}

/// Every pinned entry kept was there before.
pub proof fn lemma_pinned_only_within(s: Seq<EntryView>)
    ensures
        forall|k: int| 0 <= k < pinned_only(s).len() ==> s.contains(#[trigger] pinned_only(s)[k]),
    decreases s.len(),
{
    if s.len() > 0 {
        let t = s.drop_first();
        lemma_pinned_only_within(t);
        let r = pinned_only(s);
        assert forall|k: int| 0 <= k < r.len() implies s.contains(#[trigger] r[k]) by {
            if s[0].pinned && k == 0 {
                assert(s[0] == r[0]);
            } else {
                let k2 = if s[0].pinned { k - 1 } else { k };
                assert(r[k] == pinned_only(t)[k2]);
                let m = choose|m: int| 0 <= m < t.len() && t[m] == r[k];
                assert(s[m + 1] == r[k]);
            }
        }
    }
}

/// Keeping only the pinned entries keeps the shape of a history.
pub proof fn lemma_pinned_only_ok(s: Seq<EntryView>, last_id: i64)
    requires
        history_ok(s, last_id),
    ensures
        history_ok(pinned_only(s), last_id),
    decreases s.len(),
{
    if s.len() > 0 {
        let t = s.drop_first();
        lemma_drop_first_ok(s, last_id);
        lemma_pinned_only_ok(t, last_id);
        if s[0].pinned {
            lemma_pinned_only_within(t);
            lemma_cons_ok(s, pinned_only(t), last_id);
        }
    }
}

/// What an insertion holds.
pub proof fn lemma_insert_contains(s: Seq<EntryView>, i: int, e: EntryView)
    requires
        0 <= i <= s.len(),
    ensures
        forall|x: EntryView| #[trigger] s.insert(i, e).contains(x) <==> (s.contains(x) || x == e),
{
    let r = s.insert(i, e);
    assert forall|x: EntryView| #[trigger] r.contains(x) <==> (s.contains(x) || x == e) by {
        if r.contains(x) {
            let m = choose|m: int| 0 <= m < r.len() && r[m] == x;
            if m < i {
                assert(s[m] == x);
            } else if m > i {
                assert(s[m - 1] == x);
            }
        }
        if s.contains(x) {
            let m = choose|m: int| 0 <= m < s.len() && s[m] == x;
            if m < i {
                assert(r[m] == x);
            } else {
                assert(r[m + 1] == x);
            }
        }
        if x == e {
            assert(r[i] == x);
        }
    }
}

/// Inserting an entry whose id is not yet used at its place keeps the entries
/// newest first and their ids distinct.
pub proof fn lemma_insert_sorted(s: Seq<EntryView>, e: EntryView, i: int)
    requires
        newest_first(s),
        distinct_ids(s),
        forall|k: int| 0 <= k < s.len() ==> #[trigger] s[k].id != e.id,
        0 <= i <= s.len(),
        forall|j: int| 0 <= j < i ==> newer(#[trigger] s[j], e),
        i == s.len() || !newer(s[i], e),
    ensures
        newest_first(s.insert(i, e)),
        distinct_ids(s.insert(i, e)),
{
    let r = s.insert(i, e);
    assert forall|j: int| i <= j < s.len() implies newer(e, #[trigger] s[j]) by {
        if j > i {
            assert(newer(s[i], s[j]));
        }
    }
    assert forall|a: int, b: int| 0 <= a < b < r.len() implies newer(#[trigger] r[a], #[trigger] r[b]) by {
        if a < i {
            if b < i {
                assert(r[a] == s[a] && r[b] == s[b]);
            } else if b == i {
                assert(r[a] == s[a]);
            } else {
                assert(r[a] == s[a] && r[b] == s[b - 1]);
            }
        } else if a == i {
            assert(r[b] == s[b - 1]);
        } else {
            assert(r[a] == s[a - 1] && r[b] == s[b - 1]);
        }
    }
    assert forall|a: int, b: int| 0 <= a < r.len() && 0 <= b < r.len() && a != b implies #[trigger] r[a].id != #[trigger] r[b].id by {
        let x = if a < i { a } else { a - 1 };
        let y = if b < i { b } else { b - 1 };
        if a != i && b != i {
            assert(r[a] == s[x] && r[b] == s[y]);
        } else if a == i {
            assert(r[b] == s[y]);
        } else {
            assert(r[a] == s[x]);
        }
    }
}

/// Every id is at most `largest_id`.
pub proof fn lemma_largest_id_bounds(s: Seq<EntryView>, floor: i64)
    ensures
        ids_at_most(s, largest_id(s, floor)),
        floor <= largest_id(s, floor),
    decreases s.len(),
{
    if s.len() > 0 {
        let t = s.drop_last();
        lemma_largest_id_bounds(t, floor);
        assert forall|i: int| 0 <= i < s.len() implies #[trigger] s[i].id <= largest_id(s, floor) by {
            if i < t.len() {
                assert(s[i] == t[i]);
            }
        }
    }
}

} // verus!
