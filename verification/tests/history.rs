use cross_platform_clipboard::history::{ClipboardHistory, HistoryError, HISTORY_LIMIT};

#[test]
fn persists_and_loads_text_entries() {
    let mut history = ClipboardHistory::new();

    history.insert_text("première copie", "hash-1", 100).unwrap();
    let entries = history.list_recent(10).unwrap();

    assert_eq!(entries.len(), 1);
    assert_eq!(entries[0].text.as_deref(), Some("première copie"));
    assert_eq!(entries[0].content_hash, "hash-1");
}

#[test]
fn retains_only_the_200_newest_unpinned_entries() {
    let mut history = ClipboardHistory::new();

    for number in 0..205 {
        history
            .insert_text(&format!("copie-{number}"), &format!("hash-{number}"), 100)
            .unwrap();
    }

    let entries = history.list_recent(500).unwrap();
    assert_eq!(entries.len(), 200);
    assert_eq!(entries[0].text.as_deref(), Some("copie-204"));
}

#[test]
fn pinned_entries_survive_a_clear_and_can_be_unpinned() {
    let mut history = ClipboardHistory::new();
    history.insert_text("à garder", "keep", 100).unwrap();
    history.insert_text("à effacer", "remove", 100).unwrap();

    let pinned_id = history.list_recent(10).unwrap()[1].id;
    history.toggle_pinned(pinned_id);
    history.clear_unpinned();

    let entries = history.list_recent(10).unwrap();
    assert_eq!(entries.len(), 1);
    assert_eq!(entries[0].text.as_deref(), Some("à garder"));
    assert!(entries[0].pinned);

    history.toggle_pinned(pinned_id);
    assert!(!history.list_recent(10).unwrap()[0].pinned);
}

#[test]
fn ids_count_up_and_evictions_are_reported() {
    let mut history = ClipboardHistory::new();
    let mut evicted = Vec::new();
    for number in 0..(HISTORY_LIMIT as i64 + 3) {
        let inserted = history
            .insert_text(&format!("t{number}"), &format!("h{number}"), number)
            .unwrap();
        assert_eq!(inserted.id, number + 1);
        evicted.extend(inserted.evicted);
    }
    assert_eq!(evicted, vec![1, 2, 3]);
    assert_eq!(history.len(), HISTORY_LIMIT);
    assert_eq!(history.last_assigned_id(), HISTORY_LIMIT as i64 + 3);
}

#[test]
fn pinned_entries_do_not_count_against_the_limit() {
    let mut history = ClipboardHistory::new();
    history.insert_text("pinned", "p", 0).unwrap();
    history.toggle_pinned(1);
    for number in 0..(HISTORY_LIMIT as i64 + 10) {
        history
            .insert_text(&format!("t{number}"), &format!("h{number}"), 1 + number)
            .unwrap();
    }
    let entries = history.list_recent(1000).unwrap();
    assert_eq!(entries.len(), HISTORY_LIMIT + 1);
    assert_eq!(entries.iter().filter(|e| !e.pinned).count(), HISTORY_LIMIT);
    assert_eq!(entries.last().unwrap().text.as_deref(), Some("pinned"));
}

#[test]
fn entries_are_listed_newest_first_by_time_then_id() {
    let mut history = ClipboardHistory::new();
    history.insert_text("a", "ha", 50).unwrap();
    history.insert_text("b", "hb", 10).unwrap();
    history.insert_text("c", "hc", 50).unwrap();
    history.insert_text("d", "hd", 30).unwrap();
    let texts: Vec<_> = history
        .list_recent(10)
        .unwrap()
        .into_iter()
        .map(|e| e.text.unwrap())
        .collect();
    assert_eq!(texts, vec!["c", "a", "d", "b"]);
    assert_eq!(history.list_recent(2).unwrap().len(), 2);
    assert_eq!(history.list_recent(0).unwrap().len(), 0);
}

#[test]
fn an_old_entry_beyond_the_limit_is_evicted_at_once() {
    let mut history = ClipboardHistory::new();
    for number in 0..(HISTORY_LIMIT as i64) {
        history
            .insert_text(&format!("t{number}"), &format!("h{number}"), 100)
            .unwrap();
    }
    let late = history.insert_text("from the past", "old", 1).unwrap();
    assert_eq!(late.evicted, vec![late.id]);
    assert!(!history.contains_hash("old"));
}

#[test]
fn delete_removes_only_that_entry() {
    let mut history = ClipboardHistory::new();
    history.insert_text("a", "ha", 1).unwrap();
    history.insert_text("b", "hb", 2).unwrap();
    history.delete_entry(1);
    history.delete_entry(42);
    let entries = history.list_recent(10).unwrap();
    assert_eq!(entries.len(), 1);
    assert_eq!(entries[0].id, 2);
    assert!(history.contains_hash("hb"));
    assert!(!history.contains_hash("ha"));
}

#[test]
fn images_are_recorded_with_their_pixels() {
    let mut history = ClipboardHistory::new();
    history.insert_image(&[10, 20, 30, 255], 1, 1, "img", 5).unwrap();
    let entry = &history.list_recent(1).unwrap()[0];
    let image = entry.image.as_ref().unwrap();
    assert_eq!(image.rgba, vec![10, 20, 30, 255]);
    assert_eq!((image.width, image.height), (1, 1));
    assert!(entry.text.is_none());
}

#[test]
fn a_limit_beyond_i64_is_refused() {
    let history = ClipboardHistory::new();
    if usize::MAX as u128 > i64::MAX as u128 {
        assert_eq!(history.list_recent(usize::MAX).unwrap_err(), HistoryError::LimitTooLarge);
    }
    let mut history = ClipboardHistory::new();
    if usize::MAX as u128 > i64::MAX as u128 {
        assert_eq!(
            history.remove_old_unpinned_entries(usize::MAX).unwrap_err(),
            HistoryError::LimitTooLarge
        );
    }
    assert_eq!(history.remove_old_unpinned_entries(0).unwrap(), Vec::<i64>::new());
}

#[test]
fn remove_old_unpinned_entries_keeps_the_newest() {
    let mut history = ClipboardHistory::new();
    for number in 0..5 {
        history
            .insert_text(&format!("t{number}"), &format!("h{number}"), number)
            .unwrap();
    }
    history.toggle_pinned(1);
    let gone = history.remove_old_unpinned_entries(2).unwrap();
    assert_eq!(gone, vec![3, 2]);
    let ids: Vec<_> = history.list_recent(10).unwrap().iter().map(|e| e.id).collect();
    assert_eq!(ids, vec![5, 4, 1]);
}

#[test]
fn ids_run_out_at_i64_max() {
    let history = ClipboardHistory::from_entries(Vec::new(), i64::MAX).unwrap();
    let mut history = history;
    assert_eq!(
        history.insert_text("x", "h", 0).unwrap_err(),
        HistoryError::IdsExhausted
    );
    assert_eq!(history.len(), 0);
}

#[test]
fn a_reloaded_history_keeps_its_entries_in_order() {
    let mut history = ClipboardHistory::new();
    history.insert_text("a", "ha", 3).unwrap();
    history.insert_text("b", "hb", 1).unwrap();
    history.insert_text("c", "hc", 2).unwrap();
    history.toggle_pinned(2);
    let mut stored = history.list_recent(10).unwrap();
    stored.reverse();
    let reloaded = ClipboardHistory::from_entries(stored, 7).unwrap();
    let ids: Vec<_> = reloaded.list_recent(10).unwrap().iter().map(|e| (e.id, e.pinned)).collect();
    assert_eq!(ids, vec![(1, false), (3, false), (2, true)]);
    assert_eq!(reloaded.last_assigned_id(), 7);
    let reloaded = ClipboardHistory::from_entries(reloaded.list_recent(10).unwrap(), 0).unwrap();
    assert_eq!(reloaded.last_assigned_id(), 3);
}

#[test]
fn a_duplicate_id_is_refused_on_reload() {
    let mut history = ClipboardHistory::new();
    history.insert_text("a", "ha", 3).unwrap();
    let mut stored = history.list_recent(10).unwrap();
    stored.push(stored[0].clone());
    assert_eq!(
        ClipboardHistory::from_entries(stored, 0).unwrap_err(),
        HistoryError::DuplicateId
    );
}

#[test]
fn operations_report_what_they_changed() {
    let mut history = ClipboardHistory::new();
    history.insert_text("a", "ha", 1).unwrap();
    history.insert_text("b", "hb", 2).unwrap();
    history.insert_text("c", "hc", 3).unwrap();
    assert_eq!(history.toggle_pinned(2), Some(true));
    assert_eq!(history.toggle_pinned(9), None);
    assert!(history.delete_entry(1));
    assert!(!history.delete_entry(1));
    assert_eq!(history.clear_unpinned(), vec![3]);
    assert_eq!(history.clear_unpinned(), Vec::<i64>::new());
    assert_eq!(history.toggle_pinned(2), Some(false));
    assert!(history.get(2).is_some());
    assert!(history.get(3).is_none());
}

#[test]
fn eviction_removes_the_oldest_unpinned_entries() {
    let mut history = ClipboardHistory::new();
    let mut evicted = Vec::new();
    for number in 0..(HISTORY_LIMIT as i64 + 5) {
        let now = (number * 7) % 13;
        let inserted = history
            .insert_text(&format!("t{number}"), &format!("h{number}"), now)
            .unwrap();
        evicted.extend(inserted.evicted);
    }
    assert_eq!(evicted.len(), 5);
    let kept = history.list_recent(1000).unwrap();
    let oldest_kept = kept.last().unwrap();
    for id in evicted {
        let created_at = ((id - 1) * 7) % 13;
        assert!((created_at, id) < (oldest_kept.created_at, oldest_kept.id));
    }
}

#[test]
fn a_reload_gives_back_equal_entries() {
    let mut history = ClipboardHistory::new();
    history.insert_text("a", "ha", 3).unwrap();
    history.insert_image(&[1, 2, 3, 4], 1, 1, "hi", 1).unwrap();
    let before = history.list_recent(10).unwrap();
    let reloaded = ClipboardHistory::from_entries(before.clone(), history.last_assigned_id()).unwrap();
    assert_eq!(reloaded.list_recent(10).unwrap(), before);
}
