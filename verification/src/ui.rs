use crate::domain::ClipboardEntry;
use crate::history::model::{pinned_only, views};
use vstd::prelude::*;

verus! {

/// The pages of the window.
#[derive(Debug, Clone, Copy, PartialEq, Eq, Structural)]
pub enum Page {
    History,
    Pinned,
    Settings,
}

/// The entries a page lists: the pinned page lists the pinned entries only.
pub open spec fn page_entries(page: Page, entries: Seq<crate::domain::EntryView>) -> Seq<crate::domain::EntryView> {
    if page == Page::Pinned {
        pinned_only(entries)
    } else {
        entries
    }
}

/// The entries that `page` lists, in their order.
pub fn visible_entries(page: Page, entries: &Vec<ClipboardEntry>) -> (shown: Vec<ClipboardEntry>)
    ensures
        views(shown@) == page_entries(page, views(entries@)),
{
    let ghost all = views(entries@);
    let mut shown: Vec<ClipboardEntry> = Vec::new();
    let mut i: usize = 0;
    assert(all.skip(0) =~= all);
    assert(views(shown@) =~= Seq::<crate::domain::EntryView>::empty());
    assert(views(shown@) + page_entries(page, all.skip(0)) =~= page_entries(page, all));
    while i < entries.len()
        invariant
            i <= entries@.len(),
            all == views(entries@),
            page_entries(page, all) == views(shown@) + page_entries(page, all.skip(i as int)),
        decreases entries@.len() - i,
    {
        let ghost rest = all.skip(i as int);
        let ghost before = views(shown@);
        assert(rest[0] == all[i as int]);
        assert(rest.drop_first() =~= all.skip(i + 1));
        if page != Page::Pinned || entries[i].pinned {
            let copy = entries[i].clone();
            shown.push(copy);
            assert(views(shown@) =~= before.push(rest[0]));
            if page == Page::Pinned {
                assert(pinned_only(rest) == seq![rest[0]] + pinned_only(rest.drop_first()));
            } else {
                assert(rest =~= seq![rest[0]] + rest.drop_first());
            }
            assert(before + page_entries(page, rest) =~= views(shown@) + page_entries(page, all.skip(i + 1)));
        }
        i = i + 1;
    }
    assert(all.skip(i as int) =~= Seq::<crate::domain::EntryView>::empty());
    assert(views(shown@) =~= page_entries(page, all));
    shown
}

/// The heading of a list page.
pub fn heading(page: Page) -> (text: &'static str)
    ensures
        text == if page == Page::Pinned {
            "Pinned items"
        } else {
            "History"
        },
{
    if page == Page::Pinned {
        "Pinned items"
    } else {
        "History"
    }
}

/// What a list page says when it lists nothing.
pub fn empty_message(page: Page) -> (text: &'static str)
    ensures
        text == if page == Page::Pinned {
            "No pinned items yet."
        } else {
            "Just copy with Ctrl + C or Cmd + C"
        },
{
    if page == Page::Pinned {
        "No pinned items yet."
    } else {
        "Just copy with Ctrl + C or Cmd + C"
    }
}

/// The style class of the navigation button of `page` when `current` is shown.
pub fn nav_class(page: Page, current: Page) -> (class: &'static str)
    ensures
        class == if page == current {
            "nav-button active"
        } else {
            "nav-button"
        },
{
    if page == current {
        "nav-button active"
    } else {
        "nav-button"
    }
}

/// The `aria-current` value of the navigation button of `page`.
pub fn nav_aria_current(page: Page, current: Page) -> (value: &'static str)
    ensures
        value == if page == current {
            "page"
        } else {
            "false"
        },
{
    if page == current {
        "page"
    } else {
        "false"
    }
}

/// The label of the pin button of an entry.
pub fn pin_label(pinned: bool) -> (label: &'static str)
    ensures
        label == if pinned {
            "Unpin"
        } else {
            "Pin"
        },
{
    if pinned {
        "Unpin"
    } else {
        "Pin"
    }
}

/// What saving the start-at-login setting reports when it worked.
pub fn autostart_saved_message(start_at_login: bool) -> (text: &'static str)
    ensures
        text == if start_at_login {
            "Autostart enabled"
        } else {
            "Autostart disabled"
        },
{
    if start_at_login {
        "Autostart enabled"
    } else {
        "Autostart disabled"
    }
}

/// The notification line: the message shown, and the number of the last
/// notification, which lets a later clearing know whether it is still current.
pub struct Notifications {
    last: u64,
    status: String,
}

impl Notifications {
    pub closed spec fn last(&self) -> u64 {
        self.last
    }

    pub closed spec fn status(&self) -> Seq<char> {
        self.status@
    }

    /// No notification yet.
    pub fn new() -> (n: Self)
        ensures
            n.last() == 0,
            n.status() == Seq::<char>::empty(),
    {
        Notifications { last: 0, status: String::new() }
    }

    /// The message shown.
    pub fn status_text(&self) -> (text: &str)
        ensures
            text@ == self.status(),
    {
        self.status.as_str()
    }

    /// Shows `message`; returns its number, to clear it with later.
    pub fn show(&mut self, message: String) -> (id: u64)
        requires
            old(self).last() < u64::MAX,
        ensures
            id == old(self).last() + 1,
            final(self).last() == id,
            final(self).status() == message@,
    {
        self.last = self.last + 1;
        self.status = message;
        self.last
    }

    /// Clears the message if notification `id` is still the last one shown.
    pub fn expire(&mut self, id: u64)
        ensures
            final(self).last() == old(self).last(),
            final(self).status() == if id == old(self).last() {
                Seq::<char>::empty()
            } else {
                old(self).status()
            },
    {
        if self.last == id {
            self.status = String::new();
        }
    }
}

} // verus!
