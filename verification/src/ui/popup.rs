//! Selection state of the completion popup: scrolling and wrap-around navigation.
use crate::completion::matcher::ScoredCandidate;
use vstd::prelude::*;

verus! {

/// State for the autocomplete popup.
pub struct PopupState {
    /// All candidates (pre-filtered and scored).
    pub items: Vec<ScoredCandidate>,
    /// Currently selected index.
    pub selected: usize,
    /// Scroll offset (first visible item index).
    pub scroll_offset: usize,
    /// Maximum number of visible items.
    pub max_visible: usize,
    /// Whether the popup is active/visible.
    pub visible: bool,
}

/// The popup as plain values.
pub struct PopupView {
    pub items: Seq<ScoredCandidate>,
    pub selected: usize,
    pub scroll_offset: usize,
    pub max_visible: usize,
    pub visible: bool,
}

impl View for PopupState {
    type V = PopupView;

    open spec fn view(&self) -> PopupView {
        PopupView {
            items: self.items@,
            selected: self.selected,
            scroll_offset: self.scroll_offset,
            max_visible: self.max_visible,
            visible: self.visible,
        }
    }
}

/// The scroll offset after bringing `selected` into the window that starts at `offset`.
pub open spec fn scrolled_offset(selected: int, offset: int, max_visible: int) -> int {
    if selected < offset {
        selected
    } else if selected >= offset + max_visible {
        selected - max_visible + 1
    } else {
        offset
    }
}

/// Whether bringing `selected` into the window at `offset` stays in range:
/// the window's end is only computed when `selected` is not before it, and
/// the new offset only when `selected` is past the window.
pub open spec fn window_fits(selected: int, offset: int, max_visible: int) -> bool {
    selected < offset || (offset + max_visible <= usize::MAX && (selected >= offset + max_visible
        ==> selected - max_visible + 1 <= usize::MAX))
}

/// Where a re-filtered list keeps the selection: the first item named like
/// the one selected before, if there was a selected item and one is so named.
pub open spec fn kept_index(
    old_items: Seq<ScoredCandidate>,
    old_selected: int,
    items: Seq<ScoredCandidate>,
) -> Option<int> {
    if 0 <= old_selected < old_items.len() {
        first_named(items, old_items[old_selected].candidate.name@, 0)
    } else {
        None
    }
}

/// The selection after a page down in a list of `len` items.
pub open spec fn page_down_index(selected: int, max_visible: int, len: int) -> int {
    if selected + max_visible < len - 1 {
        selected + max_visible
    } else {
        len - 1
    }
}

/// The selection after a page up.
pub open spec fn page_up_index(selected: int, max_visible: int) -> int {
    if selected >= max_visible {
        selected - max_visible
    } else {
        0
    }
}

/// Index of the first item whose name is `name`, if any.
pub open spec fn first_named(items: Seq<ScoredCandidate>, name: Seq<char>, i: int) -> Option<int>
    decreases items.len() - i,
{
    if i < 0 || i >= items.len() {
        None
    } else if items[i].candidate.name@ == name {
        Some(i)
    } else {
        first_named(items, name, i + 1)
    }
}

/// The selection after moving down in a list of `len` items.
pub open spec fn next_index(selected: int, len: int) -> int {
    (selected + 1) % len
}

/// The selection after moving up in a list of `len` items.
pub open spec fn prev_index(selected: int, len: int) -> int {
    if selected == 0 {
        len - 1
    } else {
        selected - 1
    }
}

impl PopupState {
    /// The selected item lies within the scroll window.
    pub open spec fn selection_visible(&self) -> bool {
        self.scroll_offset <= self.selected < self.scroll_offset + self.max_visible
    }

    pub fn new(max_visible: usize) -> (r: Self)
        ensures
            r.items@.len() == 0,
            r.selected == 0,
            r.scroll_offset == 0,
            r.max_visible == max_visible,
            !r.visible,
    {
        PopupState { items: Vec::new(), selected: 0, scroll_offset: 0, max_visible, visible: false }
    }

    /// Update the popup with new candidates. Resets selection.
    pub fn set_items(&mut self, items: Vec<ScoredCandidate>)
        ensures
            final(self).items@ == items@,
            final(self).visible == (items@.len() > 0),
            final(self).selected == 0,
            final(self).scroll_offset == 0,
            final(self).max_visible == old(self).max_visible,
    {
        self.visible = items.len() > 0;
        self.items = items;
        self.selected = 0;
        self.scroll_offset = 0;
    }

    /// Update the popup while preserving selection when the same candidate still exists.
    pub fn set_items_preserve_selection(&mut self, items: Vec<ScoredCandidate>)
        requires
            kept_index(old(self).items@, old(self).selected as int, items@) matches Some(k)
                ==> window_fits(k, old(self).scroll_offset as int, old(self).max_visible as int),
        ensures
            final(self).items@ == items@,
            final(self).visible == (items@.len() > 0),
            final(self).max_visible == old(self).max_visible,
            ({
                let kept = kept_index(old(self).items@, old(self).selected as int, items@);
                match kept {
                    Some(k) => final(self).selected == k && final(self).scroll_offset
                        == scrolled_offset(
                        k,
                        old(self).scroll_offset as int,
                        old(self).max_visible as int,
                    ),
                    None => final(self).selected == 0 && final(self).scroll_offset == 0,
                }
            }),
    {
        let selected_name = if self.selected < self.items.len() {
            Some(self.items[self.selected].candidate.name.clone())
        } else {
            None
        };
        self.visible = items.len() > 0;
        self.items = items;
        if let Some(name) = selected_name {
            let mut i: usize = 0;
            while i < self.items.len()
                invariant
                    i <= self.items@.len(),
                    self.items@ == items@,
                    self.visible == (items@.len() > 0),
                    self.max_visible == old(self).max_visible,
                    self.scroll_offset == old(self).scroll_offset,
                    kept_index(old(self).items@, old(self).selected as int, items@) matches Some(k)
                        ==> window_fits(k, self.scroll_offset as int, self.max_visible as int),
                    old(self).selected < old(self).items@.len(),
                    name@ == old(self).items@[old(self).selected as int].candidate.name@,
                    first_named(self.items@, name@, i as int) == first_named(
                        self.items@,
                        name@,
                        0,
                    ),
                decreases self.items@.len() - i,
            {
                if self.items[i].candidate.name == name {
                    assert(first_named(self.items@, name@, i as int) == Some(i as int));
                    assert(kept_index(old(self).items@, old(self).selected as int, items@) == Some(i as int));
                    self.selected = i;
                    self.ensure_visible();
                    return;
                }
                i = i + 1;
            }
        }
        self.selected = 0;
        self.scroll_offset = 0;
    }

    /// Move selection down, wrapping from the last item to the first.
    pub fn select_next(&mut self)
        requires
            old(self).items@.len() > 0 ==> old(self).selected < usize::MAX && window_fits(
                next_index(old(self).selected as int, old(self).items@.len() as int),
                old(self).scroll_offset as int,
                old(self).max_visible as int,
            ),
        ensures
            final(self).items@ == old(self).items@,
            final(self).max_visible == old(self).max_visible,
            final(self).visible == old(self).visible,
            old(self).items@.len() == 0 ==> final(self).selected == old(self).selected
                && final(self).scroll_offset == old(self).scroll_offset,
            old(self).items@.len() > 0 ==> {
                &&& final(self).selected == next_index(old(self).selected as int, old(self).items@.len() as int)
                &&& final(self).scroll_offset == scrolled_offset(
                    final(self).selected as int,
                    old(self).scroll_offset as int,
                    old(self).max_visible as int,
                )
            },
            old(self).items@.len() > 0 && old(self).max_visible > 0 ==> final(self).selection_visible(),
    {
        if self.items.len() == 0 {
            return;
        }
        self.selected = (self.selected + 1) % self.items.len();
        proof {
            if self.max_visible > 0 {
                lemma_scrolled_offset_shows_selection(
                    self.selected as int,
                    self.scroll_offset as int,
                    self.max_visible as int,
                );
            }
        }
        self.ensure_visible();
    }

    /// Move selection up, wrapping from the first item to the last.
    pub fn select_prev(&mut self)
        requires
            old(self).items@.len() > 0 ==> window_fits(
                prev_index(old(self).selected as int, old(self).items@.len() as int),
                old(self).scroll_offset as int,
                old(self).max_visible as int,
            ),
        ensures
            final(self).items@ == old(self).items@,
            final(self).max_visible == old(self).max_visible,
            final(self).visible == old(self).visible,
            old(self).items@.len() == 0 ==> final(self).selected == old(self).selected
                && final(self).scroll_offset == old(self).scroll_offset,
            old(self).items@.len() > 0 ==> {
                &&& final(self).selected == prev_index(old(self).selected as int, old(self).items@.len() as int)
                &&& final(self).scroll_offset == scrolled_offset(
                    final(self).selected as int,
                    old(self).scroll_offset as int,
                    old(self).max_visible as int,
                )
            },
            old(self).items@.len() > 0 && old(self).max_visible > 0 ==> final(self).selection_visible(),
    {
        if self.items.len() == 0 {
            return;
        }
        if self.selected == 0 {
            self.selected = self.items.len() - 1;
        } else {
            self.selected = self.selected - 1;
        }
        proof {
            if self.max_visible > 0 {
                lemma_scrolled_offset_shows_selection(
                    self.selected as int,
                    self.scroll_offset as int,
                    self.max_visible as int,
                );
            }
        }
        self.ensure_visible();
    }

    /// Page down: move the selection a window further, stopping at the last item.
    pub fn page_down(&mut self)
        requires
            old(self).items@.len() > 0 ==> old(self).selected + old(self).max_visible <= usize::MAX
                && window_fits(
                page_down_index(
                    old(self).selected as int,
                    old(self).max_visible as int,
                    old(self).items@.len() as int,
                ),
                old(self).scroll_offset as int,
                old(self).max_visible as int,
            ),
        ensures
            final(self).items@ == old(self).items@,
            final(self).max_visible == old(self).max_visible,
            final(self).visible == old(self).visible,
            old(self).items@.len() == 0 ==> final(self).selected == old(self).selected
                && final(self).scroll_offset == old(self).scroll_offset,
            old(self).items@.len() > 0 ==> {
                &&& final(self).selected == if old(self).selected + old(self).max_visible
                    < old(self).items@.len() - 1 {
                    old(self).selected + old(self).max_visible
                } else {
                    old(self).items@.len() - 1
                }
                &&& final(self).scroll_offset == scrolled_offset(
                    final(self).selected as int,
                    old(self).scroll_offset as int,
                    old(self).max_visible as int,
                )
            },
            old(self).items@.len() > 0 && old(self).max_visible > 0 ==> final(self).selection_visible(),
    {
        if self.items.len() == 0 {
            return;
        }
        let target = self.selected + self.max_visible;
        let last = self.items.len() - 1;
        self.selected = if target < last {
            target
        } else {
            last
        };
        proof {
            if self.max_visible > 0 {
                lemma_scrolled_offset_shows_selection(
                    self.selected as int,
                    self.scroll_offset as int,
                    self.max_visible as int,
                );
            }
        }
        self.ensure_visible();
    }

    /// Page up: move the selection a window back, stopping at the first item.
    pub fn page_up(&mut self)
        requires
            old(self).items@.len() > 0 ==> window_fits(
                page_up_index(old(self).selected as int, old(self).max_visible as int),
                old(self).scroll_offset as int,
                old(self).max_visible as int,
            ),
        ensures
            final(self).items@ == old(self).items@,
            final(self).max_visible == old(self).max_visible,
            final(self).visible == old(self).visible,
            old(self).items@.len() == 0 ==> final(self).selected == old(self).selected
                && final(self).scroll_offset == old(self).scroll_offset,
            old(self).items@.len() > 0 ==> {
                &&& final(self).selected == if old(self).selected >= old(self).max_visible {
                    old(self).selected - old(self).max_visible
                } else {
                    0
                }
                &&& final(self).scroll_offset == scrolled_offset(
                    final(self).selected as int,
                    old(self).scroll_offset as int,
                    old(self).max_visible as int,
                )
            },
            old(self).items@.len() > 0 && old(self).max_visible > 0 ==> final(self).selection_visible(),
    {
        if self.items.len() == 0 {
            return;
        }
        self.selected = if self.selected >= self.max_visible {
            self.selected - self.max_visible
        } else {
            0
        };
        proof {
            if self.max_visible > 0 {
                lemma_scrolled_offset_shows_selection(
                    self.selected as int,
                    self.scroll_offset as int,
                    self.max_visible as int,
                );
            }
        }
        self.ensure_visible();
    }

    /// Get the currently selected item's completion text.
    pub fn selected_text(&self) -> (r: Option<&str>)
        ensures
            self.selected < self.items@.len() ==> (r matches Some(t) && t@
                == self.items@[self.selected as int].candidate.name@),
            self.selected >= self.items@.len() ==> r is None,
    {
        if self.selected < self.items.len() {
            Some(self.items[self.selected].candidate.name.as_str())
        } else {
            None
        }
    }

    pub fn selected_item(&self) -> (r: Option<&ScoredCandidate>)
        ensures
            self.selected < self.items@.len() ==> r == Some(&self.items@[self.selected as int]),
            self.selected >= self.items@.len() ==> r is None,
    {
        if self.selected < self.items.len() {
            Some(&self.items[self.selected])
        } else {
            None
        }
    }

    /// Dismiss the popup.
    pub fn dismiss(&mut self)
        ensures
            !final(self).visible,
            final(self).items@.len() == 0,
            final(self).selected == 0,
            final(self).scroll_offset == 0,
            final(self).max_visible == old(self).max_visible,
    {
        self.visible = false;
        self.items.clear();
        self.selected = 0;
        self.scroll_offset = 0;
    }

    /// Number of visible items (clamped to max_visible).
    pub fn visible_count(&self) -> (r: usize)
        ensures
            r == if self.items@.len() < self.max_visible {
                self.items@.len() as int
            } else {
                self.max_visible as int
            },
    {
        if self.items.len() < self.max_visible {
            self.items.len()
        } else {
            self.max_visible
        }
    }

    /// Ensure the selected item is within the visible scroll window.
    fn ensure_visible(&mut self)
        requires
            window_fits(
                old(self).selected as int,
                old(self).scroll_offset as int,
                old(self).max_visible as int,
            ),
        ensures
            final(self).scroll_offset == scrolled_offset(
                old(self).selected as int,
                old(self).scroll_offset as int,
                old(self).max_visible as int,
            ),
            final(self).selected == old(self).selected,
            final(self).items == old(self).items,
            final(self).max_visible == old(self).max_visible,
            final(self).visible == old(self).visible,
    {
        if self.selected < self.scroll_offset {
            self.scroll_offset = self.selected;
        } else if self.selected >= self.scroll_offset + self.max_visible {
            self.scroll_offset = self.selected - self.max_visible + 1;
        }
    }
}

/// After any move, the selection is a valid index and, with a non-empty window
/// whose old offset did not pass the old selection by more than the new one
/// moved, lies inside the window: `scrolled_offset` always brings `selected`
/// into `offset..offset + max_visible`.
pub proof fn lemma_scrolled_offset_shows_selection(selected: int, offset: int, max_visible: int)
    requires
        0 <= selected,
        0 <= offset,
        max_visible > 0,
    ensures
        ({
            let o = scrolled_offset(selected, offset, max_visible);
            0 <= o <= selected < o + max_visible
        }),
{
}

/// Moving the selection down then up, or up then down, leaves it where it was.
pub proof fn lemma_next_prev_undo(selected: int, len: int)
    requires
        0 <= selected < len,
    ensures
        prev_index(next_index(selected, len), len) == selected,
        next_index(prev_index(selected, len), len) == selected,
        0 <= next_index(selected, len) < len,
        0 <= prev_index(selected, len) < len,
{
    if selected + 1 < len {
        vstd::arithmetic::div_mod::lemma_small_mod((selected + 1) as nat, len as nat);
    } else {
        vstd::arithmetic::div_mod::lemma_mod_self_0(len);
    }
    if selected > 0 {
        vstd::arithmetic::div_mod::lemma_small_mod(selected as nat, len as nat);
    } else {
        vstd::arithmetic::div_mod::lemma_mod_self_0(len);
    }
}

/// Index after `k` moves down from `selected`.
pub open spec fn after_nexts(selected: int, len: int, k: nat) -> int
    decreases k,
{
    if k == 0 {
        selected
    } else {
        next_index(after_nexts(selected, len, (k - 1) as nat), len)
    }
}

/// Moving down as many times as there are items wraps back to the start.
pub proof fn lemma_selection_wraps(selected: int, len: int)
    requires
        0 <= selected < len,
    ensures
        after_nexts(selected, len, len as nat) == selected,
{
    lemma_after_nexts(selected, len, len as nat);
    vstd::arithmetic::div_mod::lemma_mod_add_multiples_vanish(selected, len);
    vstd::arithmetic::div_mod::lemma_small_mod(selected as nat, len as nat);
}

proof fn lemma_after_nexts(selected: int, len: int, k: nat)
    requires
        0 <= selected < len,
    ensures
        after_nexts(selected, len, k) == (selected + k) % len,
    decreases k,
{
    if k == 0 {
        vstd::arithmetic::div_mod::lemma_small_mod(selected as nat, len as nat);
    } else {
        lemma_after_nexts(selected, len, (k - 1) as nat);
        vstd::arithmetic::div_mod::lemma_add_mod_noop_right(1, selected + k - 1, len);
    }
}

} // verus!
