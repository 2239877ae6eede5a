//! The navigation state of the browser and its transitions, one per key.

use crate::model::{well_formed, Results};
use crate::order::{lemma_sorted_names, sorted_names};
use vstd::prelude::*;

verus! {

/// A key press, as far as the browser tells keys apart.
#[derive(Clone, Copy, Debug, PartialEq, Eq, Structural)]
pub enum Key {
    Char(char),
    Esc,
    Up,
    Down,
    Left,
    Right,
    Enter,
    Backspace,
    Other,
}

/// Which test is selected, which of its patches, and how far its log is
/// scrolled. The test index counts in the sorted list of test names, the
/// patch index in the sorted list of the selected test's patches.
#[derive(Clone, Copy, Debug, PartialEq, Eq, Structural)]
pub struct Navigation {
    pub selected_test_index: Option<usize>,
    pub selected_patch_index: Option<usize>,
    pub scroll_offset: u16,
}

/// The key asks to leave: `q` or Escape.
pub open spec fn is_quit(key: Key) -> bool {
    key == Key::Char('q') || key == Key::Esc
}

/// The state at start: nothing selected, nothing scrolled.
pub open spec fn initial() -> Navigation {
    Navigation { selected_test_index: None, selected_patch_index: None, scroll_offset: 0 }
}

/// The number of patches of the test at position `index` of the sorted list
/// of tests.
pub open spec fn patches_at(m: Results, index: int) -> nat {
    m[sorted_names(m.dom())[index]].dom().len()
}

/// The state points into the store: a patch is selected only under a
/// selected test, and both indices lie within their lists.
pub open spec fn fits(nav: Navigation, m: Results) -> bool {
    &&& nav.selected_patch_index is Some ==> nav.selected_test_index is Some
    &&& nav.selected_test_index matches Some(t) ==> {
        &&& t < sorted_names(m.dom()).len()
        &&& nav.selected_patch_index matches Some(p) ==> p < patches_at(m, t as int)
    }
}

/// One step down a list of `len` entries, stopping at the last.
pub open spec fn step_forward(i: usize, len: nat) -> usize {
    if i + 1 < len {
        (i + 1) as usize
    } else {
        i
    }
}

/// One step up a list, stopping at the first entry.
pub open spec fn step_back(i: usize) -> usize {
    if i > 0 {
        (i - 1) as usize
    } else {
        0
    }
}

/// The state after `key`, in a store of `tests` tests whose selected test,
/// if there is one, has `patches` patches. In an empty store nothing can be
/// selected, and the arrow keys only reset the scroll offset.
pub open spec fn after_key(nav: Navigation, key: Key, tests: nat, patches: nat) -> Navigation {
    match key {
        Key::Up | Key::Down => Navigation {
            selected_test_index: if tests == 0 {
                None
            } else {
                match nav.selected_test_index {
                    Some(t) => Some(
                        if key == Key::Up {
                            step_back(t)
                        } else {
                            step_forward(t, tests)
                        },
                    ),
                    None => Some(0),
                }
            },
            selected_patch_index: if tests == 0 {
                None
            } else {
                Some(0)
            },
            scroll_offset: 0,
        },
        Key::Left | Key::Right => Navigation {
            selected_test_index: if tests == 0 {
                None
            } else {
                match nav.selected_test_index {
                    Some(t) => Some(t),
                    None => Some(0),
                }
            },
            selected_patch_index: if tests == 0 {
                None
            } else {
                match (nav.selected_test_index, nav.selected_patch_index) {
                    (Some(_), Some(p)) => Some(
                        if key == Key::Left {
                            step_back(p)
                        } else {
                            step_forward(p, patches)
                        },
                    ),
                    _ => Some(0),
                }
            },
            scroll_offset: 0,
        },
        Key::Enter => Navigation { scroll_offset: (nav.scroll_offset + 1) as u16, ..nav },
        Key::Backspace => Navigation {
            scroll_offset: if nav.scroll_offset > 0 {
                (nav.scroll_offset - 1) as u16
            } else {
                0
            },
            ..nav
        },
        _ => nav,
    }
}

/// The first line of a log of `lines` lines that a scroll offset shows: the
/// offset wraps round the log.
pub open spec fn start_line(scroll_offset: u16, lines: nat) -> nat {
    if lines == 0 {
        0
    } else {
        scroll_offset as nat % lines
    }
}

impl Navigation {
    /// The state at start.
    pub fn new() -> (nav: Navigation)
        ensures
            nav == initial(),
    {
        Navigation { selected_test_index: None, selected_patch_index: None, scroll_offset: 0 }
    }

    /// The state after `key`, in a store of `tests` tests whose selected
    /// test, if there is one, has `patches` patches. Scroll Forward counts in
    /// sixteen bits and needs room to count.
    pub fn step(self, key: Key, tests: usize, patches: usize) -> (next: Navigation)
        requires
            key == Key::Enter ==> self.scroll_offset < u16::MAX,
        ensures
            next == after_key(self, key, tests as nat, patches as nat),
    {
        match key {
            Key::Up | Key::Down => {
                if tests == 0 {
                    return Navigation::new();
                }
                let test: usize = match self.selected_test_index {
                    Some(t) => match key {
                        Key::Up => if t > 0 {
                            t - 1
                        } else {
                            0
                        },
                        _ => if t < usize::MAX && t + 1 < tests {
                            t + 1
                        } else {
                            t
                        },
                    },
                    None => 0,
                };
                Navigation {
                    selected_test_index: Some(test),
                    selected_patch_index: Some(0),
                    scroll_offset: 0,
                }
            },
            Key::Left | Key::Right => {
                if tests == 0 {
                    return Navigation::new();
                }
                match (self.selected_test_index, self.selected_patch_index) {
                    (Some(t), Some(p)) => {
                        let patch: usize = match key {
                            Key::Left => if p > 0 {
                                p - 1
                            } else {
                                0
                            },
                            _ => if p < usize::MAX && p + 1 < patches {
                                p + 1
                            } else {
                                p
                            },
                        };
                        Navigation {
                            selected_test_index: Some(t),
                            selected_patch_index: Some(patch),
                            scroll_offset: 0,
                        }
                    },
                    (Some(t), None) => Navigation {
                        selected_test_index: Some(t),
                        selected_patch_index: Some(0),
                        scroll_offset: 0,
                    },
                    (None, _) => Navigation {
                        selected_test_index: Some(0),
                        selected_patch_index: Some(0),
                        scroll_offset: 0,
                    },
                }
            },
            Key::Enter => Navigation {
                selected_test_index: self.selected_test_index,
                selected_patch_index: self.selected_patch_index,
                scroll_offset: self.scroll_offset + 1,
            },
            Key::Backspace => Navigation {
                selected_test_index: self.selected_test_index,
                selected_patch_index: self.selected_patch_index,
                scroll_offset: if self.scroll_offset > 0 {
                    self.scroll_offset - 1
                } else {
                    0
                },
            },
            _ => self,
        }
    }

    /// The first line of a log of `lines` lines that this state shows.
    pub fn first_line(&self, lines: usize) -> (line: u16)
        ensures
            line == start_line(self.scroll_offset, lines as nat),
            lines > 0 ==> line < lines,
    {
        if lines == 0 {
            0
        } else {
            let offset = self.scroll_offset as usize;
            let line = offset % lines;
            assert(line <= offset) by (nonlinear_arith)
                requires
                    line == offset % lines,
                    lines > 0,
            ;
            line as u16
        }
    }
}

/// No key ever leads out of the store: from a state that points into it, the
/// state after any key points into it too.
pub proof fn lemma_step_fits(nav: Navigation, key: Key, m: Results)
    requires
        fits(nav, m),
        well_formed(m),
    ensures
        fits(after_key(nav, key, m.dom().len(), selected_patches(nav, m)), m),
{
    lemma_sorted_names(m.dom());
}

/// Move Up on the first test stays on the first test.
pub proof fn lemma_up_stops_at_first(nav: Navigation, tests: nat, patches: nat)
    requires
        tests > 0,
        nav.selected_test_index == Some(0usize),
    ensures
        after_key(nav, Key::Up, tests, patches).selected_test_index == Some(0usize),
{
}

/// Move Down on the last test stays on the last test.
pub proof fn lemma_down_stops_at_last(nav: Navigation, tests: nat, patches: nat)
    requires
        tests > 0,
        nav.selected_test_index == Some((tests - 1) as usize),
        tests - 1 <= usize::MAX,
    ensures
        after_key(nav, Key::Down, tests, patches).selected_test_index == nav.selected_test_index,
{
}

/// Move Left on the first patch tab stays on it, and Move Right on the last
/// patch tab of the selected test stays on it.
pub proof fn lemma_tabs_stop_at_ends(nav: Navigation, tests: nat, patches: nat)
    requires
        tests > 0,
        nav.selected_test_index is Some,
        nav.selected_patch_index matches Some(p) && p < patches,
    ensures
        nav.selected_patch_index == Some(0usize) ==> after_key(
            nav,
            Key::Left,
            tests,
            patches,
        ).selected_patch_index == Some(0usize),
        nav.selected_patch_index->0 + 1 == patches ==> after_key(
            nav,
            Key::Right,
            tests,
            patches,
        ).selected_patch_index == nav.selected_patch_index,
        after_key(nav, Key::Right, tests, patches).selected_patch_index->0 < patches,
{
}

/// Whenever a key changes which test is selected, the first patch of the new
/// test is selected and its log is shown from the top.
pub proof fn lemma_new_test_resets(nav: Navigation, key: Key, tests: nat, patches: nat)
    requires
        nav.selected_test_index matches Some(t) ==> t < tests,
        after_key(nav, key, tests, patches).selected_test_index != nav.selected_test_index,
    ensures
        after_key(nav, key, tests, patches).selected_patch_index == Some(0usize),
        after_key(nav, key, tests, patches).scroll_offset == 0,
{
}

/// The line that a scroll offset shows first is a line of the log.
pub proof fn lemma_start_line_in_log(scroll_offset: u16, lines: nat)
    requires
        lines > 0,
    ensures
        start_line(scroll_offset, lines) < lines,
{
}

/// Scroll Forward shows the next line, and from the last line of the log
/// goes back to its first.
pub proof fn lemma_scroll_forward_cycles(nav: Navigation, lines: nat, tests: nat, patches: nat)
    requires
        lines > 0,
        nav.scroll_offset < u16::MAX,
    ensures
        start_line(after_key(nav, Key::Enter, tests, patches).scroll_offset, lines) == if
        start_line(nav.scroll_offset, lines) + 1 == lines {
            0
        } else {
            start_line(nav.scroll_offset, lines) + 1
        },
{
    let s = nav.scroll_offset as int;
    let n = lines as int;
    assert((s + 1) % n == if s % n + 1 == n { 0 } else { s % n + 1 }) by (nonlinear_arith)
        requires
            n > 0,
            s >= 0,
    ;
}

/// Scroll Backward never goes below the top.
pub proof fn lemma_scroll_backward_stops(nav: Navigation, tests: nat, patches: nat)
    ensures
        after_key(nav, Key::Backspace, tests, patches).scroll_offset == if nav.scroll_offset == 0 {
            0
        } else {
            nav.scroll_offset - 1
        },
{
}

/// The number of patches of the selected test; zero where none is selected.
pub open spec fn selected_patches(nav: Navigation, m: Results) -> nat {
    match nav.selected_test_index {
        Some(t) => patches_at(m, t as int),
        None => 0,
    }
}

} // verus!
