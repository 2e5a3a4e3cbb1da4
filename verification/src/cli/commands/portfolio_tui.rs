//! The state of the interactive portfolio display: two tabs, orders and
//! positions, each with a selected row, and what each key does to it.

use vstd::prelude::*;

verus! {

/// The selection after moving down a list of `len` rows: the next row,
/// wrapping from the last to the first; the first without a selection.
pub open spec fn next_selection(sel: Option<usize>, len: nat) -> Option<usize> {
    if len == 0 {
        sel
    } else {
        match sel {
            Some(i) => if i >= len - 1 {
                Some(0usize)
            } else {
                Some((i + 1) as usize)
            },
            None => Some(0usize),
        }
    }
}

/// The selection after moving up a list of `len` rows: the previous row,
/// wrapping from the first to the last; the first without a selection.
pub open spec fn previous_selection(sel: Option<usize>, len: nat) -> Option<usize> {
    if len == 0 {
        sel
    } else {
        match sel {
            Some(i) => if i == 0 {
                Some((len - 1) as usize)
            } else {
                Some((i - 1) as usize)
            },
            None => Some(0usize),
        }
    }
}

/// A selection names a row of a list of `len` rows, or none.
pub open spec fn selection_in_range(sel: Option<usize>, len: nat) -> bool {
    match sel {
        Some(i) => i < len,
        None => true,
    }
}

/// The interactive portfolio display.
pub struct App<O, P> {
    pub user_address: String,
    pub orders: Vec<O>,
    pub positions: Vec<P>,
    pub current_tab: usize,
    pub orders_selected: Option<usize>,
    pub positions_selected: Option<usize>,
    pub _scroll: u16,
    pub should_quit: bool,
}

/// A key, as far as the display tells keys apart.
#[derive(Debug, Clone, Copy, PartialEq, Eq, Structural)]
pub enum Key {
    Char(char),
    CtrlC,
    Tab,
    BackTab,
    Down,
    Up,
    Other,
}

impl<O, P> App<O, P> {
    /// The display is consistent: one of the two tabs is shown, and each
    /// selection names a row or none.
    pub open spec fn wf(&self) -> bool {
        &&& self.current_tab < 2
        &&& selection_in_range(self.orders_selected, self.orders@.len())
        &&& selection_in_range(self.positions_selected, self.positions@.len())
    }

    /// A display on the orders tab, with the first row of each non-empty
    /// list selected.
    pub fn new(user_address: String, orders: Vec<O>, positions: Vec<P>) -> (r: Self)
        ensures
            r.wf(),
            r.user_address@ == user_address@,
            r.orders@ == orders@,
            r.positions@ == positions@,
            r.current_tab == 0,
            r.orders_selected == (if orders@.len() > 0 {
                Some(0usize)
            } else {
                None
            }),
            r.positions_selected == (if positions@.len() > 0 {
                Some(0usize)
            } else {
                None
            }),
            r._scroll == 0,
            !r.should_quit,
    {
        let orders_selected = if orders.len() > 0 {
            Some(0)
        } else {
            None
        };
        let positions_selected = if positions.len() > 0 {
            Some(0)
        } else {
            None
        };
        App {
            user_address,
            orders,
            positions,
            current_tab: 0,
            orders_selected,
            positions_selected,
            _scroll: 0,
            should_quit: false,
        }
    }

    /// Shows the other tab.
    pub fn next_tab(&mut self)
        requires
            old(self).current_tab < usize::MAX,
        ensures
            final(self).current_tab == (old(self).current_tab + 1) % 2,
            final(self).orders@ == old(self).orders@,
            final(self).positions@ == old(self).positions@,
            final(self).orders_selected == old(self).orders_selected,
            final(self).positions_selected == old(self).positions_selected,
            final(self).should_quit == old(self).should_quit,
            final(self).user_address@ == old(self).user_address@,
    {
        self.current_tab = (self.current_tab + 1) % 2;
    }

    /// Shows the other tab: the second from the first, else the first.
    pub fn previous_tab(&mut self)
        ensures
            final(self).current_tab == (if old(self).current_tab == 0 {
                1usize
            } else {
                0usize
            }),
            final(self).orders@ == old(self).orders@,
            final(self).positions@ == old(self).positions@,
            final(self).orders_selected == old(self).orders_selected,
            final(self).positions_selected == old(self).positions_selected,
            final(self).should_quit == old(self).should_quit,
            final(self).user_address@ == old(self).user_address@,
    {
        if self.current_tab == 0 {
            self.current_tab = 1;
        } else {
            self.current_tab = 0;
        }
    }

    /// Selects the next order.
    pub fn next_order(&mut self)
        ensures
            final(self).orders_selected == next_selection(
                old(self).orders_selected,
                old(self).orders@.len(),
            ),
            final(self).orders@ == old(self).orders@,
            final(self).positions@ == old(self).positions@,
            final(self).positions_selected == old(self).positions_selected,
            final(self).current_tab == old(self).current_tab,
            final(self).should_quit == old(self).should_quit,
            final(self).user_address@ == old(self).user_address@,
    {
        self.orders_selected = step_next(self.orders_selected, self.orders.len());
    }

    /// Selects the previous order.
    pub fn previous_order(&mut self)
        ensures
            final(self).orders_selected == previous_selection(
                old(self).orders_selected,
                old(self).orders@.len(),
            ),
            final(self).orders@ == old(self).orders@,
            final(self).positions@ == old(self).positions@,
            final(self).positions_selected == old(self).positions_selected,
            final(self).current_tab == old(self).current_tab,
            final(self).should_quit == old(self).should_quit,
            final(self).user_address@ == old(self).user_address@,
    {
        self.orders_selected = step_previous(self.orders_selected, self.orders.len());
    }

    /// Selects the next position.
    pub fn next_position(&mut self)
        ensures
            final(self).positions_selected == next_selection(
                old(self).positions_selected,
                old(self).positions@.len(),
            ),
            final(self).orders@ == old(self).orders@,
            final(self).positions@ == old(self).positions@,
            final(self).orders_selected == old(self).orders_selected,
            final(self).current_tab == old(self).current_tab,
            final(self).should_quit == old(self).should_quit,
            final(self).user_address@ == old(self).user_address@,
    {
        self.positions_selected = step_next(self.positions_selected, self.positions.len());
    }

    /// Selects the previous position.
    pub fn previous_position(&mut self)
        ensures
            final(self).positions_selected == previous_selection(
                old(self).positions_selected,
                old(self).positions@.len(),
            ),
            final(self).orders@ == old(self).orders@,
            final(self).positions@ == old(self).positions@,
            final(self).orders_selected == old(self).orders_selected,
            final(self).current_tab == old(self).current_tab,
            final(self).should_quit == old(self).should_quit,
            final(self).user_address@ == old(self).user_address@,
    {
        self.positions_selected = step_previous(self.positions_selected, self.positions.len());
    }

    /// What a key does: `q` and Ctrl-C quit, Tab and Shift-Tab switch tabs,
    /// Down (`j`) and Up (`k`) move the selection of the tab shown.
    pub fn handle_key(&mut self, key: Key)
        requires
            old(self).wf(),
        ensures
            final(self).wf(),
            final(self).orders@ == old(self).orders@,
            final(self).positions@ == old(self).positions@,
            final(self).should_quit == (old(self).should_quit || key == Key::Char('q')
                || key == Key::CtrlC),
            final(self).current_tab == (if key == Key::Tab || key == Key::BackTab {
                1 - old(self).current_tab
            } else {
                old(self).current_tab as int
            }),
            final(self).orders_selected == (if old(self).current_tab == 0 && (key == Key::Down
                || key == Key::Char('j')) {
                next_selection(old(self).orders_selected, old(self).orders@.len())
            } else if old(self).current_tab == 0 && (key == Key::Up || key == Key::Char('k')) {
                previous_selection(old(self).orders_selected, old(self).orders@.len())
            } else {
                old(self).orders_selected
            }),
            final(self).positions_selected == (if old(self).current_tab == 1 && (key == Key::Down
                || key == Key::Char('j')) {
                next_selection(old(self).positions_selected, old(self).positions@.len())
            } else if old(self).current_tab == 1 && (key == Key::Up || key == Key::Char('k')) {
                previous_selection(old(self).positions_selected, old(self).positions@.len())
            } else {
                old(self).positions_selected
            }),
    {
        proof {
            lemma_steps_stay_in_range(self.orders_selected, self.orders@.len());
            lemma_steps_stay_in_range(self.positions_selected, self.positions@.len());
        }
        match key {
            Key::Char('q') => self.should_quit = true,
            Key::CtrlC => self.should_quit = true,
            Key::Tab => self.next_tab(),
            Key::BackTab => self.previous_tab(),
            Key::Down | Key::Char('j') => {
                if self.current_tab == 0 {
                    self.next_order();
                } else if self.current_tab == 1 {
                    self.next_position();
                }
            },
            Key::Up | Key::Char('k') => {
                if self.current_tab == 0 {
                    self.previous_order();
                } else if self.current_tab == 1 {
                    self.previous_position();
                }
            },
            _ => {},
        }
    }
}

fn step_next(sel: Option<usize>, len: usize) -> (r: Option<usize>)
    ensures
        r == next_selection(sel, len as nat),
{
    if len == 0 {
        return sel;
    }
    match sel {
        Some(i) => if i >= len - 1 {
            Some(0)
        } else {
            Some(i + 1)
        },
        None => Some(0),
    }
}

fn step_previous(sel: Option<usize>, len: usize) -> (r: Option<usize>)
    ensures
        r == previous_selection(sel, len as nat),
{
    if len == 0 {
        return sel;
    }
    match sel {
        Some(i) => if i == 0 {
            Some(len - 1)
        } else {
            Some(i - 1)
        },
        None => Some(0),
    }
}

/// Moving the selection keeps it on a row of the list, or none.
pub proof fn lemma_steps_stay_in_range(sel: Option<usize>, len: nat)
    requires
        selection_in_range(sel, len),
    ensures
        selection_in_range(next_selection(sel, len), len),
        selection_in_range(previous_selection(sel, len), len),
{
}

/// Moving up undoes moving down, and moving down undoes moving up, from any
/// selected row.
pub proof fn lemma_selection_moves_undo(i: usize, len: nat)
    requires
        i < len,
        len <= usize::MAX,
    ensures
        previous_selection(next_selection(Some(i), len), len) == Some(i),
        next_selection(previous_selection(Some(i), len), len) == Some(i),
{
}

/// Moving down as many times as there are rows comes back to the same row.
pub proof fn lemma_next_cycles(i: usize, len: nat, k: nat)
    requires
        i < len,
        len <= usize::MAX,
        k <= len,
    ensures
        iterate_next(Some(i), len, k) == Some(((i + k) % (len as int)) as usize),
    decreases k,
{
    if k == 0 {
        vstd::arithmetic::div_mod::lemma_small_mod(i as nat, len);
    } else {
        lemma_next_cycles(i, len, (k - 1) as nat);
        let j = (i + k - 1) % (len as int);
        assert(0 <= j < len);
        if j == len - 1 {
            assert((i + k) % (len as int) == 0) by (nonlinear_arith)
                requires
                    j == (i + k - 1) % (len as int),
                    j == len - 1,
                    len > 0,
            ;
        } else {
            assert((i + k) % (len as int) == j + 1) by (nonlinear_arith)
                requires
                    j == (i + k - 1) % (len as int),
                    0 <= j < len - 1,
                    len > 0,
            ;
        }
    }
}

/// The selection after moving down `k` times.
pub open spec fn iterate_next(sel: Option<usize>, len: nat, k: nat) -> Option<usize>
    decreases k,
{
    if k == 0 {
        sel
    } else {
        next_selection(iterate_next(sel, len, (k - 1) as nat), len)
    }
}

/// Switching tabs twice, either way, comes back to the same tab; the two
/// directions undo each other.
pub proof fn lemma_tab_switches_undo(tab: usize)
    requires
        tab < 2,
    ensures
        (tab + 1) % 2 == (if tab == 0 {
            1usize
        } else {
            0usize
        }),
        ((tab + 1) % 2 + 1) % 2 == tab,
{
}

} // verus!
