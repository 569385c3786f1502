//! The launcher as a plugin of the first launcher window: the current
//! results, and which result and which of its actions has the focus.
use vstd::prelude::*;

use crate::finder::{found, match_views, Finder, MatchView};
use crate::index::{entry_views, AppIndex, AppIndexView};

verus! {

/// How many results the plugin keeps.
pub const MAXIMUM_NUMBER_OF_RESULTS: usize = 10;

pub struct LauncherPlugin {
    finder: Finder,
    results: Vec<AppIndex>,
    focused_entry: usize,
    focused_entry_action: Option<usize>,
}

pub struct PluginView {
    pub entries: Seq<AppIndexView>,
    pub results: Seq<AppIndexView>,
    pub focused_entry: nat,
    pub focused_entry_action: Option<nat>,
}

pub open spec fn opt_nat(o: Option<usize>) -> Option<nat> {
    match o {
        Some(x) => Some(x as nat),
        None => None,
    }
}

impl View for LauncherPlugin {
    type V = PluginView;

    closed spec fn view(&self) -> PluginView {
        PluginView {
            entries: self.finder@,
            results: entry_views(self.results@),
            focused_entry: self.focused_entry as nat,
            focused_entry_action: opt_nat(self.focused_entry_action),
        }
    }
}

/// The command that the focus selects: the focused action's command, or the
/// focused entry's command where no action has the focus.
pub open spec fn selected_command(v: PluginView) -> Option<Seq<char>> {
    if v.focused_entry < v.results.len() {
        let entry = v.results[v.focused_entry as int];
        match v.focused_entry_action {
            Some(a) => if a < entry.actions.len() {
                Some(entry.actions[a as int].command)
            } else {
                None
            },
            None => Some(entry.command),
        }
    } else {
        None
    }
}

/// The action focus after moving right within `len` actions.
pub open spec fn next_action(action: Option<nat>, len: nat) -> Option<nat> {
    match action {
        Some(a) => if len == 0 {
            None
        } else if a + 1 >= len {
            Some((len - 1) as nat)
        } else {
            Some(a + 1)
        },
        None => if len > 0 {
            Some(0)
        } else {
            None
        },
    }
}

impl LauncherPlugin {
    /// A plugin over the entries `indices`, with no results yet.
    pub fn new(indices: Vec<AppIndex>) -> (r: Self)
        ensures
            r@.entries == entry_views(indices@),
            r@.results == Seq::<AppIndexView>::empty(),
            r@.focused_entry == 0,
            r@.focused_entry_action is None,
    {
        let r = Self {
            finder: Finder::new(indices),
            results: Vec::new(),
            focused_entry: 0,
            focused_entry_action: None,
        };
        assert(r@.results =~= Seq::<AppIndexView>::empty());
        r
    }

    /// Replaces the results by the entries that match `query` best.
    pub fn search(&mut self, query: &str)
        ensures
            final(self)@.entries == old(self)@.entries,
            final(self)@.results == found(
                query@,
                old(self)@.entries,
                MAXIMUM_NUMBER_OF_RESULTS as nat,
            ).map_values(|m: MatchView| m.entry),
            final(self)@.focused_entry == old(self)@.focused_entry,
            final(self)@.focused_entry_action == old(self)@.focused_entry_action,
    {
        let found = self.finder.find(query, MAXIMUM_NUMBER_OF_RESULTS);
        let mut results: Vec<AppIndex> = Vec::new();
        let mut i: usize = 0;
        while i < found.len()
            invariant
                i <= found@.len(),
                results@.len() == i,
                forall|k: int|
                    0 <= k < i ==> #[trigger] results@[k]@ == match_views(found@)[k].entry,
            decreases found.len() - i,
        {
            results.push(found[i].index.copied());
            i += 1;
        }
        self.results = results;
        assert(entry_views(self.results@) =~= match_views(found@).map_values(
            |m: MatchView| m.entry,
        ));
    }

    /// The command to launch for the focus, if the focus is on a result.
    pub fn get_selected_command(&self) -> (r: Option<&str>)
        ensures
            match r {
                Some(c) => selected_command(self@) == Some(c@),
                None => selected_command(self@) is None,
            },
    {
        let entry = match self.get_focused_entry() {
            Some(e) => e,
            None => return None,
        };
        match self.focused_entry_action {
            Some(action) => {
                if action < entry.actions.len() {
                    proof {
                        assert(self@.results[self.focused_entry as int].actions[action as int]
                            == entry.actions@[action as int]@);
                    }
                    Some(entry.actions[action].command.as_str())
                } else {
                    None
                }
            },
            None => Some(entry.command.as_str()),
        }
    }

    /// The focused result, if the focus is on one.
    pub fn get_focused_entry(&self) -> (r: Option<&AppIndex>)
        ensures
            match r {
                Some(e) => self@.focused_entry < self@.results.len() && e@
                    == self@.results[self@.focused_entry as int],
                None => self@.focused_entry >= self@.results.len(),
            },
    {
        if self.focused_entry < self.results.len() {
            Some(&self.results[self.focused_entry])
        } else {
            None
        }
    }

    /// Moves the focus to the next result (at most one past the last) and off
    /// the actions.
    pub fn select_next(&mut self)
        ensures
            final(self)@ == (PluginView {
                focused_entry: if old(self)@.focused_entry < old(self)@.results.len() {
                    old(self)@.focused_entry + 1
                } else {
                    old(self)@.results.len()
                },
                focused_entry_action: None,
                ..old(self)@
            }),
    {
        self.focused_entry = if self.focused_entry < self.results.len() {
            self.focused_entry + 1
        } else {
            self.results.len()
        };
        self.focused_entry_action = None;
    }

    /// Moves the focus to the previous result (not before the first) and off
    /// the actions.
    pub fn select_prev(&mut self)
        ensures
            final(self)@ == (PluginView {
                focused_entry: if old(self)@.focused_entry > 0 {
                    (old(self)@.focused_entry - 1) as nat
                } else {
                    0
                },
                focused_entry_action: None,
                ..old(self)@
            }),
    {
        self.focused_entry = if self.focused_entry > 0 {
            self.focused_entry - 1
        } else {
            0
        };
        self.focused_entry_action = None;
    }

    /// Moves the action focus of the focused result to the right, stopping
    /// at its last action; a result without actions has none focused.
    pub fn select_next_action(&mut self)
        ensures
            final(self)@ == (PluginView {
                focused_entry_action: if old(self)@.focused_entry < old(self)@.results.len() {
                    next_action(
                        old(self)@.focused_entry_action,
                        old(self)@.results[old(self)@.focused_entry as int].actions.len(),
                    )
                } else {
                    old(self)@.focused_entry_action
                },
                ..old(self)@
            }),
    {
        let len = match self.get_focused_entry() {
            Some(entry) => entry.actions.len(),
            None => return,
        };
        self.focused_entry_action = match self.focused_entry_action {
            Some(_) if len == 0 => None,
            Some(action) => if action >= len - 1 {
                Some(len - 1)
            } else {
                Some(action + 1)
            },
            None => if len > 0 {
                Some(0)
            } else {
                None
            },
        };
    }

    /// Moves the action focus to the left; from the first action it leaves
    /// the actions.
    pub fn select_prev_action(&mut self)
        ensures
            final(self)@ == (PluginView {
                focused_entry_action: match old(self)@.focused_entry_action {
                    Some(a) => if a == 0 {
                        None
                    } else {
                        Some((a - 1) as nat)
                    },
                    None => None,
                },
                ..old(self)@
            }),
    {
        self.focused_entry_action = match self.focused_entry_action {
            Some(0) => None,
            Some(action) => Some(action - 1),
            None => None,
        };
    }
}

} // verus!
