//! The search window's state over the scanned launch targets: the query, the
//! ranked results and the selection, and what each input does to them.
use vstd::prelude::*;
use vstd::string::*;

use crate::apps::AppInfo;
use crate::matcher::{is_ranking, rank, views_of};
use crate::numeral::{capped_unsigned, digits_value, unsigned_digits};

verus! {

/// How many results the window shows, and the shortcut digits reach.
pub const DISPLAY_COUNT: usize = 7;

/// A key, as the window reports it.
#[derive(Debug, Clone)]
pub enum Key {
    Escape,
    Enter,
    ArrowDown,
    ArrowUp,
    Backspace,
    /// A key that produces text.
    Character(String),
    /// Any other key.
    Other,
}

/// Modifier keys held during a key press.
#[derive(Debug, Clone, Copy, PartialEq, Eq, Structural)]
pub struct Modifiers {
    pub logo: bool,
    pub control: bool,
    pub alt: bool,
}

/// An input event of the window.
#[derive(Debug, Clone)]
pub enum Message {
    InputChanged(String),
    KeyPressed(Key, Modifiers),
    IgnoreEvent,
}

/// What the window is to do after an event.
#[derive(Debug, Clone, Copy, PartialEq, Eq, Structural)]
pub enum Action {
    /// Keep running.
    Continue,
    /// Close the window.
    Exit,
    /// Launch the target at this index of the scanned list, then close.
    Launch(usize),
}

pub open spec fn app_names(apps: Seq<AppInfo>) -> Seq<Seq<char>> {
    apps.map_values(|a: AppInfo| a.name@)
}

/// Number of results on screen for `n` results.
pub open spec fn display_count(n: int) -> int {
    if n < DISPLAY_COUNT {
        n
    } else {
        DISPLAY_COUNT as int
    }
}

/// The result position that the text `c` names as a shortcut (`"1"` names the
/// first), when it is a numeral from 1 to the number of results on screen.
pub open spec fn shortcut_of(c: Seq<char>, shown: int) -> Option<int> {
    match unsigned_digits(c) {
        Some(d) => if 1 <= digits_value(d) <= shown {
            Some(digits_value(d) - 1)
        } else {
            None
        },
        None => None,
    }
}

/// Views of the names of `apps`, borrowed.
pub fn name_refs(apps: &Vec<AppInfo>) -> (r: Vec<&str>)
    ensures
        views_of(r@) == app_names(apps@),
{
    let mut out: Vec<&str> = Vec::new();
    let mut i: usize = 0;
    while i < apps.len()
        invariant
            i <= apps@.len(),
            out@.len() == i,
            forall|k: int| 0 <= k < i ==> (#[trigger] out@[k])@ == apps@[k].name@,
        decreases apps@.len() - i,
    {
        out.push(apps[i].name.as_str());
        i = i + 1;
    }
    assert(views_of(out@) =~= app_names(apps@));
    out
}

/// The search window's state.
pub struct AppState {
    /// Every launch target, in scan order.
    pub all_apps: Vec<AppInfo>,
    pub search_query: String,
    /// Selected position among the results on screen.
    pub selected_index: usize,
    /// Indices into `all_apps` of the results for `search_query`, best first.
    pub current_filtered_apps: Vec<usize>,
}

impl AppState {
    /// The results are the ranking of the query, and the selection is on screen.
    pub open spec fn wf(&self) -> bool {
        &&& is_ranking(
            app_names(self.all_apps@),
            self.search_query@,
            self.current_filtered_apps@,
        )
        &&& (self.selected_index == 0 || self.selected_index < display_count(
            self.current_filtered_apps@.len() as int,
        ))
    }

    pub fn new(all_apps: Vec<AppInfo>) -> (r: Self)
        ensures
            r.wf(),
            r.all_apps@ == all_apps@,
            r.search_query@.len() == 0,
            r.selected_index == 0,
            r.current_filtered_apps@.len() == 0,
    {
        AppState {
            all_apps,
            selected_index: 0,
            search_query: String::new(),
            current_filtered_apps: Vec::new(),
        }
    }

    /// Indices into `all_apps` of the targets that the query selects, best first.
    pub fn ranked_indices(&self) -> (r: Vec<usize>)
        ensures
            is_ranking(app_names(self.all_apps@), self.search_query@, r@),
    {
        let names = name_refs(&self.all_apps);
        rank(&names, self.search_query.as_str())
    }

    /// The targets that the query selects, best first.
    pub fn filtered_apps(&self) -> (r: Vec<&AppInfo>)
        ensures
            exists|idx: Seq<usize>|
                {
                    &&& is_ranking(app_names(self.all_apps@), self.search_query@, idx)
                    &&& r@.len() == idx.len()
                    &&& forall|j: int|
                        0 <= j < idx.len() ==> *r@[j] == self.all_apps@[idx[j] as int]
                },
    {
        let idx = self.ranked_indices();
        let mut out: Vec<&AppInfo> = Vec::new();
        let mut j: usize = 0;
        while j < idx.len()
            invariant
                is_ranking(app_names(self.all_apps@), self.search_query@, idx@),
                j <= idx@.len(),
                out@.len() == j,
                forall|m: int| 0 <= m < j ==> *out@[m] == self.all_apps@[idx@[m] as int],
            decreases idx@.len() - j,
        {
            let k = idx[j];
            out.push(&self.all_apps[k]);
            j = j + 1;
        }
        out
    }

    /// Sets the query and recomputes the results, selecting the first.
    fn set_query(&mut self, query: String)
        ensures
            final(self).wf(),
            final(self).all_apps@ == old(self).all_apps@,
            final(self).search_query@ == query@,
            final(self).selected_index == 0,
    {
        self.search_query = query;
        self.selected_index = 0;
        self.current_filtered_apps = self.ranked_indices();
    }

    /// Handles one event: updates the state and says what the window does next.
    pub fn update(&mut self, message: Message) -> (r: Action)
        requires
            old(self).wf(),
        ensures
            final(self).wf(),
            final(self).all_apps@ == old(self).all_apps@,
            ({
                let before = *old(self);
                let after = *final(self);
                let results = before.current_filtered_apps@;
                let shown = display_count(results.len() as int);
                let same = after == before;
                let requeried = after.selected_index == 0 && r == Action::Continue;
                match message {
                    Message::IgnoreEvent => same && r == Action::Continue,
                    Message::InputChanged(v) => requeried && after.search_query@ == v@,
                    Message::KeyPressed(key, m) => match key {
                        Key::Escape => same && r == Action::Exit,
                        Key::Enter => same && r == (if before.selected_index < results.len() {
                            Action::Launch(results[before.selected_index as int])
                        } else {
                            Action::Exit
                        }),
                        Key::ArrowDown => {
                            &&& after.search_query == before.search_query
                            &&& after.current_filtered_apps == before.current_filtered_apps
                            &&& r == Action::Continue
                            &&& after.selected_index == (if results.len() == 0 {
                                before.selected_index as int
                            } else {
                                (before.selected_index + 1) % shown
                            })
                        },
                        Key::ArrowUp => {
                            &&& after.search_query == before.search_query
                            &&& after.current_filtered_apps == before.current_filtered_apps
                            &&& r == Action::Continue
                            &&& after.selected_index == (if results.len() == 0 {
                                before.selected_index as int
                            } else if before.selected_index == 0 {
                                shown - 1
                            } else {
                                before.selected_index - 1
                            })
                        },
                        Key::Backspace => requeried && after.search_query@ == (
                        if before.search_query@.len() == 0 {
                            before.search_query@
                        } else {
                            before.search_query@.drop_last()
                        }),
                        Key::Character(c) => if m.logo {
                            same && r == (match shortcut_of(c@, shown) {
                                Some(p) => Action::Launch(results[p]),
                                None => Action::Continue,
                            })
                        } else if !m.control && !m.alt {
                            requeried && after.search_query@ == before.search_query@ + c@
                        } else {
                            same && r == Action::Continue
                        },
                        Key::Other => same && r == Action::Continue,
                    },
                }
            }),
    {
        let len = self.current_filtered_apps.len();
        let shown: usize = if len < DISPLAY_COUNT {
            len
        } else {
            DISPLAY_COUNT
        };
        match message {
            Message::IgnoreEvent => Action::Continue,
            Message::InputChanged(value) => {
                self.set_query(value);
                Action::Continue
            },
            Message::KeyPressed(key, m) => match key {
                Key::Escape => Action::Exit,
                Key::Enter => {
                    if self.selected_index < len {
                        Action::Launch(self.current_filtered_apps[self.selected_index])
                    } else {
                        Action::Exit
                    }
                },
                Key::ArrowDown => {
                    if len > 0 {
                        self.selected_index = (self.selected_index + 1) % shown;
                    }
                    Action::Continue
                },
                Key::ArrowUp => {
                    if len > 0 {
                        self.selected_index = if self.selected_index == 0 {
                            shown - 1
                        } else {
                            self.selected_index - 1
                        };
                    }
                    Action::Continue
                },
                Key::Backspace => {
                    let n = self.search_query.as_str().unicode_len();
                    let shorter = if n > 0 {
                        self.search_query.as_str().substring_char(0, n - 1).to_owned()
                    } else {
                        self.search_query.clone()
                    };
                    assert(n > 0 ==> shorter@ =~= self.search_query@.drop_last());
                    self.set_query(shorter);
                    Action::Continue
                },
                Key::Character(c) => {
                    if m.logo {
                        match capped_unsigned(c.as_str(), 8) {
                            Some(num) => {
                                if num >= 1 && num <= shown as u64 {
                                    Action::Launch(self.current_filtered_apps[(num - 1) as usize])
                                } else {
                                    Action::Continue
                                }
                            },
                            None => Action::Continue,
                        }
                    } else if !m.control && !m.alt {
                        let mut longer = self.search_query.clone();
                        longer.append(c.as_str());
                        self.set_query(longer);
                        Action::Continue
                    } else {
                        Action::Continue
                    }
                },
                Key::Other => Action::Continue,
            },
        }
    }
}

} // verus!
