//! The search window's state over the catalog (the window that is handed an
//! `AppModel`): the query, the ranked results and the selection.
use vstd::prelude::*;
use vstd::string::*;

use crate::matcher::{is_ranking, rank, views_of};
use crate::model::{App, AppModel};
use crate::numeral::capped_unsigned;
use crate::ui::{display_count, shortcut_of, Action, Key, DISPLAY_COUNT};

verus! {

/// An input event of the window.
#[derive(Debug, Clone)]
pub enum Message {
    InputChanged(String),
    KeyPressed(Key),
    /// Escape, caught before any widget sees it.
    ForceExit,
}

pub open spec fn catalog_names(apps: Seq<App>) -> Seq<Seq<char>> {
    apps.map_values(|a: App| a.name@)
}

/// Views of the names of `apps`, borrowed.
pub fn catalog_name_refs(apps: &Vec<App>) -> (r: Vec<&str>)
    ensures
        views_of(r@) == catalog_names(apps@),
{
    let mut out: Vec<&str> = Vec::new();
    let mut i: usize = 0;
    while i < apps.len()
        invariant
            i <= apps@.len(),
            out@.len() == i,
            forall|k: int| 0 <= k < i ==> (#[trigger] out@[k])@ == apps@[k].name@,
        decreases apps@.len() - i,
    {
        out.push(apps[i].name.as_str());
        i = i + 1;
    }
    assert(views_of(out@) =~= catalog_names(apps@));
    out
}

/// The search window's state.
pub struct AppState {
    /// The catalog.
    pub model: AppModel,
    pub search_query: String,
    /// Selected position among the results on screen.
    pub selected_index: usize,
    /// Indices into the catalog of the results for `search_query`, best first.
    pub current_filtered_apps: Vec<usize>,
}

impl AppState {
    /// The results are the ranking of the query, and the selection is on screen.
    pub open spec fn wf(&self) -> bool {
        &&& is_ranking(
            catalog_names(self.model.all_apps@),
            self.search_query@,
            self.current_filtered_apps@,
        )
        &&& (self.selected_index == 0 || self.selected_index < display_count(
            self.current_filtered_apps@.len() as int,
        ))
    }

    pub fn new(model: AppModel) -> (r: Self)
        ensures
            r.wf(),
            r.model == model,
            r.search_query@.len() == 0,
            r.selected_index == 0,
            r.current_filtered_apps@.len() == 0,
    {
        AppState {
            model,
            selected_index: 0,
            search_query: String::new(),
            current_filtered_apps: Vec::new(),
        }
    }

    /// Indices into `all_apps` of the targets that the query selects, best first.
    pub fn ranked_indices(&self) -> (r: Vec<usize>)
        ensures
            is_ranking(catalog_names(self.model.all_apps@), self.search_query@, r@),
    {
        let names = catalog_name_refs(&self.model.all_apps);
        rank(&names, self.search_query.as_str())
    }

    /// The targets that the query selects, best first.
    pub fn filtered_apps(&self) -> (r: Vec<&App>)
        ensures
            exists|idx: Seq<usize>|
                {
                    &&& is_ranking(catalog_names(self.model.all_apps@), self.search_query@, idx)
                    &&& r@.len() == idx.len()
                    &&& forall|j: int|
                        0 <= j < idx.len() ==> *r@[j] == self.model.all_apps@[idx[j] as int]
                },
    {
        let idx = self.ranked_indices();
        let mut out: Vec<&App> = Vec::new();
        let mut j: usize = 0;
        while j < idx.len()
            invariant
                is_ranking(catalog_names(self.model.all_apps@), self.search_query@, idx@),
                j <= idx@.len(),
                out@.len() == j,
                forall|m: int| 0 <= m < j ==> *out@[m] == self.model.all_apps@[idx@[m] as int],
            decreases idx@.len() - j,
        {
            let k = idx[j];
            out.push(&self.model.all_apps[k]);
            j = j + 1;
        }
        out
    }

    /// Sets the query and recomputes the results, selecting the first.
    fn set_query(&mut self, query: String)
        ensures
            final(self).wf(),
            final(self).model == old(self).model,
            final(self).search_query@ == query@,
            final(self).selected_index == 0,
    {
        self.search_query = query;
        self.selected_index = 0;
        self.current_filtered_apps = self.ranked_indices();
    }

    /// Handles one event: updates the state and says what the window does next.
    pub fn update(&mut self, message: Message) -> (r: Action)
        requires
            old(self).wf(),
        ensures
            final(self).wf(),
            final(self).model == old(self).model,
            ({
                let before = *old(self);
                let after = *final(self);
                let results = before.current_filtered_apps@;
                let shown = display_count(results.len() as int);
                let same = after == before;
                let requeried = after.selected_index == 0 && r == Action::Continue;
                match message {
                    Message::ForceExit => same && r == Action::Exit,
                    Message::InputChanged(v) => requeried && after.search_query@ == v@,
                    Message::KeyPressed(key) => match key {
                        Key::Escape => same && r == Action::Exit,
                        Key::Enter => same && r == (if before.selected_index < results.len() {
                            Action::Launch(results[before.selected_index as int])
                        } else {
                            Action::Exit
                        }),
                        Key::ArrowDown => {
                            &&& after.search_query == before.search_query
                            &&& after.current_filtered_apps == before.current_filtered_apps
                            &&& r == Action::Continue
                            &&& after.selected_index == (if results.len() == 0 {
                                before.selected_index as int
                            } else {
                                (before.selected_index + 1) % shown
                            })
                        },
                        Key::ArrowUp => {
                            &&& after.search_query == before.search_query
                            &&& after.current_filtered_apps == before.current_filtered_apps
                            &&& r == Action::Continue
                            &&& after.selected_index == (if results.len() == 0 {
                                before.selected_index as int
                            } else if before.selected_index == 0 {
                                shown - 1
                            } else {
                                before.selected_index - 1
                            })
                        },
                        Key::Character(c) => match shortcut_of(c@, shown) {
                            Some(p) => same && r == Action::Launch(results[p]),
                            None => requeried && after.search_query@ == before.search_query@ + c@,
                        },
                        _ => same && r == Action::Continue,
                    },
                }
            }),
    {
        let len = self.current_filtered_apps.len();
        let shown: usize = if len < DISPLAY_COUNT {
            len
        } else {
            DISPLAY_COUNT
        };
        match message {
            Message::ForceExit => Action::Exit,
            Message::InputChanged(value) => {
                self.set_query(value);
                Action::Continue
            },
            Message::KeyPressed(key) => match key {
                Key::Escape => Action::Exit,
                Key::Enter => {
                    if self.selected_index < len {
                        Action::Launch(self.current_filtered_apps[self.selected_index])
                    } else {
                        Action::Exit
                    }
                },
                Key::ArrowDown => {
                    if len > 0 {
                        self.selected_index = (self.selected_index + 1) % shown;
                    }
                    Action::Continue
                },
                Key::ArrowUp => {
                    if len > 0 {
                        self.selected_index = if self.selected_index == 0 {
                            shown - 1
                        } else {
                            self.selected_index - 1
                        };
                    }
                    Action::Continue
                },
                Key::Character(c) => {
                    let shortcut = match capped_unsigned(c.as_str(), 8) {
                        Some(num) => num >= 1 && num <= shown as u64,
                        None => false,
                    };
                    if shortcut {
                        let num = capped_unsigned(c.as_str(), 8).unwrap();
                        Action::Launch(self.current_filtered_apps[(num - 1) as usize])
                    } else {
                        let mut longer = self.search_query.clone();
                        longer.append(c.as_str());
                        self.set_query(longer);
                        Action::Continue
                    }
                },
                _ => Action::Continue,
            },
        }
    }
}

} // verus!
