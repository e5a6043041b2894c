use vstd::prelude::*;

use crate::kodansha::volume::Volume;
use crate::tui::download::{spec_is_plan, spec_remove_first, Download, PrerenderAction};
use crate::tui::nav::{
    select_next, select_prev, spec_clamp_selection, spec_select_next, spec_select_prev, Key,
};

verus! {

/// What the library screen is doing.
#[derive(Clone, Copy, PartialEq, Eq, Structural, Debug)]
pub enum UserMode {
    Normal,
    Highlight,
    Download,
}

/// The logged-in user's screen: the library list with its highlight, and
/// the download panel, which owns the selection set.
pub struct User {
    pub list_state: Option<usize>,
    pub mode: UserMode,
    pub download_tab: Download,
}

impl User {
    /// A fresh screen over an empty download panel.
    pub fn new() -> (u: User)
        ensures
            u.list_state is None,
            u.mode is Normal,
            u.download_tab.mode is Normal,
            u.download_tab.destination is Unset,
            u.download_tab.selection() == Seq::<usize>::empty(),
            u.download_tab.progress() == Map::<u16, u8>::empty(),
    {
        User { list_state: None, mode: UserMode::Normal, download_tab: Download::new() }
    }

    /// One prerender step: the download panel decides what the surrounding
    /// loop must do next.
    pub fn prerender(&mut self, volumes: &Vec<Volume>) -> (r: PrerenderAction)
        ensures
            final(self).list_state == old(self).list_state,
            final(self).mode == old(self).mode,
            final(self).download_tab.selection() == old(self).download_tab.selection(),
            final(self).download_tab.progress() == old(self).download_tab.progress(),
            (old(self).download_tab.destination is Current && old(self).download_tab.mode
                is Download ==> (r matches PrerenderAction::StartDownloads(plan) && spec_is_plan(
                volumes@,
                old(self).download_tab.selection(),
                plan@,
            ) && final(self).download_tab.mode is Normal)),
    {
        self.download_tab.prerender(volumes)
    }

    /// One key press. `l` starts browsing the library; in browsing mode the
    /// arrow keys move the highlight, the space bar toggles the highlighted
    /// volume in and out of the selection set, and Esc leaves. `d` and `f`
    /// hand over to the download panel, as does anything unhandled here.
    pub fn new_event(&mut self, normal_mode: &mut bool, key: Key, volume_count: usize) -> (handled:
        bool)
        ensures
            (old(self).mode is Normal && key == Key::Char('l') ==> handled && final(self).mode
                is Highlight && final(self).list_state == Some(0usize) && !*final(normal_mode)
                && final(self).download_tab.selection() == old(self).download_tab.selection()),
            (old(self).mode is Highlight ==> ((key == Key::Char(' ') || key == Key::Char('a'))
                ==> handled && (match old(self).list_state {
                Some(sel) => {
                    &&& (old(self).download_tab.selection().contains(sel) ==> final(self).download_tab.selection() == spec_remove_first(
                        old(self).download_tab.selection(),
                        sel,
                    ))
                    &&& (!old(self).download_tab.selection().contains(sel) ==> final(self).download_tab.selection() == old(self).download_tab.selection().push(sel))
                },
                None => final(self).download_tab.selection() == old(self).download_tab.selection(),
            }))),
            (old(self).mode is Normal && (key == Key::Char('d') || key == Key::Char('f'))
                ==> handled && final(self).mode is Download),
            (old(self).mode is Download && key == Key::Enter ==> handled && final(self).mode
                is Normal),
            (old(self).mode is Highlight && (key == Key::Char('j') || key == Key::Down)
                ==> handled && final(self).mode == old(self).mode && final(self).list_state
                == spec_select_next(
                spec_clamp_selection(old(self).list_state, volume_count as int),
                volume_count as int,
            )),
            (old(self).mode is Highlight && (key == Key::Char('k') || key == Key::Up) ==> handled
                && final(self).mode == old(self).mode && final(self).list_state
                == spec_select_prev(
                spec_clamp_selection(old(self).list_state, volume_count as int),
                volume_count as int,
            )),
            (old(self).mode is Highlight && (key == Key::Esc || key == Key::Char('q') || key
                == Key::Char('l')) ==> handled && final(self).mode is Normal && final(self).list_state is None && *final(normal_mode)),
    {
        match (self.mode, key) {
            (UserMode::Normal, Key::Char('l')) => {
                self.list_state = Some(0);
                *normal_mode = false;
                self.mode = UserMode::Highlight;
                true
            },
            (UserMode::Normal, Key::Char('d')) | (UserMode::Normal, Key::Char('f')) => {
                self.mode = UserMode::Download;
                self.download_tab.new_event(normal_mode, key);
                true
            },
            (UserMode::Download, Key::Enter) => {
                self.mode = UserMode::Normal;
                self.download_tab.new_event(normal_mode, key);
                true
            },
            (UserMode::Highlight, Key::Char('j')) | (UserMode::Highlight, Key::Down) => {
                let current = match self.list_state {
                    Some(s) => if s < volume_count {
                        Some(s)
                    } else {
                        None
                    },
                    None => None,
                };
                self.list_state = select_next(current, volume_count);
                true
            },
            (UserMode::Highlight, Key::Char('k')) | (UserMode::Highlight, Key::Up) => {
                let current = match self.list_state {
                    Some(s) => if s < volume_count {
                        Some(s)
                    } else {
                        None
                    },
                    None => None,
                };
                self.list_state = select_prev(current, volume_count);
                true
            },
            (UserMode::Highlight, Key::Esc)
            | (UserMode::Highlight, Key::Char('q'))
            | (UserMode::Highlight, Key::Char('l')) => {
                self.list_state = None;
                self.mode = UserMode::Normal;
                *normal_mode = true;
                true
            },
            (UserMode::Highlight, Key::Char(' ')) | (UserMode::Highlight, Key::Char('a')) => {
                if let Some(sel) = self.list_state {
                    self.download_tab.toggle_selected(sel);
                }
                true
            },
            _ => self.download_tab.new_event(normal_mode, key),
        }
    }
}

} // verus!
