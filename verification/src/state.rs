//! Application-level session state: the persisted preferences and the tab
//! registry, with every mutation the session controller performs on them.
//!
//! Persistence itself (reading and writing the preference file) is the
//! surrounding application's concern; this module only defines the record
//! and the exact effect of each operation.  Navigation, zoom and rotation
//! changes clear the active tab's selection state: a selection is meaningless
//! once the page content or its geometry changes, and stale highlights must
//! never survive into a new view.

use vstd::prelude::*;
use crate::geometry::COORD_LIMIT;
use crate::pdf::OutlineItem;
use crate::tabs::{
    apply_update, fresh_tab, has_tab, tab_index, DocumentKey, Tab, TabManager, TabUpdate, TabView,
};
use crate::text_selection::{mk_params, region_views, select_spec};

verus! {

/// Smallest zoom factor, in hundredths.
pub const MIN_ZOOM: u32 = 50;

/// Largest zoom factor, in hundredths.
pub const MAX_ZOOM: u32 = 300;

/// Zoom change of one step, in hundredths.
pub const ZOOM_STEP: u32 = 10;

/// Zoom factor of a fresh tab, in hundredths.
pub const DEFAULT_ZOOM: u32 = 100;

/// How many entries the recent-files list keeps.
pub const RECENT_FILES_LIMIT: usize = 10;

/// How the page view scrolls.
#[derive(Debug, Clone, Copy, PartialEq, Eq, Structural)]
pub enum ScrollMode {
    Page,
    Smooth,
}

/// What the pointer does over the page.
#[derive(Debug, Clone, Copy, PartialEq, Eq, Structural)]
pub enum SelectionMode {
    /// Hand cursor: the pointer pans and navigates.
    Hand,
    /// I-beam cursor: the pointer selects text.
    TextSelect,
}

/// The color scheme.
#[derive(Debug, Clone, Copy, PartialEq, Eq, Structural)]
pub enum Theme {
    Light,
    Dark,
}

/// The interface language.
#[derive(Debug, Clone, Copy, PartialEq, Eq, Structural)]
pub enum Language {
    English,
    Chinese,
}

/// Mathematical model of the persisted preferences.
pub ghost struct ConfigView {
    pub recent_files: Seq<Seq<char>>,
    pub default_zoom: int,
    pub theme: Theme,
    pub language: Language,
    pub scroll_mode: ScrollMode,
    pub selection_mode: SelectionMode,
}

/// The persisted preferences: the recently opened files (most recent
/// first, at most [`RECENT_FILES_LIMIT`]), the default zoom in hundredths,
/// and the view modes.
#[derive(Debug)]
pub struct AppConfig {
    pub recent_files: Vec<String>,
    pub default_zoom: u32,
    pub theme: Theme,
    pub language: Language,
    pub scroll_mode: ScrollMode,
    pub selection_mode: SelectionMode,
}

impl View for AppConfig {
    type V = ConfigView;

    open spec fn view(&self) -> ConfigView {
        ConfigView {
            recent_files: self.recent_files@.map_values(|s: String| s@),
            default_zoom: self.default_zoom as int,
            theme: self.theme,
            language: self.language,
            scroll_mode: self.scroll_mode,
            selection_mode: self.selection_mode,
        }
    }
}

/// The configuration a first run starts from.
pub open spec fn default_config() -> ConfigView {
    ConfigView {
        recent_files: Seq::empty(),
        default_zoom: DEFAULT_ZOOM as int,
        theme: Theme::Dark,
        language: Language::English,
        scroll_mode: ScrollMode::Page,
        selection_mode: SelectionMode::Hand,
    }
}

impl Default for AppConfig {
    /// No recent files, 1:1 zoom, dark theme, English, page scrolling, hand
    /// cursor.
    fn default() -> (r: Self)
        ensures
            r@ == default_config(),
    {
        let r = AppConfig {
            recent_files: Vec::new(),
            default_zoom: DEFAULT_ZOOM,
            theme: Theme::Dark,
            language: Language::English,
            scroll_mode: ScrollMode::Page,
            selection_mode: SelectionMode::Hand,
        };
        proof {
            assert(r@.recent_files =~= Seq::<Seq<char>>::empty());
        }
        r
    }
}

/// Whether the list already holds this path.
pub open spec fn has_recent(rs: Seq<Seq<char>>, path: Seq<char>) -> bool {
    exists|i: int| 0 <= i < rs.len() && rs[i] == path
}

/// The recent-files list after noting `path`: unchanged when already
/// present, else `path` in front and the oldest entry dropped once the list
/// exceeds its limit.
pub open spec fn noted_recent(rs: Seq<Seq<char>>, path: Seq<char>) -> Seq<Seq<char>> {
    if has_recent(rs, path) {
        rs
    } else {
        let grown = rs.insert(0, path);
        if grown.len() > RECENT_FILES_LIMIT {
            grown.drop_last()
        } else {
            grown
        }
    }
}

impl AppConfig {
    /// Notes a freshly opened file, exactly as [`noted_recent`] describes.
    pub fn note_recent_file(&mut self, path: String)
        ensures
            final(self)@ == (ConfigView { recent_files: noted_recent(old(self)@.recent_files, path@), ..old(self)@ }),
    {
        let ghost before = self@.recent_files;
        let mut found = false;
        let mut i: usize = 0;
        while i < self.recent_files.len()
            invariant
                i <= self.recent_files@.len(),
                before == self@.recent_files,
                found == exists|k: int| 0 <= k < i && before[k] == path@,
                forall|k: int| 0 <= k < self.recent_files@.len() ==> before[k] == (
                #[trigger] self.recent_files@[k])@,
            decreases self.recent_files@.len() - i,
        {
            if self.recent_files[i].eq(&path) {
                found = true;
                proof {
                    assert(before[i as int] == path@);
                }
            }
            i += 1;
        }
        proof {
            assert(found == has_recent(before, path@));
        }
        if !found {
            self.recent_files.insert(0, path);
            proof {
                assert(self@.recent_files =~= before.insert(0, path@));
            }
            if self.recent_files.len() > RECENT_FILES_LIMIT {
                let ghost grown = self@.recent_files;
                self.recent_files.pop();
                proof {
                    assert(self@.recent_files =~= grown.drop_last());
                }
            }
        }
    }

    /// Forgets every entry equal to `path`.
    pub fn remove_recent_file(&mut self, path: &String)
        ensures
            final(self)@ == (ConfigView {
                recent_files: old(self)@.recent_files.filter(|s: Seq<char>| s != path@),
                ..old(self)@
            }),
    {
        let ghost before = self@.recent_files;
        let ghost pred = |s: Seq<char>| s != path@;
        let mut kept: Vec<String> = Vec::new();
        let mut i: usize = 0;
        proof {
            assert(before.take(0) =~= Seq::<Seq<char>>::empty());
            assert(kept@.map_values(|s: String| s@) =~= before.take(0).filter(pred));
        }
        while i < self.recent_files.len()
            invariant
                i <= self.recent_files@.len(),
                before == self@.recent_files,
                pred == (|s: Seq<char>| s != path@),
                forall|k: int| 0 <= k < self.recent_files@.len() ==> before[k] == (
                #[trigger] self.recent_files@[k])@,
                kept@.map_values(|s: String| s@) == before.take(i as int).filter(pred),
            decreases self.recent_files@.len() - i,
        {
            let ghost kept_before = kept@.map_values(|s: String| s@);
            let keep = !self.recent_files[i].eq(path);
            if keep {
                let s = self.recent_files[i].clone();
                kept.push(s);
                proof {
                    assert(kept@.map_values(|s: String| s@) =~= kept_before.push(
                        before[i as int],
                    ));
                }
            }
            proof {
                assert(before.take(i + 1) =~= before.take(i as int).push(before[i as int]));
                crate::text_selection::lemma_filter_push(
                    before.take(i as int),
                    before[i as int],
                    pred,
                );
                assert(pred(before[i as int]) == keep);
            }
            i += 1;
        }
        proof {
            assert(before.take(before.len() as int) =~= before);
        }
        self.recent_files = kept;
    }
}

/// A tab with its selection state dropped, all else equal.
pub open spec fn cleared_selection(t: TabView) -> TabView {
    TabView {
        selection_start: None,
        selection_end: None,
        selected_text: Seq::empty(),
        selection_regions: Seq::empty(),
        ..t
    }
}

/// The whole session: the preferences and the open tabs.  The surrounding
/// application serializes access (one mutation at a time behind its lock)
/// and persists the configuration after each change to it.
pub struct AppState {
    pub config: AppConfig,
    pub tabs: TabManager,
}

impl AppState {
    /// The session's invariant: the registry's.
    pub open spec fn wf(self) -> bool {
        self.tabs.wf()
    }

    /// A fresh session with the given configuration (as loaded by the
    /// caller, or the default) and no tabs.
    pub fn new(config: AppConfig) -> (r: Self)
        ensures
            r.wf(),
            r.config@ == config@,
            r.tabs.tabs_view() == Seq::<TabView>::empty(),
            r.tabs.active_tab_id is None,
            r.tabs.next_tab_id == 0,
    {
        AppState { config, tabs: TabManager::new() }
    }

    /// Records a successful document open: a new active tab for `path`
    /// holding the engine's handle key, page count and outline, and `path`
    /// noted among the recent files.  Returns the new tab's id.
    pub fn open_file_new_tab(
        &mut self,
        path: String,
        doc: DocumentKey,
        page_count: usize,
        outline_items: Option<Vec<OutlineItem>>,
    ) -> (tab_id: usize)
        requires
            old(self).wf(),
            old(self).tabs.next_tab_id < usize::MAX,
        ensures
            final(self).wf(),
            tab_id == old(self).tabs.next_tab_id,
            final(self).tabs.next_tab_id == old(self).tabs.next_tab_id + 1,
            final(self).tabs.active_tab_id == Some(tab_id),
            final(self).tabs.tabs_view() == old(self).tabs.tabs_view().push(
                apply_update(
                    fresh_tab(tab_id as int, path@),
                    TabUpdate::AttachDocument { doc, page_count, outline_items },
                ),
            ),
            final(self).config@ == (ConfigView {
                recent_files: noted_recent(old(self).config@.recent_files, path@),
                ..old(self).config@
            }),
    {
        let path_for_recent = path.clone();
        let tab_id = self.tabs.create_tab(path);
        let ghost created = self.tabs.tabs_view();
        let ghost idx = created.len() - 1;
        proof {
            assert(created[idx].id == tab_id);
            assert(has_tab(created, tab_id as int));
            let w = tab_index(created, tab_id as int);
            assert(created[w].id == tab_id);
            assert(w == idx);
        }
        self.tabs.update_tab(
            tab_id,
            TabUpdate::AttachDocument { doc, page_count, outline_items },
        );
        proof {
            assert(self.tabs.tabs_view() =~= old(self).tabs.tabs_view().push(
                self.tabs.tabs_view()[idx],
            ));
        }
        self.config.note_recent_file(path_for_recent);
        tab_id
    }

    /// Closes the tab; see [`TabManager::close_tab`].
    pub fn close_tab(&mut self, tab_id: usize)
        requires
            old(self).wf(),
        ensures
            final(self).wf(),
            final(self).config == old(self).config,
            final(self).tabs.next_tab_id == old(self).tabs.next_tab_id,
            !has_tab(old(self).tabs.tabs_view(), tab_id as int) ==> final(self).tabs.tabs_view()
                == old(self).tabs.tabs_view() && final(self).tabs.active_tab_id == old(
                self,
            ).tabs.active_tab_id,
            has_tab(old(self).tabs.tabs_view(), tab_id as int) ==> {
                let idx = tab_index(old(self).tabs.tabs_view(), tab_id as int);
                let remaining = old(self).tabs.tabs_view().remove(idx);
                &&& final(self).tabs.tabs_view() == remaining
                &&& old(self).tabs.active_tab_id != Some(tab_id)
                    ==> final(self).tabs.active_tab_id == old(self).tabs.active_tab_id
                &&& old(self).tabs.active_tab_id == Some(tab_id) ==> crate::tabs::opt_id(
                    final(self).tabs.active_tab_id,
                ) == crate::tabs::active_after_close(remaining, idx)
            },
    {
        self.tabs.close_tab(tab_id);
    }

    /// Makes the tab active; see [`TabManager::set_active_tab`].
    pub fn set_active_tab(&mut self, tab_id: usize)
        requires
            old(self).wf(),
        ensures
            final(self).wf(),
            final(self).config == old(self).config,
            final(self).tabs.tabs_view() == old(self).tabs.tabs_view(),
            final(self).tabs.next_tab_id == old(self).tabs.next_tab_id,
            has_tab(old(self).tabs.tabs_view(), tab_id as int) ==> final(self).tabs.active_tab_id
                == Some(tab_id),
            !has_tab(old(self).tabs.tabs_view(), tab_id as int) ==> final(self).tabs.active_tab_id
                == old(self).tabs.active_tab_id,
    {
        self.tabs.set_active_tab(tab_id);
    }

    /// The active tab's id, if any tab is open.
    pub fn get_active_tab_id(&self) -> (r: Option<usize>)
        ensures
            r == self.tabs.active_tab_id,
    {
        self.tabs.get_active_tab()
    }

    /// Applies one mutation to the active tab, if any.
    pub fn update_active_tab(&mut self, u: TabUpdate)
        requires
            old(self).wf(),
        ensures
            final(self).wf(),
            final(self).config == old(self).config,
            final(self).tabs.active_tab_id == old(self).tabs.active_tab_id,
            final(self).tabs.next_tab_id == old(self).tabs.next_tab_id,
            old(self).tabs.active_tab_id is None ==> final(self).tabs.tabs_view() == old(
                self,
            ).tabs.tabs_view(),
            old(self).tabs.active_tab_id is Some ==> {
                let id = old(self).tabs.active_tab_id.unwrap() as int;
                let idx = tab_index(old(self).tabs.tabs_view(), id);
                has_tab(old(self).tabs.tabs_view(), id) ==> final(self).tabs.tabs_view() == old(
                    self,
                ).tabs.tabs_view().update(idx, apply_update(old(self).tabs.tabs_view()[idx], u))
            },
    {
        let active = self.tabs.get_active_tab();
        if let Some(tab_id) = active {
            self.tabs.update_tab(tab_id, u);
        }
    }

    /// Value copies of all tabs, in creation order.
    pub fn get_all_tabs(&self) -> (r: Vec<Tab>)
        requires
            self.wf(),
        ensures
            r@.map_values(|t: Tab| t@) == self.tabs.tabs_view(),
    {
        self.tabs.get_all_tabs()
    }

    /// Applies `u` to the active tab and clears its selection, the common
    /// shape of every navigation, zoom and rotation change.
    fn view_change_update(&mut self, u: TabUpdate)
        requires
            old(self).wf(),
        ensures
            final(self).wf(),
            final(self).config == old(self).config,
            final(self).tabs.active_tab_id == old(self).tabs.active_tab_id,
            final(self).tabs.next_tab_id == old(self).tabs.next_tab_id,
            old(self).tabs.active_tab_id is None ==> final(self).tabs.tabs_view() == old(
                self,
            ).tabs.tabs_view(),
            old(self).tabs.active_tab_id is Some ==> {
                let id = old(self).tabs.active_tab_id.unwrap() as int;
                let idx = tab_index(old(self).tabs.tabs_view(), id);
                final(self).tabs.tabs_view() == old(self).tabs.tabs_view().update(
                    idx,
                    cleared_selection(apply_update(old(self).tabs.tabs_view()[idx], u)),
                )
            },
    {
        let active = self.tabs.get_active_tab();
        if let Some(tab_id) = active {
            let ghost before = self.tabs.tabs_view();
            let ghost idx = tab_index(before, tab_id as int);
            proof {
                assert(has_tab(before, tab_id as int));
                assert(0 <= idx < before.len() && before[idx].id == tab_id);
            }
            self.tabs.update_tab(tab_id, u);
            let ghost mid = self.tabs.tabs_view();
            proof {
                crate::tabs::lemma_update_keeps_id(before[idx], u);
                assert(mid[idx].id == tab_id);
                let w = tab_index(mid, tab_id as int);
                assert(has_tab(mid, tab_id as int));
                assert(0 <= w < mid.len() && mid[w].id == tab_id);
                assert(w == idx) by {
                    if w != idx {
                        assert(mid[w].id == mid[idx].id);
                    }
                }
            }
            self.tabs.update_tab(tab_id, TabUpdate::ClearSelection);
            proof {
                assert(apply_update(mid[idx], TabUpdate::ClearSelection) == cleared_selection(
                    mid[idx],
                ));
                assert(self.tabs.tabs_view() =~= before.update(
                    idx,
                    cleared_selection(apply_update(before[idx], u)),
                ));
            }
        }
    }

    /// Jumps the active tab to `page` when that page exists; out-of-range
    /// pages (and the absence of any tab) are ignored.  A performed jump
    /// clears the selection: highlights never survive a page change.
    pub fn navigate_to_page(&mut self, page: usize)
        requires
            old(self).wf(),
        ensures
            final(self).wf(),
            final(self).config == old(self).config,
            final(self).tabs.active_tab_id == old(self).tabs.active_tab_id,
            final(self).tabs.next_tab_id == old(self).tabs.next_tab_id,
            old(self).tabs.active_tab_id is None ==> final(self).tabs.tabs_view() == old(
                self,
            ).tabs.tabs_view(),
            old(self).tabs.active_tab_id is Some ==> {
                let id = old(self).tabs.active_tab_id.unwrap() as int;
                let idx = tab_index(old(self).tabs.tabs_view(), id);
                let t = old(self).tabs.tabs_view()[idx];
                &&& page < t.page_count ==> final(self).tabs.tabs_view() == old(
                    self,
                ).tabs.tabs_view().update(
                    idx,
                    (TabView { current_page: page as int, ..cleared_selection(t) }),
                )
                &&& page >= t.page_count ==> final(self).tabs.tabs_view() == old(
                    self,
                ).tabs.tabs_view()
            },
    {
        let active = self.tabs.get_active_tab();
        if let Some(tab_id) = active {
            let snapshot = self.tabs.get_tab(tab_id);
            match snapshot {
                Some(tab) => {
                    if page < tab.page_count {
                        self.view_change_update(TabUpdate::SetCurrentPage(page));
                    }
                },
                None => {
                    // The active id always names a tab, so this arm cannot run.
                    proof {
                        assert(false);
                    }
                },
            }
        }
    }

    /// Advances the active tab one page, when a next page exists; clears
    /// the selection when it does.
    pub fn next_page(&mut self)
        requires
            old(self).wf(),
        ensures
            final(self).wf(),
            final(self).config == old(self).config,
            final(self).tabs.active_tab_id == old(self).tabs.active_tab_id,
            final(self).tabs.next_tab_id == old(self).tabs.next_tab_id,
            old(self).tabs.active_tab_id is None ==> final(self).tabs.tabs_view() == old(
                self,
            ).tabs.tabs_view(),
            old(self).tabs.active_tab_id is Some ==> {
                let id = old(self).tabs.active_tab_id.unwrap() as int;
                let idx = tab_index(old(self).tabs.tabs_view(), id);
                let t = old(self).tabs.tabs_view()[idx];
                &&& t.current_page + 1 < t.page_count ==> final(self).tabs.tabs_view() == old(
                    self,
                ).tabs.tabs_view().update(
                    idx,
                    (TabView { current_page: t.current_page + 1, ..cleared_selection(t) }),
                )
                &&& t.current_page + 1 >= t.page_count ==> final(self).tabs.tabs_view() == old(
                    self,
                ).tabs.tabs_view()
            },
    {
        let active = self.tabs.get_active_tab();
        if let Some(tab_id) = active {
            let snapshot = self.tabs.get_tab(tab_id);
            match snapshot {
                Some(tab) => {
                    if tab.current_page < usize::MAX && tab.current_page + 1 < tab.page_count {
                        self.view_change_update(
                            TabUpdate::SetCurrentPage(tab.current_page + 1),
                        );
                    }
                },
                None => {
                    // The active id always names a tab, so this arm cannot run.
                    proof {
                        assert(false);
                    }
                },
            }
        }
    }

    /// Steps the active tab one page back, when not on the first; clears
    /// the selection when it does.
    pub fn prev_page(&mut self)
        requires
            old(self).wf(),
        ensures
            final(self).wf(),
            final(self).config == old(self).config,
            final(self).tabs.active_tab_id == old(self).tabs.active_tab_id,
            final(self).tabs.next_tab_id == old(self).tabs.next_tab_id,
            old(self).tabs.active_tab_id is None ==> final(self).tabs.tabs_view() == old(
                self,
            ).tabs.tabs_view(),
            old(self).tabs.active_tab_id is Some ==> {
                let id = old(self).tabs.active_tab_id.unwrap() as int;
                let idx = tab_index(old(self).tabs.tabs_view(), id);
                let t = old(self).tabs.tabs_view()[idx];
                &&& t.current_page > 0 ==> final(self).tabs.tabs_view() == old(
                    self,
                ).tabs.tabs_view().update(
                    idx,
                    (TabView { current_page: t.current_page - 1, ..cleared_selection(t) }),
                )
                &&& t.current_page == 0 ==> final(self).tabs.tabs_view() == old(
                    self,
                ).tabs.tabs_view()
            },
    {
        let active = self.tabs.get_active_tab();
        if let Some(tab_id) = active {
            let snapshot = self.tabs.get_tab(tab_id);
            match snapshot {
                Some(tab) => {
                    if tab.current_page > 0 {
                        self.view_change_update(
                            TabUpdate::SetCurrentPage(tab.current_page - 1),
                        );
                    }
                },
                None => {
                    // The active id always names a tab, so this arm cannot run.
                    proof {
                        assert(false);
                    }
                },
            }
        }
    }
}

/// The zoom one step in from `z`, capped at [`MAX_ZOOM`].
pub open spec fn zoom_in_value(z: int) -> int {
    if z + ZOOM_STEP <= MAX_ZOOM {
        z + ZOOM_STEP
    } else {
        MAX_ZOOM as int
    }
}

/// The zoom one step out from `z`, floored at [`MIN_ZOOM`].
pub open spec fn zoom_out_value(z: int) -> int {
    if z - ZOOM_STEP >= MIN_ZOOM {
        z - ZOOM_STEP
    } else {
        MIN_ZOOM as int
    }
}

/// The rotation a quarter turn clockwise from `r`, kept in `[0, 360)`.
pub open spec fn rotated_cw(r: int) -> int {
    (r % 360 + 90) % 360
}

/// The rotation a quarter turn counter-clockwise from `r`, kept in
/// `[0, 360)`.
pub open spec fn rotated_ccw(r: int) -> int {
    (r % 360 + 270) % 360
}

impl AppState {
    /// Zooms the active tab one step in and clears its selection: the
    /// rendered geometry changes, so highlights computed for the old zoom
    /// are stale.
    pub fn zoom_in(&mut self)
        requires
            old(self).wf(),
        ensures
            final(self).wf(),
            final(self).config == old(self).config,
            final(self).tabs.active_tab_id == old(self).tabs.active_tab_id,
            final(self).tabs.next_tab_id == old(self).tabs.next_tab_id,
            old(self).tabs.active_tab_id is None ==> final(self).tabs.tabs_view() == old(
                self,
            ).tabs.tabs_view(),
            old(self).tabs.active_tab_id is Some ==> {
                let id = old(self).tabs.active_tab_id.unwrap() as int;
                let idx = tab_index(old(self).tabs.tabs_view(), id);
                let t = old(self).tabs.tabs_view()[idx];
                final(self).tabs.tabs_view() == old(self).tabs.tabs_view().update(
                    idx,
                    (TabView { zoom: zoom_in_value(t.zoom), ..cleared_selection(t) }),
                )
            },
    {
        let active = self.tabs.get_active_tab();
        if let Some(tab_id) = active {
            let snapshot = self.tabs.get_tab(tab_id);
            match snapshot {
                Some(tab) => {
                    let new_zoom = if tab.zoom <= MAX_ZOOM - ZOOM_STEP {
                        tab.zoom + ZOOM_STEP
                    } else {
                        MAX_ZOOM
                    };
                    self.view_change_update(TabUpdate::SetZoom(new_zoom));
                },
                None => {
                    // The active id always names a tab, so this arm cannot run.
                    proof {
                        assert(false);
                    }
                },
            }
        }
    }

    /// Zooms the active tab one step out and clears its selection.
    pub fn zoom_out(&mut self)
        requires
            old(self).wf(),
        ensures
            final(self).wf(),
            final(self).config == old(self).config,
            final(self).tabs.active_tab_id == old(self).tabs.active_tab_id,
            final(self).tabs.next_tab_id == old(self).tabs.next_tab_id,
            old(self).tabs.active_tab_id is None ==> final(self).tabs.tabs_view() == old(
                self,
            ).tabs.tabs_view(),
            old(self).tabs.active_tab_id is Some ==> {
                let id = old(self).tabs.active_tab_id.unwrap() as int;
                let idx = tab_index(old(self).tabs.tabs_view(), id);
                let t = old(self).tabs.tabs_view()[idx];
                final(self).tabs.tabs_view() == old(self).tabs.tabs_view().update(
                    idx,
                    (TabView { zoom: zoom_out_value(t.zoom), ..cleared_selection(t) }),
                )
            },
    {
        let active = self.tabs.get_active_tab();
        if let Some(tab_id) = active {
            let snapshot = self.tabs.get_tab(tab_id);
            match snapshot {
                Some(tab) => {
                    let new_zoom = if tab.zoom >= MIN_ZOOM + ZOOM_STEP {
                        tab.zoom - ZOOM_STEP
                    } else {
                        MIN_ZOOM
                    };
                    self.view_change_update(TabUpdate::SetZoom(new_zoom));
                },
                None => {
                    // The active id always names a tab, so this arm cannot run.
                    proof {
                        assert(false);
                    }
                },
            }
        }
    }

    /// Resets the active tab's zoom to 1:1 and clears its selection.
    pub fn reset_zoom(&mut self)
        requires
            old(self).wf(),
        ensures
            final(self).wf(),
            final(self).config == old(self).config,
            final(self).tabs.active_tab_id == old(self).tabs.active_tab_id,
            final(self).tabs.next_tab_id == old(self).tabs.next_tab_id,
            old(self).tabs.active_tab_id is None ==> final(self).tabs.tabs_view() == old(
                self,
            ).tabs.tabs_view(),
            old(self).tabs.active_tab_id is Some ==> {
                let id = old(self).tabs.active_tab_id.unwrap() as int;
                let idx = tab_index(old(self).tabs.tabs_view(), id);
                let t = old(self).tabs.tabs_view()[idx];
                final(self).tabs.tabs_view() == old(self).tabs.tabs_view().update(
                    idx,
                    (TabView { zoom: DEFAULT_ZOOM as int, ..cleared_selection(t) }),
                )
            },
    {
        self.view_change_update(TabUpdate::SetZoom(DEFAULT_ZOOM));
    }

    /// Rotates the active tab a quarter turn clockwise and clears its
    /// selection: highlights never survive a rotation.
    pub fn rotate_clockwise(&mut self)
        requires
            old(self).wf(),
        ensures
            final(self).wf(),
            final(self).config == old(self).config,
            final(self).tabs.active_tab_id == old(self).tabs.active_tab_id,
            final(self).tabs.next_tab_id == old(self).tabs.next_tab_id,
            old(self).tabs.active_tab_id is None ==> final(self).tabs.tabs_view() == old(
                self,
            ).tabs.tabs_view(),
            old(self).tabs.active_tab_id is Some ==> {
                let id = old(self).tabs.active_tab_id.unwrap() as int;
                let idx = tab_index(old(self).tabs.tabs_view(), id);
                let t = old(self).tabs.tabs_view()[idx];
                final(self).tabs.tabs_view() == old(self).tabs.tabs_view().update(
                    idx,
                    (TabView { rotation: rotated_cw(t.rotation), ..cleared_selection(t) }),
                )
            },
    {
        let active = self.tabs.get_active_tab();
        if let Some(tab_id) = active {
            let snapshot = self.tabs.get_tab(tab_id);
            match snapshot {
                Some(tab) => {
                    let new_rotation = (tab.rotation % 360 + 90) % 360;
                    self.view_change_update(TabUpdate::SetRotation(new_rotation));
                },
                None => {
                    // The active id always names a tab, so this arm cannot run.
                    proof {
                        assert(false);
                    }
                },
            }
        }
    }

    /// Rotates the active tab a quarter turn counter-clockwise and clears
    /// its selection.
    pub fn rotate_counter_clockwise(&mut self)
        requires
            old(self).wf(),
        ensures
            final(self).wf(),
            final(self).config == old(self).config,
            final(self).tabs.active_tab_id == old(self).tabs.active_tab_id,
            final(self).tabs.next_tab_id == old(self).tabs.next_tab_id,
            old(self).tabs.active_tab_id is None ==> final(self).tabs.tabs_view() == old(
                self,
            ).tabs.tabs_view(),
            old(self).tabs.active_tab_id is Some ==> {
                let id = old(self).tabs.active_tab_id.unwrap() as int;
                let idx = tab_index(old(self).tabs.tabs_view(), id);
                let t = old(self).tabs.tabs_view()[idx];
                final(self).tabs.tabs_view() == old(self).tabs.tabs_view().update(
                    idx,
                    (TabView { rotation: rotated_ccw(t.rotation), ..cleared_selection(t) }),
                )
            },
    {
        let active = self.tabs.get_active_tab();
        if let Some(tab_id) = active {
            let snapshot = self.tabs.get_tab(tab_id);
            match snapshot {
                Some(tab) => {
                    let new_rotation = (tab.rotation % 360 + 270) % 360;
                    self.view_change_update(TabUpdate::SetRotation(new_rotation));
                },
                None => {
                    // The active id always names a tab, so this arm cannot run.
                    proof {
                        assert(false);
                    }
                },
            }
        }
    }

    /// Drops the active tab's selection state entirely.
    pub fn clear_selection(&mut self)
        requires
            old(self).wf(),
        ensures
            final(self).wf(),
            final(self).config == old(self).config,
            final(self).tabs.active_tab_id == old(self).tabs.active_tab_id,
            final(self).tabs.next_tab_id == old(self).tabs.next_tab_id,
            old(self).tabs.active_tab_id is None ==> final(self).tabs.tabs_view() == old(
                self,
            ).tabs.tabs_view(),
            old(self).tabs.active_tab_id is Some ==> {
                let id = old(self).tabs.active_tab_id.unwrap() as int;
                let idx = tab_index(old(self).tabs.tabs_view(), id);
                let t = old(self).tabs.tabs_view()[idx];
                final(self).tabs.tabs_view() == old(self).tabs.tabs_view().update(
                    idx,
                    cleared_selection(t),
                )
            },
    {
        self.view_change_update(TabUpdate::ClearSelection);
    }

    /// Sets the color scheme.
    pub fn set_theme(&mut self, theme: Theme)
        ensures
            final(self).tabs == old(self).tabs,
            final(self).config@ == (ConfigView { theme, ..old(self).config@ }),
    {
        self.config.theme = theme;
    }

    /// The color scheme.
    pub fn get_theme(&self) -> (r: Theme)
        ensures
            r == self.config.theme,
    {
        self.config.theme
    }

    /// Sets the interface language.
    pub fn set_language(&mut self, language: Language)
        ensures
            final(self).tabs == old(self).tabs,
            final(self).config@ == (ConfigView { language, ..old(self).config@ }),
    {
        self.config.language = language;
    }

    /// The interface language.
    pub fn get_language(&self) -> (r: Language)
        ensures
            r == self.config.language,
    {
        self.config.language
    }

    /// Sets how the page view scrolls.
    pub fn set_scroll_mode(&mut self, scroll_mode: ScrollMode)
        ensures
            final(self).tabs == old(self).tabs,
            final(self).config@ == (ConfigView { scroll_mode, ..old(self).config@ }),
    {
        self.config.scroll_mode = scroll_mode;
    }

    /// How the page view scrolls.
    pub fn get_scroll_mode(&self) -> (r: ScrollMode)
        ensures
            r == self.config.scroll_mode,
    {
        self.config.scroll_mode
    }

    /// Sets what the pointer does over the page.
    pub fn set_selection_mode(&mut self, selection_mode: SelectionMode)
        ensures
            final(self).tabs == old(self).tabs,
            final(self).config@ == (ConfigView { selection_mode, ..old(self).config@ }),
    {
        self.config.selection_mode = selection_mode;
    }

    /// What the pointer does over the page.
    pub fn get_selection_mode(&self) -> (r: SelectionMode)
        ensures
            r == self.config.selection_mode,
    {
        self.config.selection_mode
    }

    /// Switches between the hand and the text-selection cursor, returning
    /// the mode now in force.
    pub fn toggle_selection_mode(&mut self) -> (r: SelectionMode)
        ensures
            final(self).tabs == old(self).tabs,
            old(self).config.selection_mode == SelectionMode::Hand ==> r
                == SelectionMode::TextSelect,
            old(self).config.selection_mode == SelectionMode::TextSelect ==> r
                == SelectionMode::Hand,
            final(self).config@ == (ConfigView { selection_mode: r, ..old(self).config@ }),
    {
        let mode = match self.config.selection_mode {
            SelectionMode::Hand => SelectionMode::TextSelect,
            SelectionMode::TextSelect => SelectionMode::Hand,
        };
        self.config.selection_mode = mode;
        mode
    }

    /// The recently opened files, most recent first.
    pub fn get_recent_files(&self) -> (r: Vec<String>)
        ensures
            r@.map_values(|s: String| s@) == self.config@.recent_files,
    {
        let r = self.config.recent_files.clone();
        proof {
            assert(r@.map_values(|s: String| s@) =~= self.config@.recent_files);
        }
        r
    }

    /// Forgets a path among the recent files.
    pub fn remove_from_recent(&mut self, path: &String)
        ensures
            final(self).tabs == old(self).tabs,
            final(self).config@ == (ConfigView {
                recent_files: old(self).config@.recent_files.filter(|s: Seq<char>| s != path@),
                ..old(self).config@
            }),
    {
        self.config.remove_recent_file(path);
    }
}

impl Default for AppState {
    /// A fresh session with the default configuration and no tabs.
    fn default() -> (r: Self)
        ensures
            r.wf(),
            r.config@ == default_config(),
            r.tabs.tabs_view() == Seq::<TabView>::empty(),
            r.tabs.active_tab_id is None,
            r.tabs.next_tab_id == 0,
    {
        AppState::new(AppConfig::default())
    }
}

/// Whether a tab has everything a selection query needs: a document, a
/// cached text extraction whose coordinates are in range, and cached render
/// dimensions within the accepted size.
pub open spec fn selection_ready(t: TabView) -> bool {
    &&& t.doc is Some
    &&& t.page_text is Some
    &&& crate::pdf::page_chars_wf(t.page_text.unwrap().chars)
    &&& t.page_dimensions is Some
    &&& t.page_dimensions.unwrap().0 <= crate::geometry::DIM_LIMIT
    &&& t.page_dimensions.unwrap().1 <= crate::geometry::DIM_LIMIT
}

impl AppState {
    /// Runs the selection engine for a drag over the active tab's cached
    /// page text and stores the result on that tab.  The page's size in
    /// milli-points comes from the engine; the drag points are in
    /// milli-pixels over the cached render.  Nothing happens without an
    /// active tab, or when the tab lacks a document, cached text or cached
    /// render dimensions — a selection cannot be computed then.
    pub fn update_text_selection(
        &mut self,
        pdf_width: i64,
        pdf_height: i64,
        start_x: i64,
        start_y: i64,
        end_x: i64,
        end_y: i64,
    )
        requires
            old(self).wf(),
            0 < pdf_width <= COORD_LIMIT,
            0 < pdf_height <= COORD_LIMIT,
        ensures
            final(self).wf(),
            final(self).config == old(self).config,
            final(self).tabs.active_tab_id == old(self).tabs.active_tab_id,
            final(self).tabs.next_tab_id == old(self).tabs.next_tab_id,
            old(self).tabs.active_tab_id is None ==> final(self).tabs.tabs_view() == old(
                self,
            ).tabs.tabs_view(),
            old(self).tabs.active_tab_id is Some ==> {
                let id = old(self).tabs.active_tab_id.unwrap() as int;
                let idx = tab_index(old(self).tabs.tabs_view(), id);
                let t = old(self).tabs.tabs_view()[idx];
                &&& !selection_ready(t) ==> final(self).tabs.tabs_view() == old(
                    self,
                ).tabs.tabs_view()
                &&& selection_ready(t) ==> {
                    let p = mk_params(
                        pdf_width as int,
                        pdf_height as int,
                        t.page_dimensions.unwrap().0 as int,
                        t.page_dimensions.unwrap().1 as int,
                        start_x as int,
                        start_y as int,
                        end_x as int,
                        end_y as int,
                    );
                    let outcome = select_spec(t.page_text.unwrap().chars, p);
                    let stored = final(self).tabs.tabs_view()[idx];
                    &&& final(self).tabs.tabs_view() == old(self).tabs.tabs_view().update(
                        idx,
                        stored,
                    )
                    &&& stored == (TabView {
                        selected_text: stored.selected_text,
                        selection_regions: stored.selection_regions,
                        ..t
                    })
                    &&& stored.selected_text == outcome.0
                    &&& region_views(stored.selection_regions) == outcome.1
                }
            },
    {
        let active = self.tabs.get_active_tab();
        if let Some(tab_id) = active {
            let ghost before = self.tabs.tabs_view();
            let ghost idx = tab_index(before, tab_id as int);
            let snapshot = self.tabs.get_tab(tab_id);
            match snapshot {
                Some(tab) => {
                    if let Some(page_text) = &tab.page_text {
                        if tab.doc.is_some() {
                            if let Some((page_width, page_height)) = tab.page_dimensions {
                                if page_width <= crate::geometry::DIM_LIMIT && page_height
                                    <= crate::geometry::DIM_LIMIT && page_text.coords_ok() {
                                    let (selected_text, selection_regions) =
                                        crate::text_selection::calculate_text_selection(
                                        page_text,
                                        pdf_width,
                                        pdf_height,
                                        page_width,
                                        page_height,
                                        start_x,
                                        start_y,
                                        end_x,
                                        end_y,
                                    );
                                    self.tabs.update_tab(
                                        tab_id,
                                        TabUpdate::SetSelection { selected_text, selection_regions },
                                    );
                                    proof {
                                        assert(selection_ready(before[idx]));
                                    }
                                }
                            }
                        }
                    }
                },
                None => {
                    // The active id always names a tab, so this arm cannot run.
                    proof {
                        assert(false);
                    }
                },
            }
        }
    }
}

} // verus!
