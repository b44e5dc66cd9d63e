//! Per-document view sessions ("tabs") and the registry that owns them.
//!
//! A [`Tab`] is one open document's view state; the [`TabManager`] owns the
//! tabs in creation order together with the single active-tab pointer and a
//! monotonic id counter.  Ids are never reused.  Every mutation of a tab
//! goes through [`TabManager::update_tab`], so a caller holding the manager
//! exclusively (behind its lock) observes each mutation atomically; unknown
//! ids degrade to no-ops or absent results, never to errors, because ids
//! arriving from the presentation layer may race with asynchronous closes.

use vstd::prelude::*;
use crate::pdf::{OutlineItem, PageText, PageTextView};

verus! {

/// Mathematical model of a highlight rectangle, in unbounded integers.
pub ghost struct RegionView {
    pub x: int,
    pub y: int,
    pub width: int,
    pub height: int,
}

/// One highlight rectangle of a text selection, in image-pixel space
/// (top-left origin, y growing downward), in milli-pixels.
#[derive(Clone, Copy, PartialEq, Eq, Structural, Debug)]
pub struct SelectionRegion {
    pub x: i64,
    pub y: i64,
    pub width: i64,
    pub height: i64,
}

impl View for SelectionRegion {
    type V = RegionView;

    open spec fn view(&self) -> RegionView {
        RegionView {
            x: self.x as int,
            y: self.y as int,
            width: self.width as int,
            height: self.height as int,
        }
    }
}

/// Names one document handle held by the engine-facing layer.  The handle
/// itself lives outside the core; a tab refers to it by this key only, so a
/// completed background open can be matched back to its tab.
#[derive(Clone, Copy, PartialEq, Eq, Structural, Debug)]
pub struct DocumentKey {
    pub key: usize,
}

/// Mathematical model of one tab.
pub ghost struct TabView {
    pub id: int,
    pub path: Seq<char>,
    pub doc: Option<DocumentKey>,
    pub page_count: int,
    pub current_page: int,
    pub zoom: int,
    pub rotation: int,
    pub outline_items: Option<Seq<OutlineItem>>,
    pub page_image: Option<Seq<u8>>,
    pub page_dimensions: Option<(u32, u32)>,
    pub page_text: Option<PageTextView>,
    pub selection_start: Option<(i64, i64)>,
    pub selection_end: Option<(i64, i64)>,
    pub selected_text: Seq<char>,
    pub selection_regions: Seq<SelectionRegion>,
}

/// One open document's view session.  `zoom` is in hundredths (100 is 1:1),
/// `rotation` in degrees (one of 0, 90, 180, 270), `current_page` 0-based.
/// The cached render (`page_image`, RGBA bytes, with `page_dimensions`) and
/// the cached extraction (`page_text`) belong to `current_page`.
#[derive(Debug)]
pub struct Tab {
    pub id: usize,
    pub path: String,
    pub doc: Option<DocumentKey>,
    pub page_count: usize,
    pub current_page: usize,
    pub zoom: u32,
    pub rotation: u32,
    pub outline_items: Option<Vec<OutlineItem>>,
    pub page_image: Option<Vec<u8>>,
    pub page_dimensions: Option<(u32, u32)>,
    pub page_text: Option<PageText>,
    pub selection_start: Option<(i64, i64)>,
    pub selection_end: Option<(i64, i64)>,
    pub selected_text: String,
    pub selection_regions: Vec<SelectionRegion>,
}

impl View for Tab {
    type V = TabView;

    open spec fn view(&self) -> TabView {
        TabView {
            id: self.id as int,
            path: self.path@,
            doc: self.doc,
            page_count: self.page_count as int,
            current_page: self.current_page as int,
            zoom: self.zoom as int,
            rotation: self.rotation as int,
            outline_items: match self.outline_items {
                None => None,
                Some(v) => Some(v@),
            },
            page_image: match self.page_image {
                None => None,
                Some(v) => Some(v@),
            },
            page_dimensions: self.page_dimensions,
            page_text: match self.page_text {
                None => None,
                Some(pt) => Some(pt@),
            },
            selection_start: self.selection_start,
            selection_end: self.selection_end,
            selected_text: self.selected_text@,
            selection_regions: self.selection_regions@,
        }
    }
}

/// The default state of a fresh tab for `path` with id `id`: no document
/// attached yet, first page, 1:1 zoom, no rotation, nothing cached, nothing
/// selected.
pub open spec fn fresh_tab(id: int, path: Seq<char>) -> TabView {
    TabView {
        id: id,
        path: path,
        doc: None,
        page_count: 0,
        current_page: 0,
        zoom: 100,
        rotation: 0,
        outline_items: None,
        page_image: None,
        page_dimensions: None,
        page_text: None,
        selection_start: None,
        selection_end: None,
        selected_text: Seq::empty(),
        selection_regions: Seq::empty(),
    }
}

impl Tab {
    /// A fresh tab in the default state.
    pub fn new(id: usize, path: String) -> (r: Self)
        ensures
            r@ == fresh_tab(id as int, path@),
    {
        let r = Tab {
            id,
            path,
            doc: None,
            page_count: 0,
            current_page: 0,
            zoom: 100,
            rotation: 0,
            outline_items: None,
            page_image: None,
            page_dimensions: None,
            page_text: None,
            selection_start: None,
            selection_end: None,
            selected_text: String::new(),
            selection_regions: Vec::new(),
        };
        proof {
            assert(r@.selected_text =~= Seq::<char>::empty());
            assert(r@.selection_regions =~= Seq::<SelectionRegion>::empty());
        }
        r
    }
}

/// The path's component after its last `/`; everything when there is none,
/// empty when the path ends in `/`.
pub open spec fn after_last_slash(s: Seq<char>) -> Seq<char>
    decreases s.len(),
{
    if s.len() == 0 {
        s
    } else if s.last() == '/' {
        Seq::empty()
    } else {
        after_last_slash(s.drop_last()).push(s.last())
    }
}

/// What [`Tab::file_name`] returns: the path's last component, or
/// "Untitled" when the path names none.
pub open spec fn file_name_of(path: Seq<char>) -> Seq<char> {
    if after_last_slash(path).len() == 0 {
        "Untitled"@
    } else {
        after_last_slash(path)
    }
}

/// Past the last `/` the suffix is exactly the path's tail.
proof fn lemma_after_last_slash(s: Seq<char>, cut: int)
    requires
        0 <= cut <= s.len(),
        cut == 0 || s[cut - 1] == '/',
        forall|k: int| cut <= k < s.len() ==> s[k] != '/',
    ensures
        after_last_slash(s) == s.subrange(cut, s.len() as int),
    decreases s.len(),
{
    if s.len() == 0 {
        assert(s.subrange(0, 0) =~= s);
    } else if s.last() == '/' {
        assert(cut == s.len());
        assert(s.subrange(cut, s.len() as int) =~= Seq::<char>::empty());
    } else {
        assert(cut < s.len());
        lemma_after_last_slash(s.drop_last(), cut);
        assert(s.drop_last().subrange(cut, s.len() - 1).push(s.last()) =~= s.subrange(
            cut,
            s.len() as int,
        ));
    }
}

impl Tab {
    /// The file's display name: the path's component after the last `/`,
    /// or "Untitled" when the path names none.
    pub fn file_name(&self) -> (r: String)
        ensures
            r@ == file_name_of(self.path@),
    {
        let s = self.path.as_str();
        let n = s.unicode_len();
        let mut cut: usize = 0;
        let mut i: usize = 0;
        while i < n
            invariant
                n == s@.len(),
                cut <= i <= n,
                cut == 0 || s@[cut - 1] == '/',
                forall|k: int| cut <= k < i ==> s@[k] != '/',
            decreases n - i,
        {
            if s.get_char(i) == '/' {
                cut = i + 1;
            }
            i += 1;
        }
        proof {
            lemma_after_last_slash(s@, cut as int);
        }
        if cut == n {
            String::from_str("Untitled")
        } else {
            let sub = s.substring_char(cut, n);
            sub.to_owned()
        }
    }
}

impl Clone for Tab {
    /// The copy models the same tab: equal views, field for field.
    fn clone(&self) -> (r: Self)
        ensures
            r@ == self@,
    {
        let outline_items = match &self.outline_items {
            None => None,
            Some(v) => Some(v.clone()),
        };
        let page_image = match &self.page_image {
            None => None,
            Some(v) => Some(v.clone()),
        };
        let page_text = match &self.page_text {
            None => None,
            Some(pt) => Some(pt.clone()),
        };
        let r = Tab {
            id: self.id,
            path: self.path.clone(),
            doc: self.doc,
            page_count: self.page_count,
            current_page: self.current_page,
            zoom: self.zoom,
            rotation: self.rotation,
            outline_items,
            page_image,
            page_dimensions: self.page_dimensions,
            page_text,
            selection_start: self.selection_start,
            selection_end: self.selection_end,
            selected_text: self.selected_text.clone(),
            selection_regions: self.selection_regions.clone(),
        };
        proof {
            if let (Some(a), Some(b)) = (&self.outline_items, &r.outline_items) {
                assert(b@ =~= a@);
            }
            if let (Some(a), Some(b)) = (&self.page_image, &r.page_image) {
                assert(b@ =~= a@);
            }
            assert(r.selection_regions@ =~= self.selection_regions@);
        }
        r
    }
}

/// One atomic mutation of a tab, applied through
/// [`TabManager::update_tab`].  A variant exists for each way the
/// surrounding session controller writes results back; none of them can
/// change the tab's id.
#[derive(Debug)]
pub enum TabUpdate {
    /// The engine opened the document: record its handle key, page count
    /// and outline.
    AttachDocument { doc: DocumentKey, page_count: usize, outline_items: Option<Vec<OutlineItem>> },
    /// Jump to a page (the caller has already validated the index).
    SetCurrentPage(usize),
    /// Set the zoom factor, in hundredths.
    SetZoom(u32),
    /// Set the rotation, in degrees.
    SetRotation(u32),
    /// Replace the cached text extraction of the current page.
    SetPageText(Option<PageText>),
    /// Replace the cached render of the current page.
    SetRenderedPage { page_image: Option<Vec<u8>>, page_dimensions: Option<(u32, u32)> },
    /// Record the drag anchor and cursor.
    SetSelectionPoints { start: Option<(i64, i64)>, end: Option<(i64, i64)> },
    /// Store a selection result.
    SetSelection { selected_text: String, selection_regions: Vec<SelectionRegion> },
    /// Drop every trace of the selection.
    ClearSelection,
}

/// What a [`TabUpdate`] does to a tab.
pub open spec fn apply_update(t: TabView, u: TabUpdate) -> TabView {
    match u {
        TabUpdate::AttachDocument { doc, page_count, outline_items } => TabView {
            doc: Some(doc),
            page_count: page_count as int,
            outline_items: match outline_items {
                None => None,
                Some(v) => Some(v@),
            },
            ..t
        },
        TabUpdate::SetCurrentPage(page) => TabView { current_page: page as int, ..t },
        TabUpdate::SetZoom(zoom) => TabView { zoom: zoom as int, ..t },
        TabUpdate::SetRotation(rotation) => TabView { rotation: rotation as int, ..t },
        TabUpdate::SetPageText(pt) => TabView {
            page_text: match pt {
                None => None,
                Some(x) => Some(x@),
            },
            ..t
        },
        TabUpdate::SetRenderedPage { page_image, page_dimensions } => TabView {
            page_image: match page_image {
                None => None,
                Some(v) => Some(v@),
            },
            page_dimensions: page_dimensions,
            ..t
        },
        TabUpdate::SetSelectionPoints { start, end } => TabView {
            selection_start: start,
            selection_end: end,
            ..t
        },
        TabUpdate::SetSelection { selected_text, selection_regions } => TabView {
            selected_text: selected_text@,
            selection_regions: selection_regions@,
            ..t
        },
        TabUpdate::ClearSelection => TabView {
            selection_start: None,
            selection_end: None,
            selected_text: Seq::empty(),
            selection_regions: Seq::empty(),
            ..t
        },
    }
}

/// No mutation changes a tab's identity.
pub proof fn lemma_update_keeps_id(t: TabView, u: TabUpdate)
    ensures
        apply_update(t, u).id == t.id,
        apply_update(t, u).path == t.path,
{
    match u {
        TabUpdate::AttachDocument { .. } => {},
        TabUpdate::SetCurrentPage(..) => {},
        TabUpdate::SetZoom(..) => {},
        TabUpdate::SetRotation(..) => {},
        TabUpdate::SetPageText(..) => {},
        TabUpdate::SetRenderedPage { .. } => {},
        TabUpdate::SetSelectionPoints { .. } => {},
        TabUpdate::SetSelection { .. } => {},
        TabUpdate::ClearSelection => {},
    }
}

/// Applies one mutation to a tab in place.
fn apply_update_exec(t: &mut Tab, u: TabUpdate)
    ensures
        final(t)@ == apply_update(old(t)@, u),
{
    match u {
        TabUpdate::AttachDocument { doc, page_count, outline_items } => {
            t.doc = Some(doc);
            t.page_count = page_count;
            t.outline_items = outline_items;
        },
        TabUpdate::SetCurrentPage(page) => {
            t.current_page = page;
        },
        TabUpdate::SetZoom(zoom) => {
            t.zoom = zoom;
        },
        TabUpdate::SetRotation(rotation) => {
            t.rotation = rotation;
        },
        TabUpdate::SetPageText(pt) => {
            t.page_text = pt;
        },
        TabUpdate::SetRenderedPage { page_image, page_dimensions } => {
            t.page_image = page_image;
            t.page_dimensions = page_dimensions;
        },
        TabUpdate::SetSelectionPoints { start, end } => {
            t.selection_start = start;
            t.selection_end = end;
        },
        TabUpdate::SetSelection { selected_text, selection_regions } => {
            t.selected_text = selected_text;
            t.selection_regions = selection_regions;
        },
        TabUpdate::ClearSelection => {
            t.selection_start = None;
            t.selection_end = None;
            t.selected_text = String::new();
            t.selection_regions = Vec::new();
            proof {
                assert(t.selected_text@ =~= Seq::<char>::empty());
                assert(t.selection_regions@ =~= Seq::<SelectionRegion>::empty());
            }
        },
    }
}

/// An optional id, widened to mathematical integers.
pub open spec fn opt_id(o: Option<usize>) -> Option<int> {
    match o {
        None => None,
        Some(x) => Some(x as int),
    }
}

/// The active id after the active tab at `idx` was removed and `remaining`
/// is left: the tab now at `idx`, else the new last tab, else none.
pub open spec fn active_after_close(remaining: Seq<TabView>, idx: int) -> Option<int> {
    if remaining.len() == 0 {
        None
    } else if idx < remaining.len() {
        Some(remaining[idx].id)
    } else {
        Some(remaining[remaining.len() - 1].id)
    }
}

/// Whether some tab carries this id.
pub open spec fn has_tab(s: Seq<TabView>, id: int) -> bool {
    exists|i: int| 0 <= i < s.len() && s[i].id == id
}

/// The index of the tab carrying this id (well-defined when ids are unique).
pub open spec fn tab_index(s: Seq<TabView>, id: int) -> int {
    choose|i: int| 0 <= i < s.len() && s[i].id == id
}

/// The registry of open tabs: the tabs in creation order, the active tab's
/// id, and the next id to hand out.  All ids below `next_tab_id`, each used
/// at most once; the active id names an existing tab exactly when any tab is
/// open.
pub struct TabManager {
    pub tabs: Vec<Tab>,
    pub active_tab_id: Option<usize>,
    pub next_tab_id: usize,
}

impl TabManager {
    /// The tabs as mathematical values, in creation order.
    pub open spec fn tabs_view(self) -> Seq<TabView> {
        self.tabs@.map_values(|t: Tab| t@)
    }

    /// The registry's invariant.
    pub open spec fn wf(self) -> bool {
        &&& forall|i: int, j: int|
            0 <= i < j < self.tabs_view().len() ==> (#[trigger] self.tabs_view()[i]).id != (
            #[trigger] self.tabs_view()[j]).id
        &&& forall|i: int|
            0 <= i < self.tabs_view().len() ==> (#[trigger] self.tabs_view()[i]).id
                < self.next_tab_id
        &&& match self.active_tab_id {
            None => self.tabs_view().len() == 0,
            Some(id) => has_tab(self.tabs_view(), id as int),
        }
    }

    /// An empty registry.
    pub fn new() -> (r: Self)
        ensures
            r.wf(),
            r.tabs_view() == Seq::<TabView>::empty(),
            r.active_tab_id is None,
            r.next_tab_id == 0,
    {
        let r = TabManager { tabs: Vec::new(), active_tab_id: None, next_tab_id: 0 };
        proof {
            assert(r.tabs_view() =~= Seq::<TabView>::empty());
        }
        r
    }

    /// Opens a tab for `path`: hands out the next id, appends the tab in
    /// the default state, and makes it active.  Never fails.
    pub fn create_tab(&mut self, path: String) -> (id: usize)
        requires
            old(self).wf(),
            old(self).next_tab_id < usize::MAX,
        ensures
            final(self).wf(),
            id == old(self).next_tab_id,
            final(self).next_tab_id == old(self).next_tab_id + 1,
            final(self).tabs_view() == old(self).tabs_view().push(fresh_tab(id as int, path@)),
            final(self).active_tab_id == Some(id),
    {
        let tab_id = self.next_tab_id;
        self.next_tab_id = self.next_tab_id + 1;
        let tab = Tab::new(tab_id, path);
        let ghost before = self.tabs_view();
        self.tabs.push(tab);
        self.active_tab_id = Some(tab_id);
        proof {
            assert(self.tabs_view() =~= before.push(fresh_tab(tab_id as int, tab.path@)));
            assert(self.tabs_view()[self.tabs_view().len() - 1].id == tab_id);
        }
        tab_id
    }

    /// The first position holding `tab_id`, scanning in creation order.
    fn position_of(&self, tab_id: usize) -> (r: Option<usize>)
        requires
            self.wf(),
        ensures
            match r {
                Some(i) => i < self.tabs_view().len() && self.tabs_view()[i as int].id == tab_id
                    && i == tab_index(self.tabs_view(), tab_id as int),
                None => !has_tab(self.tabs_view(), tab_id as int),
            },
    {
        let mut i: usize = 0;
        while i < self.tabs.len()
            invariant
                self.wf(),
                i <= self.tabs_view().len(),
                forall|k: int| 0 <= k < i ==> (#[trigger] self.tabs_view()[k]).id != tab_id,
            decreases self.tabs_view().len() - i,
        {
            if self.tabs[i].id == tab_id {
                proof {
                    assert(self.tabs_view()[i as int].id == tab_id);
                    let w = tab_index(self.tabs_view(), tab_id as int);
                    assert(has_tab(self.tabs_view(), tab_id as int));
                    assert(0 <= w < self.tabs_view().len() && self.tabs_view()[w].id == tab_id);
                    assert(w == i as int);
                }
                return Some(i);
            }
            i += 1;
        }
        None
    }

    /// Closes the tab if it exists; closing an unknown or already-closed id
    /// is a no-op.  When the active tab is closed, the tab now occupying its
    /// position becomes active — or the new last tab, or none when the
    /// registry empties.
    pub fn close_tab(&mut self, tab_id: usize)
        requires
            old(self).wf(),
        ensures
            final(self).wf(),
            final(self).next_tab_id == old(self).next_tab_id,
            !has_tab(old(self).tabs_view(), tab_id as int) ==> final(self).tabs_view() == old(
                self,
            ).tabs_view() && final(self).active_tab_id == old(self).active_tab_id,
            has_tab(old(self).tabs_view(), tab_id as int) ==> {
                let idx = tab_index(old(self).tabs_view(), tab_id as int);
                let remaining = old(self).tabs_view().remove(idx);
                &&& final(self).tabs_view() == remaining
                &&& old(self).active_tab_id != Some(tab_id) ==> final(self).active_tab_id == old(
                    self,
                ).active_tab_id
                &&& old(self).active_tab_id == Some(tab_id) ==> opt_id(final(self).active_tab_id)
                    == active_after_close(remaining, idx)
            },
    {
        let pos = self.position_of(tab_id);
        if let Some(index) = pos {
            let ghost before = self.tabs_view();
            self.tabs.remove(index);
            proof {
                assert(self.tabs_view() =~= before.remove(index as int));
            }
            let is_active = match self.active_tab_id {
                Some(active) => active == tab_id,
                None => false,
            };
            if is_active {
                if self.tabs.len() > 0 {
                    let new_index = if index < self.tabs.len() {
                        index
                    } else {
                        self.tabs.len() - 1
                    };
                    self.active_tab_id = Some(self.tabs[new_index].id);
                    proof {
                        assert(self.tabs_view()[new_index as int].id == self.tabs@[
                            new_index as int].id);
                        assert(has_tab(self.tabs_view(), self.tabs@[new_index as int].id as int));
                    }
                } else {
                    self.active_tab_id = None;
                }
            } else {
                proof {
                    if self.tabs_view().len() > 0 {
                        match self.active_tab_id {
                            Some(active) => {
                                let w = tab_index(before, active as int);
                                assert(has_tab(before, active as int));
                                assert(before[w].id == active);
                                assert(w != index as int);
                                if w < index as int {
                                    assert(self.tabs_view()[w] == before[w]);
                                } else {
                                    assert(self.tabs_view()[w - 1] == before[w]);
                                }
                                assert(has_tab(self.tabs_view(), active as int));
                            },
                            None => {
                                assert(before.len() == 0);
                            },
                        }
                    } else {
                        match self.active_tab_id {
                            Some(active) => {
                                assert(before.len() == 1);
                                assert(before[0].id == tab_id);
                                let w = tab_index(before, active as int);
                                assert(before[w].id == active);
                                assert(false);
                            },
                            None => {},
                        }
                    }
                }
            }
        }
    }

    /// Makes the tab active if it exists; a stale id is silently ignored.
    pub fn set_active_tab(&mut self, tab_id: usize)
        requires
            old(self).wf(),
        ensures
            final(self).wf(),
            final(self).tabs_view() == old(self).tabs_view(),
            final(self).next_tab_id == old(self).next_tab_id,
            has_tab(old(self).tabs_view(), tab_id as int) ==> final(self).active_tab_id == Some(
                tab_id,
            ),
            !has_tab(old(self).tabs_view(), tab_id as int) ==> final(self).active_tab_id == old(
                self,
            ).active_tab_id,
    {
        let pos = self.position_of(tab_id);
        if pos.is_some() {
            self.active_tab_id = Some(tab_id);
        }
    }

    /// The active tab's id, if any tab is open.
    pub fn get_active_tab(&self) -> (r: Option<usize>)
        ensures
            r == self.active_tab_id,
    {
        self.active_tab_id
    }

    /// A value copy of the tab, so the caller can never observe a partial
    /// mutation; absent for an unknown id.
    pub fn get_tab(&self, tab_id: usize) -> (r: Option<Tab>)
        requires
            self.wf(),
        ensures
            match r {
                Some(t) => has_tab(self.tabs_view(), tab_id as int) && t@ == self.tabs_view()[
                    tab_index(self.tabs_view(), tab_id as int)],
                None => !has_tab(self.tabs_view(), tab_id as int),
            },
    {
        let pos = self.position_of(tab_id);
        match pos {
            Some(i) => Some(self.tabs[i].clone()),
            None => None,
        }
    }

    /// Applies one mutation to the tab if it exists; a stale id is silently
    /// ignored.  This is the single channel through which tabs change.
    pub fn update_tab(&mut self, tab_id: usize, u: TabUpdate)
        requires
            old(self).wf(),
        ensures
            final(self).wf(),
            final(self).active_tab_id == old(self).active_tab_id,
            final(self).next_tab_id == old(self).next_tab_id,
            !has_tab(old(self).tabs_view(), tab_id as int) ==> final(self).tabs_view() == old(
                self,
            ).tabs_view(),
            has_tab(old(self).tabs_view(), tab_id as int) ==> {
                let idx = tab_index(old(self).tabs_view(), tab_id as int);
                final(self).tabs_view() == old(self).tabs_view().update(
                    idx,
                    apply_update(old(self).tabs_view()[idx], u),
                )
            },
    {
        let pos = self.position_of(tab_id);
        if let Some(i) = pos {
            let ghost before = self.tabs_view();
            let mut t = self.tabs.remove(i);
            apply_update_exec(&mut t, u);
            let ghost updated = t@;
            self.tabs.insert(i, t);
            proof {
                assert(self.tabs_view() =~= before.update(i as int, updated)) by {
                    assert(self.tabs@ == self.tabs@);
                    assert(forall|k: int|
                        0 <= k < self.tabs_view().len() ==> self.tabs_view()[k] == (
                        #[trigger] self.tabs@[k])@);
                }
                assert(forall|k: int|
                    0 <= k < self.tabs_view().len() && k != i as int ==> self.tabs_view()[k]
                        == before[k]);
                assert(updated.id == before[i as int].id);
                match self.active_tab_id {
                    Some(active) => {
                        let w = tab_index(before, active as int);
                        assert(before[w].id == active);
                        assert(self.tabs_view()[w].id == active);
                        assert(has_tab(self.tabs_view(), active as int));
                    },
                    None => {},
                }
            }
        }
    }

    /// Value copies of all tabs, in creation order.
    pub fn get_all_tabs(&self) -> (r: Vec<Tab>)
        requires
            self.wf(),
        ensures
            r@.map_values(|t: Tab| t@) == self.tabs_view(),
    {
        let mut out: Vec<Tab> = Vec::new();
        let mut i: usize = 0;
        proof {
            assert(out@.map_values(|t: Tab| t@) =~= self.tabs_view().take(0));
        }
        while i < self.tabs.len()
            invariant
                self.wf(),
                i <= self.tabs_view().len(),
                out@.map_values(|t: Tab| t@) == self.tabs_view().take(i as int),
            decreases self.tabs_view().len() - i,
        {
            let ghost before = out@.map_values(|t: Tab| t@);
            let t = self.tabs[i].clone();
            out.push(t);
            proof {
                assert(out@.map_values(|t: Tab| t@) =~= before.push(t@));
                assert(t@ == self.tabs_view()[i as int]);
                assert(out@.map_values(|t: Tab| t@) =~= self.tabs_view().take(i + 1));
            }
            i += 1;
        }
        proof {
            assert(self.tabs_view().take(self.tabs_view().len() as int) =~= self.tabs_view());
        }
        out
    }
}

} // verus!
