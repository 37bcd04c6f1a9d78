//! Tabs and panes, as the host reports them.
use crate::fuzzy::{haystack_for, Haystack, MatchKind};
use crate::text::chars_of;
use std::rc::Rc;
use vstd::prelude::*;

verus! {

/// A tab of the session.
#[derive(Clone, Debug)]
pub struct TabInfo {
    /// The tab's 0 indexed position.
    pub position: usize,
    /// The name of the tab as it appears in the UI.
    pub name: String,
    /// Whether this tab is focused.
    pub active: bool,
    /// The number of suppressed panes this tab has.
    pub panes_to_hide: usize,
    /// Whether there is one pane taking up the whole display area on this tab.
    pub is_fullscreen_active: bool,
    /// Whether input sent to this tab is synced to all panes in it.
    pub is_sync_panes_active: bool,
    pub are_floating_panes_visible: bool,
    pub other_focused_clients: Vec<u16>,
    pub active_swap_layout_name: Option<String>,
    /// Whether the user manually changed the layout.
    pub is_swap_layout_dirty: bool,
    pub viewport_rows: usize,
    pub viewport_columns: usize,
    pub display_area_rows: usize,
    pub display_area_columns: usize,
    /// The number of selectable tiled panes currently in this tab.
    pub selectable_tiled_panes_count: usize,
    /// The number of selectable floating panes currently in this tab.
    pub selectable_floating_panes_count: usize,
    /// The stable identifier for this tab.
    pub tab_id: usize,
    /// Whether this tab has an active (persistent) bell notification.
    pub has_bell_notification: bool,
    /// Whether this tab is currently flashing its bell.
    pub is_flashing_bell: bool,
}

/// What a `TabInfo` holds.
#[verifier::ext_equal]
pub struct TabModel {
    pub position: usize,
    pub name: Seq<char>,
    pub active: bool,
    pub panes_to_hide: usize,
    pub is_fullscreen_active: bool,
    pub is_sync_panes_active: bool,
    pub are_floating_panes_visible: bool,
    pub other_focused_clients: Seq<u16>,
    pub active_swap_layout_name: Option<Seq<char>>,
    pub is_swap_layout_dirty: bool,
    pub viewport_rows: usize,
    pub viewport_columns: usize,
    pub display_area_rows: usize,
    pub display_area_columns: usize,
    pub selectable_tiled_panes_count: usize,
    pub selectable_floating_panes_count: usize,
    pub tab_id: usize,
    pub has_bell_notification: bool,
    pub is_flashing_bell: bool,
}

impl View for TabInfo {
    type V = TabModel;

    open spec fn view(&self) -> TabModel {
        TabModel {
            position: self.position,
            name: self.name@,
            active: self.active,
            panes_to_hide: self.panes_to_hide,
            is_fullscreen_active: self.is_fullscreen_active,
            is_sync_panes_active: self.is_sync_panes_active,
            are_floating_panes_visible: self.are_floating_panes_visible,
            other_focused_clients: self.other_focused_clients@,
            active_swap_layout_name: match self.active_swap_layout_name {
                Some(name) => Some(name@),
                None => None,
            },
            is_swap_layout_dirty: self.is_swap_layout_dirty,
            viewport_rows: self.viewport_rows,
            viewport_columns: self.viewport_columns,
            display_area_rows: self.display_area_rows,
            display_area_columns: self.display_area_columns,
            selectable_tiled_panes_count: self.selectable_tiled_panes_count,
            selectable_floating_panes_count: self.selectable_floating_panes_count,
            tab_id: self.tab_id,
            has_bell_notification: self.has_bell_notification,
            is_flashing_bell: self.is_flashing_bell,
        }
    }
}

impl Default for TabInfo {
    /// A nameless, inactive tab at position 0 with every count at 0.
    fn default() -> (tab: TabInfo)
        ensures
            tab@ == (TabModel {
                position: 0,
                name: seq![],
                active: false,
                panes_to_hide: 0,
                is_fullscreen_active: false,
                is_sync_panes_active: false,
                are_floating_panes_visible: false,
                other_focused_clients: seq![],
                active_swap_layout_name: None,
                is_swap_layout_dirty: false,
                viewport_rows: 0,
                viewport_columns: 0,
                display_area_rows: 0,
                display_area_columns: 0,
                selectable_tiled_panes_count: 0,
                selectable_floating_panes_count: 0,
                tab_id: 0,
                has_bell_notification: false,
                is_flashing_bell: false,
            }),
    {
        TabInfo {
            position: 0,
            name: String::new(),
            active: false,
            panes_to_hide: 0,
            is_fullscreen_active: false,
            is_sync_panes_active: false,
            are_floating_panes_visible: false,
            other_focused_clients: Vec::new(),
            active_swap_layout_name: None,
            is_swap_layout_dirty: false,
            viewport_rows: 0,
            viewport_columns: 0,
            display_area_rows: 0,
            display_area_columns: 0,
            selectable_tiled_panes_count: 0,
            selectable_floating_panes_count: 0,
            tab_id: 0,
            has_bell_notification: false,
            is_flashing_bell: false,
        }
    }
}

/// Whether two lists of client ids are equal.
fn same_clients(a: &Vec<u16>, b: &Vec<u16>) -> (same: bool)
    ensures
        same == (a@ == b@),
{
    if a.len() != b.len() {
        return false;
    }
    let mut i: usize = 0;
    while i < a.len()
        invariant
            i <= a.len(),
            a.len() == b.len(),
            forall|k: int| 0 <= k < i ==> a@[k] == b@[k],
        decreases a.len() - i,
    {
        if a[i] != b[i] {
            return false;
        }
        i += 1;
    }
    assert(a@ =~= b@);
    true
}

/// Whether two optional names are equal.
fn same_name(a: &Option<String>, b: &Option<String>) -> (same: bool)
    ensures
        same == match (a, b) {
            (Some(x), Some(y)) => x@ == y@,
            (None, None) => true,
            _ => false,
        },
{
    match (a, b) {
        (Some(x), Some(y)) => *x == *y,
        (None, None) => true,
        _ => false,
    }
}

impl TabInfo {
    /// Whether two tabs are equal in every field.
    pub fn same_as(&self, other: &TabInfo) -> (same: bool)
        ensures
            same == (self@ == other@),
    {
        self.position == other.position && self.name == other.name && self.active == other.active
            && self.panes_to_hide == other.panes_to_hide && self.is_fullscreen_active
            == other.is_fullscreen_active && self.is_sync_panes_active
            == other.is_sync_panes_active && self.are_floating_panes_visible
            == other.are_floating_panes_visible && same_clients(
            &self.other_focused_clients,
            &other.other_focused_clients,
        ) && same_name(&self.active_swap_layout_name, &other.active_swap_layout_name)
            && self.is_swap_layout_dirty == other.is_swap_layout_dirty && self.viewport_rows
            == other.viewport_rows && self.viewport_columns == other.viewport_columns
            && self.display_area_rows == other.display_area_rows && self.display_area_columns
            == other.display_area_columns && self.selectable_tiled_panes_count
            == other.selectable_tiled_panes_count && self.selectable_floating_panes_count
            == other.selectable_floating_panes_count && self.tab_id == other.tab_id
            && self.has_bell_notification == other.has_bell_notification && self.is_flashing_bell
            == other.is_flashing_bell
    }
}

/// A tab with its name prepared for matching.
pub struct TabEntry {
    pub info: Rc<TabInfo>,
    /// nucleo haystack, indexed by codepoint (see `haystack_for`).
    pub haystack: Haystack,
    /// Plain codepoints of the name, for the typo-tolerant pass.
    pub chars: Vec<char>,
}

impl View for TabEntry {
    type V = TabModel;

    open spec fn view(&self) -> TabModel {
        self.info@
    }
}

impl TabEntry {
    /// Both prepared forms are those of the name.
    pub open spec fn wf(&self) -> bool {
        &&& self.haystack.wf()
        &&& self.haystack@ == self.info.name@
        &&& self.chars@ == self.info.name@
    }

    /// Prepares a tab for matching.
    pub fn new(info: TabInfo) -> (entry: TabEntry)
        ensures
            entry.wf(),
            entry@ == info@,
    {
        let haystack: Haystack = haystack_for(info.name.as_str());
        let chars: Vec<char> = chars_of(info.name.as_str());
        TabEntry { info: Rc::new(info), haystack, chars }
    }
}

/// What the tabs of a list hold.
pub open spec fn tab_models(entries: Seq<TabEntry>) -> Seq<TabModel> {
    entries.map_values(|e: TabEntry| e@)
}

/// A row of the list: a tab and how it matched.
pub struct Scored {
    pub kind: MatchKind,
    pub tab: Rc<TabInfo>,
    /// Codepoint positions in the tab name to highlight, ascending, unique.
    pub indices: Vec<u32>,
}

/// What a row of the list holds.
#[verifier::ext_equal]
pub struct Row {
    pub kind: MatchKind,
    pub tab: TabModel,
    pub indices: Seq<u32>,
}

impl View for Scored {
    type V = Row;

    open spec fn view(&self) -> Row {
        Row { kind: self.kind, tab: self.tab@, indices: self.indices@ }
    }
}

/// What the rows of a list hold.
pub open spec fn rows_of(scored: Seq<Scored>) -> Seq<Row> {
    scored.map_values(|s: Scored| s@)
}

/// A pane of the session.
#[derive(Clone, Copy, Debug, PartialEq, Eq, Structural)]
pub struct PaneInfo {
    /// The id of the pane, unique among the panes of its kind.
    pub id: u32,
    /// Whether this pane is a plugin or a terminal.
    pub is_plugin: bool,
    /// Whether the pane is focused in its layer.
    pub is_focused: bool,
    pub is_floating: bool,
    pub is_suppressed: bool,
    pub pane_rows: usize,
    pub pane_columns: usize,
}

/// The panes of the session: for each tab position the panes of that tab,
/// in the order in which the host hands them out.
pub struct PaneManifest {
    pub panes: Vec<(usize, Vec<PaneInfo>)>,
}

} // verus!
