//! The browsing interface as a state machine: the state that the screen
//! shows and the keyboard and mouse change.  Drawing, the terminal and the
//! requests to the Hub belong to the caller: a handler changes the state
//! and returns the [`Effect`] that the caller performs next.

use crate::models::{
    AppOptions, CompleteDownloads, DownloadMetadata, DownloadRegistry, QuantizationInfo, RepoFile, FileTreeNode, FocusedPane, InputMode, ModelDisplayMode,
    ModelInfo, ModelMetadata, PopupMode, QuantizationGroup, SearchKey, SortDirection, SortField, FilterPreset,
};
use crate::api::{classification, classify_quantizations, gguf_entries, gguf_total_fits, has_gguf, has_gguf_files, sum_sizes};
use crate::registry::{complete_of, get_complete_downloads, get_incomplete_downloads, incomplete_of};
use crate::text::{
    joined_with, has_suffix, str_ends_with, decimal, decimal_string, occurs_at, has_prefix, str_contains, str_drop, str_eq, str_starts_with, str_to_lowercase,
    unicode_lower,
};
use crate::utils::{format_size, size_text};
use crate::tree::{
    built, flat, flatten_tree_for_navigation, lemma_views_index, sort_tree, toggle_node, toggle_node_expansion,
    try_build_file_tree, tview, vsized, vtotal, };
use vstd::prelude::*;

verus! {

// ---------------------------------------------------------------------------
// Geometry and input events
// ---------------------------------------------------------------------------

/// A rectangle of terminal cells.
#[derive(Debug, Clone, Copy, PartialEq, Eq, Structural)]
pub struct Rect {
    pub x: u16,
    pub y: u16,
    pub width: u16,
    pub height: u16,
}

/// The cell (`column`, `row`) lies in `r`; the right and bottom edges stop
/// at the last cell of the terminal.
pub open spec fn rect_has(r: Rect, column: u16, row: u16) -> bool {
    let right = if r.x + r.width > u16::MAX { u16::MAX as int } else { r.x + r.width };
    let bottom = if r.y + r.height > u16::MAX { u16::MAX as int } else { r.y + r.height };
    r.x <= column < right && r.y <= row < bottom
}

impl Rect {
    /// Whether the cell (`column`, `row`) lies in the rectangle.
    pub fn contains(&self, column: u16, row: u16) -> (r: bool)
        ensures
            r == rect_has(*self, column, row),
    {
        let right: u16 = self.x.saturating_add(self.width);
        let bottom: u16 = self.y.saturating_add(self.height);
        self.x <= column && column < right && self.y <= row && row < bottom
    }
}

/// The modifier keys held with a key.
#[derive(Debug, Clone, Copy, PartialEq, Eq, Structural)]
pub enum Modifiers {
    /// No modifier.
    Plain,
    /// Control alone.
    Control,
    /// Shift alone.
    Shift,
    /// Any other combination.
    Other,
}

/// A key, as the handlers tell them apart.
#[derive(Debug, Clone, Copy, PartialEq, Eq, Structural)]
pub enum KeyCode {
    Char(char),
    Enter,
    Esc,
    Tab,
    Up,
    Down,
    Left,
    Right,
    Backspace,
    Delete,
    Home,
    End,
    /// Any other key.
    Other,
}

/// A key press.
#[derive(Debug, Clone, Copy, PartialEq, Eq, Structural)]
pub struct KeyInput {
    pub modifiers: Modifiers,
    pub code: KeyCode,
}

/// An edit of a text field, as the text-input widget performs it.
#[derive(Debug, Clone, Copy, PartialEq, Eq, Structural)]
pub enum InputRequest {
    InsertChar(char),
    DeletePrevChar,
    DeleteNextChar,
    GoToPrevChar,
    GoToNextChar,
    GoToStart,
    GoToEnd,
}

/// A text field of the interface.
#[derive(Debug, Clone, Copy, PartialEq, Eq, Structural)]
pub enum TextField {
    Search,
    DownloadPath,
    OptionsDirectory,
    OptionsToken,
}

/// What the caller does after a handler: the work that needs the network,
/// the disk or the text widgets.  The caller writes a text field's new
/// value back with [`App::set_field`].
#[derive(Debug, Clone, Copy, PartialEq, Eq, Structural)]
pub enum Effect {
    /// Nothing more.
    Idle,
    /// Apply the edit to the field.
    Edit(TextField, InputRequest),
    /// Let the field's widget handle the key.
    ForwardKey(TextField, KeyInput),
    /// Queue the download the path popup was opened for.
    ConfirmDownload,
    /// Hash-check the selected file or group.
    VerifySelected,
    /// Re-queue the incomplete downloads.
    ResumeIncomplete,
    /// Delete the incomplete downloads.
    DeleteIncomplete,
    /// Write the options to the config file.
    SaveConfig,
    /// Write the options (with the filter defaults) to the config file.
    SaveFilterSettings,
}

// ---------------------------------------------------------------------------
// The state
// ---------------------------------------------------------------------------

/// The state of the browsing interface.
pub struct App {
    pub running: bool,
    pub input: String,
    pub input_mode: InputMode,
    pub focused_pane: FocusedPane,
    pub models: Vec<ModelInfo>,
    /// Selected model.
    pub list_state: Option<usize>,
    pub loading: bool,
    pub error: Option<String>,
    pub status: String,
    pub selection_info: String,
    pub quantizations: Vec<QuantizationGroup>,
    /// Selected quantization group.
    pub quant_list_state: Option<usize>,
    /// Selected file of the selected group.
    pub quant_file_list_state: Option<usize>,
    pub loading_quants: bool,
    pub popup_mode: PopupMode,
    pub download_path_input: String,
    pub incomplete_downloads: Vec<DownloadMetadata>,
    pub complete_downloads: CompleteDownloads,
    pub options: AppOptions,
    pub options_directory_input: String,
    pub options_token_input: String,
    pub model_metadata: Option<ModelMetadata>,
    pub file_tree: Option<FileTreeNode>,
    /// Selected row of the flattened file tree.
    pub file_tree_state: Option<usize>,
    pub display_mode: ModelDisplayMode,
    pub needs_load_quantizations: bool,
    pub needs_search_models: bool,
    pub sort_field: SortField,
    pub sort_direction: SortDirection,
    pub filter_min_downloads: u64,
    pub filter_min_likes: u64,
    /// 0 = sort, 1 = minimum downloads, 2 = minimum likes.
    pub focused_filter_field: usize,
    pub mouse_position: Option<(u16, u16)>,
    pub panel_areas: Vec<(FocusedPane, Rect)>,
    pub hovered_panel: Option<FocusedPane>,
}

pub open spec fn welcome_message() -> Seq<char> {
    "Welcome! Press '/' to search for models"@
}

impl App {
    /// The interface at start-up with the loaded `options`: the first model
    /// row selected, the filters from the saved defaults, nothing loaded.
    pub fn new(options: AppOptions) -> (r: App)
        ensures
            !r.running,
            r.input@.len() == 0,
            r.input_mode == InputMode::Normal,
            r.focused_pane == FocusedPane::Models,
            r.models@.len() == 0,
            r.list_state == Some(0usize),
            !r.loading,
            r.error is None,
            r.status@ == welcome_message(),
            r.selection_info@.len() == 0,
            r.quantizations@.len() == 0,
            r.quant_list_state is None,
            r.quant_file_list_state is None,
            !r.loading_quants,
            r.popup_mode == PopupMode::Closed,
            r.download_path_input@ == options.default_directory@,
            r.incomplete_downloads@.len() == 0,
            r.complete_downloads.wf(),
            r.complete_downloads.contents().dom().len() == 0,
            r.options == options,
            r.options_directory_input@.len() == 0,
            r.options_token_input@.len() == 0,
            r.model_metadata is None,
            r.file_tree is None,
            r.file_tree_state is None,
            r.display_mode == ModelDisplayMode::Gguf,
            !r.needs_load_quantizations,
            !r.needs_search_models,
            r.sort_field == options.default_sort_field,
            r.sort_direction == options.default_sort_direction,
            r.filter_min_downloads == options.default_min_downloads,
            r.filter_min_likes == options.default_min_likes,
            r.focused_filter_field == 0,
            r.mouse_position is None,
            r.panel_areas@.len() == 0,
            r.hovered_panel is None,
    {
        let welcome = "Welcome! Press '/' to search for models";
        let path = options.default_directory.clone();
        App {
            running: false,
            input: String::new(),
            input_mode: InputMode::Normal,
            focused_pane: FocusedPane::Models,
            models: Vec::new(),
            list_state: Some(0),
            loading: false,
            error: None,
            status: String::from_str(welcome),
            selection_info: String::new(),
            quantizations: Vec::new(),
            quant_list_state: None,
            quant_file_list_state: None,
            loading_quants: false,
            popup_mode: PopupMode::Closed,
            download_path_input: path,
            incomplete_downloads: Vec::new(),
            complete_downloads: CompleteDownloads::new(),
            sort_field: options.default_sort_field,
            sort_direction: options.default_sort_direction,
            filter_min_downloads: options.default_min_downloads,
            filter_min_likes: options.default_min_likes,
            options,
            options_directory_input: String::new(),
            options_token_input: String::new(),
            model_metadata: None,
            file_tree: None,
            file_tree_state: None,
            display_mode: ModelDisplayMode::Gguf,
            needs_load_quantizations: false,
            needs_search_models: false,
            focused_filter_field: 0,
            mouse_position: None,
            panel_areas: Vec::new(),
            hovered_panel: None,
        }
    }

    /// Ends the main loop.
    pub fn quit(&mut self)
        ensures
            (*final(self) == App { running: false, ..*old(self) }),
    {
        self.running = false;
    }
}

// ---------------------------------------------------------------------------
// Cyclic list navigation
// ---------------------------------------------------------------------------

/// The selection after moving down a cyclic list of `len` rows: past the
/// last row it wraps to the first; with no selection it starts at the
/// first; an empty list keeps the selection.
pub open spec fn next_index(sel: Option<usize>, len: nat) -> Option<usize> {
    if len == 0 {
        sel
    } else {
        match sel {
            Some(i) => if i >= len - 1 {
                Some(0usize)
            } else {
                Some((i + 1) as usize)
            },
            None => Some(0usize),
        }
    }
}

/// The selection after moving up a cyclic list of `len` rows: above the
/// first row it wraps to the last.
pub open spec fn prev_index(sel: Option<usize>, len: nat) -> Option<usize> {
    if len == 0 {
        sel
    } else {
        match sel {
            Some(i) => if i == 0 {
                Some((len - 1) as usize)
            } else {
                Some((i - 1) as usize)
            },
            None => Some(0usize),
        }
    }
}

fn step_next(sel: Option<usize>, len: usize) -> (r: Option<usize>)
    ensures
        r == next_index(sel, len as nat),
{
    if len == 0 {
        return sel;
    }
    match sel {
        Some(i) => if i >= len - 1 {
            Some(0)
        } else {
            Some(i + 1)
        },
        None => Some(0),
    }
}

fn step_prev(sel: Option<usize>, len: usize) -> (r: Option<usize>)
    ensures
        r == prev_index(sel, len as nat),
{
    if len == 0 {
        return sel;
    }
    match sel {
        Some(i) => if i == 0 {
            Some(len - 1)
        } else {
            Some(i - 1)
        },
        None => Some(0),
    }
}

/// The number of files of the selected group, when a group in range is
/// selected.
pub open spec fn selected_group_files(groups: Seq<QuantizationGroup>, sel: Option<usize>) -> Option<nat> {
    match sel {
        Some(g) => if g < groups.len() {
            Some(groups[g as int].files@.len())
        } else {
            None
        },
        None => None,
    }
}

/// The number of rows of the flattened file tree, when there is a tree.
pub open spec fn tree_rows(t: Option<FileTreeNode>) -> Option<nat> {
    match t {
        Some(n) => Some(flat(tview(n)).len()),
        None => None,
    }
}

impl App {
    /// Selects the next model (cyclic).
    pub fn next(&mut self)
        ensures
            (*final(self) == App { list_state: next_index(old(self).list_state, old(self).models@.len()), ..*old(self) }),
    {
        self.list_state = step_next(self.list_state, self.models.len());
    }

    /// Selects the previous model (cyclic).
    pub fn previous(&mut self)
        ensures
            (*final(self) == App { list_state: prev_index(old(self).list_state, old(self).models@.len()), ..*old(self) }),
    {
        self.list_state = step_prev(self.list_state, self.models.len());
    }

    /// Selects the next quantization group (cyclic).
    pub fn next_quant(&mut self)
        ensures
            (*final(self) == App {
                quant_list_state: next_index(old(self).quant_list_state, old(self).quantizations@.len()),
                ..*old(self)
            }),
    {
        self.quant_list_state = step_next(self.quant_list_state, self.quantizations.len());
    }

    /// Selects the previous quantization group (cyclic).
    pub fn previous_quant(&mut self)
        ensures
            (*final(self) == App {
                quant_list_state: prev_index(old(self).quant_list_state, old(self).quantizations@.len()),
                ..*old(self)
            }),
    {
        self.quant_list_state = step_prev(self.quant_list_state, self.quantizations.len());
    }

    /// Selects the next file of the selected group (cyclic); without a
    /// selected group nothing changes.
    pub fn next_file(&mut self)
        ensures
            (*final(self) == App {
                quant_file_list_state: match selected_group_files(old(self).quantizations@, old(self).quant_list_state) {
                    Some(n) => next_index(old(self).quant_file_list_state, n),
                    None => old(self).quant_file_list_state,
                },
                ..*old(self)
            }),
    {
        if let Some(g) = self.quant_list_state {
            if g < self.quantizations.len() {
                let n = self.quantizations[g].files.len();
                self.quant_file_list_state = step_next(self.quant_file_list_state, n);
            }
        }
    }

    /// Selects the previous file of the selected group (cyclic).
    pub fn previous_file(&mut self)
        ensures
            (*final(self) == App {
                quant_file_list_state: match selected_group_files(old(self).quantizations@, old(self).quant_list_state) {
                    Some(n) => prev_index(old(self).quant_file_list_state, n),
                    None => old(self).quant_file_list_state,
                },
                ..*old(self)
            }),
    {
        if let Some(g) = self.quant_list_state {
            if g < self.quantizations.len() {
                let n = self.quantizations[g].files.len();
                self.quant_file_list_state = step_prev(self.quant_file_list_state, n);
            }
        }
    }

    fn tree_row_count(&self) -> (r: Option<usize>)
        ensures
            match r {
                Some(n) => tree_rows(self.file_tree) == Some(n as nat),
                None => tree_rows(self.file_tree) is None,
            },
    {
        match &self.file_tree {
            Some(t) => {
                let rows = flatten_tree_for_navigation(t);
                proof {
                    lemma_views_index(rows@);
                }
                Some(rows.len())
            },
            None => None,
        }
    }

    /// Selects the next row of the file tree (cyclic).
    pub fn next_file_tree_item(&mut self)
        ensures
            (*final(self) == App {
                file_tree_state: match tree_rows(old(self).file_tree) {
                    Some(n) => next_index(old(self).file_tree_state, n),
                    None => old(self).file_tree_state,
                },
                ..*old(self)
            }),
    {
        if let Some(n) = self.tree_row_count() {
            self.file_tree_state = step_next(self.file_tree_state, n);
        }
    }

    /// Selects the previous row of the file tree (cyclic).
    pub fn previous_file_tree_item(&mut self)
        ensures
            (*final(self) == App {
                file_tree_state: match tree_rows(old(self).file_tree) {
                    Some(n) => prev_index(old(self).file_tree_state, n),
                    None => old(self).file_tree_state,
                },
                ..*old(self)
            }),
    {
        if let Some(n) = self.tree_row_count() {
            self.file_tree_state = step_prev(self.file_tree_state, n);
        }
    }
}

// ---------------------------------------------------------------------------
// Details, clearing and focus
// ---------------------------------------------------------------------------

/// `b` is `a` with the details of the selected model cleared and marked
/// as loading.
pub open spec fn details_cleared(a: App, b: App) -> bool {
    &&& b.quantizations@.len() == 0
    &&& b.status@ == "Loading model details..."@
    &&& (b == App {
        quantizations: b.quantizations,
        model_metadata: None,
        file_tree: None,
        loading_quants: true,
        status: b.status,
        ..a
    })
}

/// `b` is `a` after a search was restarted, showing `status`: the search
/// results and the model details cleared, the search marked as running
/// and due on the next loop turn.
pub open spec fn research_with(a: App, b: App, status: Seq<char>) -> bool {
    &&& b.models@.len() == 0
    &&& b.quantizations@.len() == 0
    &&& b.status@ == status
    &&& (b == App {
        models: b.models,
        quantizations: b.quantizations,
        model_metadata: None,
        file_tree: None,
        loading_quants: true,
        loading: true,
        status: b.status,
        needs_search_models: true,
        ..a
    })
}

/// A restarted search that shows its own progress line.
pub open spec fn research(a: App, b: App) -> bool {
    research_with(a, b, "Searching..."@)
}

/// The pane that Tab moves to, and the selection it makes there.
pub open spec fn focus_toggled(a: App) -> App {
    match a.display_mode {
        ModelDisplayMode::Gguf => match a.focused_pane {
            FocusedPane::Models => App {
                focused_pane: FocusedPane::QuantizationGroups,
                quant_list_state: if a.quantizations@.len() > 0 { Some(0usize) } else { a.quant_list_state },
                ..a
            },
            FocusedPane::QuantizationGroups => App {
                focused_pane: FocusedPane::QuantizationFiles,
                quant_file_list_state: match selected_group_files(a.quantizations@, a.quant_list_state) {
                    Some(n) => if n > 0 { Some(0usize) } else { a.quant_file_list_state },
                    None => a.quant_file_list_state,
                },
                ..a
            },
            _ => App { focused_pane: FocusedPane::Models, ..a },
        },
        ModelDisplayMode::Standard => match a.focused_pane {
            FocusedPane::Models => App {
                focused_pane: FocusedPane::FileTree,
                file_tree_state: match a.file_tree {
                    Some(t) => if t.children@.len() > 0 { Some(0usize) } else { a.file_tree_state },
                    None => a.file_tree_state,
                },
                ..a
            },
            _ => App { focused_pane: FocusedPane::Models, ..a },
        },
    }
}

/// Left and Right between the group and the file lists.
pub open spec fn subfocus_toggled(a: App) -> App {
    match a.focused_pane {
        FocusedPane::QuantizationGroups => match a.quant_list_state {
            Some(g) => App {
                focused_pane: FocusedPane::QuantizationFiles,
                quant_file_list_state: match selected_group_files(a.quantizations@, a.quant_list_state) {
                    Some(n) => if n > 0 { Some(0usize) } else { a.quant_file_list_state },
                    None => a.quant_file_list_state,
                },
                ..a
            },
            None => a,
        },
        FocusedPane::QuantizationFiles => App { focused_pane: FocusedPane::QuantizationGroups, ..a },
        _ => a,
    }
}

/// The row that a file-tree toggle acts on: the path of the selected row,
/// when there is a tree and the selection is in range.
pub open spec fn tree_toggle_target(t: Option<FileTreeNode>, sel: Option<usize>) -> Option<Seq<char>> {
    match (t, sel) {
        (Some(n), Some(i)) => if i < flat(tview(n)).len() {
            Some(flat(tview(n))[i as int].path)
        } else {
            None
        },
        _ => None,
    }
}

/// `URL` of a model page on the Hub.
pub open spec fn model_page(id: Seq<char>) -> Seq<char> {
    "https://huggingface.co/"@ + id
}

/// The selection line for the selected model, when one in range is
/// selected.
pub open spec fn model_details_text(a: App) -> Option<Seq<char>> {
    match a.list_state {
        Some(i) => if i < a.models@.len() {
            Some("Selected: "@ + a.models@[i as int].id@ + " | URL: "@ + model_page(a.models@[i as int].id@))
        } else {
            None
        },
        None => None,
    }
}

/// `b` is `a` showing `text` in the status line, or `a` itself when there
/// is nothing to show.
pub open spec fn status_shown(a: App, b: App, text: Option<Seq<char>>) -> bool {
    match text {
        Some(t) => {
            &&& b.status@ == t
            &&& (b == App { status: b.status, ..a })
        },
        None => b == a,
    }
}

/// `b` is `a` with the selected file-tree row expanded or collapsed.
pub open spec fn tree_toggled(a: App, b: App) -> bool {
    match tree_toggle_target(a.file_tree, a.file_tree_state) {
        Some(p) => {
            &&& b.file_tree is Some
            &&& tview(b.file_tree->0) == toggle_node(tview(a.file_tree->0), p).0
            &&& (b == App { file_tree: b.file_tree, ..a })
        },
        None => b == a,
    }
}

impl App {
    /// Clears the details of the selected model at once, so that a move
    /// of the selection shows; they load again on the next loop turn.
    pub fn clear_model_details(&mut self)
        ensures
            details_cleared(*old(self), *final(self)),
    {
        self.quantizations = Vec::new();
        self.model_metadata = None;
        self.file_tree = None;
        self.loading_quants = true;
        self.status = String::from_str("Loading model details...");
    }

    /// Clears the search results and the model details before a search.
    pub fn clear_search_results(&mut self)
        ensures
            research(*old(self), App { needs_search_models: true, ..*final(self) }),
            final(self).needs_search_models == old(self).needs_search_models,
    {
        self.models = Vec::new();
        self.clear_model_details();
        self.loading = true;
        self.status = String::from_str("Searching...");
    }

    /// Clears the results and asks for a search on the next loop turn.
    fn restart_search(&mut self)
        ensures
            research(*old(self), *final(self)),
    {
        self.clear_search_results();
        self.needs_search_models = true;
    }

    /// Tab: GGUF mode cycles models, groups, files; standard mode cycles
    /// models and the file tree.  Entering a list selects its first row
    /// when it has one.
    pub fn toggle_focus(&mut self)
        ensures
            *final(self) == focus_toggled(*old(self)),
    {
        match self.display_mode {
            ModelDisplayMode::Gguf => match self.focused_pane {
                FocusedPane::Models => {
                    if self.quantizations.len() > 0 {
                        self.quant_list_state = Some(0);
                    }
                    self.focused_pane = FocusedPane::QuantizationGroups;
                },
                FocusedPane::QuantizationGroups => {
                    if let Some(g) = self.quant_list_state {
                        if g < self.quantizations.len() && self.quantizations[g].files.len() > 0 {
                            self.quant_file_list_state = Some(0);
                        }
                    }
                    self.focused_pane = FocusedPane::QuantizationFiles;
                },
                _ => {
                    self.focused_pane = FocusedPane::Models;
                },
            },
            ModelDisplayMode::Standard => match self.focused_pane {
                FocusedPane::Models => {
                    let has_rows = match &self.file_tree {
                        Some(t) => t.children.len() > 0,
                        None => false,
                    };
                    if has_rows {
                        self.file_tree_state = Some(0);
                    }
                    self.focused_pane = FocusedPane::FileTree;
                },
                _ => {
                    self.focused_pane = FocusedPane::Models;
                },
            },
        }
    }

    /// Left and Right: between the group list and the file list of the
    /// selected group (selecting its first file).
    pub fn toggle_quant_subfocus(&mut self)
        ensures
            *final(self) == subfocus_toggled(*old(self)),
    {
        match self.focused_pane {
            FocusedPane::QuantizationGroups => {
                if let Some(g) = self.quant_list_state {
                    if g < self.quantizations.len() && self.quantizations[g].files.len() > 0 {
                        self.quant_file_list_state = Some(0);
                    }
                    self.focused_pane = FocusedPane::QuantizationFiles;
                }
            },
            FocusedPane::QuantizationFiles => {
                self.focused_pane = FocusedPane::QuantizationGroups;
            },
            _ => {},
        }
    }

    /// Enter on the file tree: expands or collapses the selected directory.
    pub fn toggle_file_tree_expansion(&mut self)
        ensures
            tree_toggled(*old(self), *final(self)),
    {
        let sel = match self.file_tree_state {
            Some(i) => i,
            None => return,
        };
        let taken = self.file_tree.take();
        match taken {
            Some(mut tree) => {
                let rows = flatten_tree_for_navigation(&tree);
                proof {
                    lemma_views_index(rows@);
                }
                if sel < rows.len() {
                    let path = rows[sel].path.clone();
                    toggle_node_expansion(&mut tree, path.as_str());
                }
                self.file_tree = Some(tree);
            },
            None => {},
        }
    }

    /// Enter on a model: shows its ID and page in the selection line.
    pub fn show_model_details(&mut self)
        ensures
            match model_details_text(*old(self)) {
                Some(t) => {
                    &&& final(self).selection_info@ == t
                    &&& (*final(self) == App { selection_info: final(self).selection_info, ..*old(self) })
                },
                None => *final(self) == *old(self),
            },
    {
        if let Some(i) = self.list_state {
            if i < self.models.len() {
                let id = self.models[i].id.as_str();
                let mut info = String::from_str("Selected: ");
                info.append(id);
                info.append(" | URL: ");
                info.append("https://huggingface.co/");
                info.append(id);
                proof {
                    assert(info@ == "Selected: "@ + id@ + " | URL: "@ + "https://huggingface.co/"@ + id@);
                }
                self.selection_info = info;
            }
        }
    }
}

// ---------------------------------------------------------------------------
// Details of groups and files
// ---------------------------------------------------------------------------

/// The selected group, when one in range is selected, has at least one
/// file (the details line names its first file).
pub open spec fn group_details_ok(a: App) -> bool {
    match a.quant_list_state {
        Some(g) => g < a.quantizations@.len() ==> a.quantizations@[g as int].files@.len() > 0,
        None => true,
    }
}

/// The status line for the selected group.
pub open spec fn quant_details_text(a: App) -> Option<Seq<char>> {
    match a.quant_list_state {
        Some(g) => if g < a.quantizations@.len() {
            let group = a.quantizations@[g as int];
            Some(
                "Type: "@ + group.quant_type@ + " | Size: "@ + size_text(group.total_size as nat) + " | File: "@
                    + group.files@[0].filename@,
            )
        } else {
            None
        },
        None => None,
    }
}

/// The status line for the selected file of the selected group.
pub open spec fn file_details_text(a: App) -> Option<Seq<char>> {
    match (a.quant_list_state, a.quant_file_list_state) {
        (Some(g), Some(f)) => if g < a.quantizations@.len() && f < a.quantizations@[g as int].files@.len() {
            let file = a.quantizations@[g as int].files@[f as int];
            Some("File: "@ + file.filename@ + " | Size: "@ + size_text(file.size as nat) + " | Type: "@ + file.quant_type@)
        } else {
            None
        },
        _ => None,
    }
}

impl App {
    /// Enter on a group: its type, total size and first file in the
    /// status line.
    pub fn show_quantization_details(&mut self)
        requires
            group_details_ok(*old(self)),
        ensures
            status_shown(*old(self), *final(self), quant_details_text(*old(self))),
    {
        if let Some(g) = self.quant_list_state {
            if g < self.quantizations.len() {
                let group = &self.quantizations[g];
                let mut line = String::from_str("Type: ");
                line.append(group.quant_type.as_str());
                line.append(" | Size: ");
                let size = format_size(group.total_size);
                line.append(size.as_str());
                line.append(" | File: ");
                line.append(group.files[0].filename.as_str());
                self.status = line;
            }
        }
    }

    /// Enter on a file: its name, size and type in the status line.
    pub fn show_file_details(&mut self)
        ensures
            status_shown(*old(self), *final(self), file_details_text(*old(self))),
    {
        if let Some(g) = self.quant_list_state {
            if let Some(f) = self.quant_file_list_state {
                if g < self.quantizations.len() && f < self.quantizations[g].files.len() {
                    let file = &self.quantizations[g].files[f];
                    let mut line = String::from_str("File: ");
                    line.append(file.filename.as_str());
                    line.append(" | Size: ");
                    let size = format_size(file.size);
                    line.append(size.as_str());
                    line.append(" | Type: ");
                    line.append(file.quant_type.as_str());
                    self.status = line;
                }
            }
        }
    }
}

// ---------------------------------------------------------------------------
// Sorting and filters
// ---------------------------------------------------------------------------

/// Sort fields in their cycling order.
pub open spec fn next_sort_field(f: SortField) -> SortField {
    match f {
        SortField::Downloads => SortField::Likes,
        SortField::Likes => SortField::Modified,
        SortField::Modified => SortField::Name,
        SortField::Name => SortField::Downloads,
    }
}

pub open spec fn flipped(d: SortDirection) -> SortDirection {
    match d {
        SortDirection::Ascending => SortDirection::Descending,
        SortDirection::Descending => SortDirection::Ascending,
    }
}

pub open spec fn sort_field_name(f: SortField) -> Seq<char> {
    match f {
        SortField::Downloads => "Downloads"@,
        SortField::Likes => "Likes"@,
        SortField::Modified => "Modified"@,
        SortField::Name => "Name"@,
    }
}

pub open spec fn sort_direction_name(d: SortDirection) -> Seq<char> {
    match d {
        SortDirection::Ascending => "Ascending ▲"@,
        SortDirection::Descending => "Descending ▼"@,
    }
}

/// The steps of the minimum-downloads filter.
pub open spec fn download_steps() -> Seq<u64> {
    seq![0u64, 100, 1_000, 10_000, 100_000, 1_000_000]
}

/// The steps of the minimum-likes filter.
pub open spec fn like_steps() -> Seq<u64> {
    seq![0u64, 10, 50, 100, 500, 1_000, 5_000]
}

/// Index of `v` in `steps` from `i` on, or 0 when it is not there.
pub open spec fn step_index_from(steps: Seq<u64>, v: u64, i: nat) -> nat
    decreases steps.len() - i,
{
    if i >= steps.len() {
        0
    } else if steps[i as int] == v {
        i
    } else {
        step_index_from(steps, v, i + 1)
    }
}

/// The next step up (or down) from `v`; a value off the steps counts as the
/// first step.
pub open spec fn stepped(steps: Seq<u64>, v: u64, up: bool) -> u64 {
    let i = step_index_from(steps, v, 0) as int;
    if up {
        steps[if i + 1 < steps.len() { i + 1 } else { steps.len() - 1 }]
    } else {
        steps[if i > 0 { i - 1 } else { 0int }]
    }
}

/// What `+` (`delta > 0`) or `-` change in the focused filter.
pub open spec fn filter_modified(a: App, delta: i32) -> App {
    if a.focused_filter_field == 0 {
        if delta > 0 {
            App { sort_field: next_sort_field(a.sort_field), ..a }
        } else {
            App { sort_direction: flipped(a.sort_direction), ..a }
        }
    } else if a.focused_filter_field == 1 {
        App { filter_min_downloads: stepped(download_steps(), a.filter_min_downloads, delta > 0), ..a }
    } else if a.focused_filter_field == 2 {
        App { filter_min_likes: stepped(like_steps(), a.filter_min_likes, delta > 0), ..a }
    } else {
        a
    }
}

/// Sort field, direction, minimum downloads and minimum likes of a preset.
pub open spec fn preset_target(p: FilterPreset) -> (SortField, SortDirection, u64, u64) {
    match p {
        FilterPreset::NoFilters => (SortField::Downloads, SortDirection::Descending, 0u64, 0u64),
        FilterPreset::Popular => (SortField::Downloads, SortDirection::Descending, 10_000u64, 100u64),
        FilterPreset::HighlyRated => (SortField::Likes, SortDirection::Descending, 0u64, 1_000u64),
        FilterPreset::Recent => (SortField::Modified, SortDirection::Descending, 0u64, 0u64),
    }
}

/// `a` with the settings of preset `p`.
pub open spec fn with_preset(a: App, p: FilterPreset) -> App {
    let t = preset_target(p);
    App { sort_field: t.0, sort_direction: t.1, filter_min_downloads: t.2, filter_min_likes: t.3, ..a }
}

fn next_sort(f: SortField) -> (r: SortField)
    ensures
        r == next_sort_field(f),
{
    match f {
        SortField::Downloads => SortField::Likes,
        SortField::Likes => SortField::Modified,
        SortField::Modified => SortField::Name,
        SortField::Name => SortField::Downloads,
    }
}

fn flip(d: SortDirection) -> (r: SortDirection)
    ensures
        r == flipped(d),
{
    match d {
        SortDirection::Ascending => SortDirection::Descending,
        SortDirection::Descending => SortDirection::Ascending,
    }
}

fn sort_field_label(f: SortField) -> (r: &'static str)
    ensures
        r@ == sort_field_name(f),
{
    match f {
        SortField::Downloads => "Downloads",
        SortField::Likes => "Likes",
        SortField::Modified => "Modified",
        SortField::Name => "Name",
    }
}

fn sort_direction_label(d: SortDirection) -> (r: &'static str)
    ensures
        r@ == sort_direction_name(d),
{
    match d {
        SortDirection::Ascending => "Ascending ▲",
        SortDirection::Descending => "Descending ▼",
    }
}

fn step_value(steps: &[u64], v: u64, up: bool) -> (r: u64)
    requires
        steps@.len() > 0,
    ensures
        r == stepped(steps@, v, up),
{
    let mut i: usize = 0;
    while i < steps.len() && steps[i] != v
        invariant
            i <= steps@.len(),
            step_index_from(steps@, v, 0) == step_index_from(steps@, v, i as nat),
        decreases steps@.len() - i,
    {
        i += 1;
    }
    let found: usize = if i < steps.len() {
        i
    } else {
        0
    };
    let n = steps.len();
    if up {
        if found + 1 < n {
            steps[found + 1]
        } else {
            steps[n - 1]
        }
    } else {
        if found > 0 {
            steps[found - 1]
        } else {
            steps[0]
        }
    }
}

impl App {
    /// `+` or `-` on the focused filter: the sort field cycles with `+`,
    /// the direction flips with `-`; the minimums move one step along
    /// their scales.  The search starts over.
    pub fn modify_focused_filter(&mut self, delta: i32)
        ensures
            research(filter_modified(*old(self), delta), *final(self)),
    {
        if self.focused_filter_field == 0 {
            if delta > 0 {
                self.sort_field = next_sort(self.sort_field);
            } else {
                self.sort_direction = flip(self.sort_direction);
            }
        } else if self.focused_filter_field == 1 {
            let steps: [u64; 6] = [0, 100, 1_000, 10_000, 100_000, 1_000_000];
            proof {
                assert(steps@ == download_steps());
            }
            self.filter_min_downloads = step_value(&steps, self.filter_min_downloads, delta > 0);
        } else if self.focused_filter_field == 2 {
            let steps: [u64; 7] = [0, 10, 50, 100, 500, 1_000, 5_000];
            proof {
                assert(steps@ == like_steps());
            }
            self.filter_min_likes = step_value(&steps, self.filter_min_likes, delta > 0);
        }
        self.restart_search();
    }

    /// Whether preset `preset` differs from the current settings.
    pub fn would_change_settings(&self, preset: FilterPreset) -> (r: bool)
        ensures
            r == (with_preset(*self, preset) != *self),
    {
        let (f, d, dl, lk) = match preset {
            FilterPreset::NoFilters => (SortField::Downloads, SortDirection::Descending, 0u64, 0u64),
            FilterPreset::Popular => (SortField::Downloads, SortDirection::Descending, 10_000u64, 100u64),
            FilterPreset::HighlyRated => (SortField::Likes, SortDirection::Descending, 0u64, 1_000u64),
            FilterPreset::Recent => (SortField::Modified, SortDirection::Descending, 0u64, 0u64),
        };
        let r = self.sort_field != f || self.sort_direction != d || self.filter_min_downloads != dl
            || self.filter_min_likes != lk;
        proof {
            if !r {
                assert(with_preset(*self, preset) == *self);
            }
        }
        r
    }

    /// Applies a preset and starts the search over.
    pub fn apply_filter_preset(&mut self, preset: FilterPreset)
        ensures
            research(with_preset(*old(self), preset), *final(self)),
    {
        match preset {
            FilterPreset::NoFilters => {
                self.sort_field = SortField::Downloads;
                self.sort_direction = SortDirection::Descending;
                self.filter_min_downloads = 0;
                self.filter_min_likes = 0;
            },
            FilterPreset::Popular => {
                self.sort_field = SortField::Downloads;
                self.sort_direction = SortDirection::Descending;
                self.filter_min_downloads = 10_000;
                self.filter_min_likes = 100;
            },
            FilterPreset::HighlyRated => {
                self.sort_field = SortField::Likes;
                self.sort_direction = SortDirection::Descending;
                self.filter_min_downloads = 0;
                self.filter_min_likes = 1_000;
            },
            FilterPreset::Recent => {
                self.sort_field = SortField::Modified;
                self.sort_direction = SortDirection::Descending;
                self.filter_min_downloads = 0;
                self.filter_min_likes = 0;
            },
        }
        self.restart_search();
    }

    /// Makes the current sort and filters the saved defaults (the caller
    /// writes the options and reports with [`App::record_filter_save`]).
    pub fn save_filter_settings(&mut self)
        ensures
            (*final(self) == App {
                options: AppOptions {
                    default_sort_field: old(self).sort_field,
                    default_sort_direction: old(self).sort_direction,
                    default_min_downloads: old(self).filter_min_downloads,
                    default_min_likes: old(self).filter_min_likes,
                    ..old(self).options
                },
                ..*old(self)
            }),
    {
        self.options.default_sort_field = self.sort_field;
        self.options.default_sort_direction = self.sort_direction;
        self.options.default_min_downloads = self.filter_min_downloads;
        self.options.default_min_likes = self.filter_min_likes;
    }

    /// Reports how writing the filter defaults went.
    pub fn record_filter_save(&mut self, failure: Option<String>)
        ensures
            final(self).status@ == match failure {
                Some(e) => "Failed to save filter settings: "@ + e@,
                None => "Filter settings saved"@,
            },
            (*final(self) == App { status: final(self).status, ..*old(self) }),
    {
        match failure {
            Some(e) => {
                let mut m = String::from_str("Failed to save filter settings: ");
                m.append(e.as_str());
                self.status = m;
            },
            None => {
                self.status = String::from_str("Filter settings saved");
            },
        }
    }

    /// Reports a failed write of the options; a successful one shows
    /// nothing.
    pub fn record_config_save(&mut self, failure: Option<String>)
        ensures
            match failure {
                Some(e) => {
                    &&& final(self).status@ == "Failed to save config: "@ + e@
                    &&& (*final(self) == App { status: final(self).status, ..*old(self) })
                },
                None => *final(self) == *old(self),
            },
    {
        if let Some(e) = failure {
            let mut m = String::from_str("Failed to save config: ");
            m.append(e.as_str());
            self.status = m;
        }
    }
}

// ---------------------------------------------------------------------------
// Options popup values
// ---------------------------------------------------------------------------

pub open spec fn clamp(x: int, lo: int, hi: int) -> int {
    if x < lo {
        lo
    } else if x > hi {
        hi
    } else {
        x
    }
}

pub open spec fn fits_i32(x: int) -> bool {
    i32::MIN <= x <= i32::MAX
}

pub open spec fn fits_i64(x: int) -> bool {
    i64::MIN <= x <= i64::MAX
}

/// The arithmetic of one option step stays within its machine integers
/// (the value is read as a signed integer first, as the options popup
/// does).
pub open spec fn option_step_fits(o: AppOptions, delta: i32) -> bool {
    let d = delta as int;
    if o.selected_field == 2 {
        fits_i32((o.concurrent_threads as i32) + d)
    } else if o.selected_field == 3 {
        fits_i32((o.num_chunks as i32) + d)
    } else if o.selected_field == 4 {
        fits_i64((o.min_chunk_size as i64) + d * 1048576)
    } else if o.selected_field == 5 {
        fits_i64((o.max_chunk_size as i64) + d * 10485760)
    } else if o.selected_field == 6 {
        fits_i32((o.max_retries as i32) + d)
    } else if o.selected_field == 7 {
        fits_i64((o.download_timeout_secs as i64) + d * 30)
    } else if o.selected_field == 8 {
        fits_i64((o.retry_delay_secs as i64) + d)
    } else if o.selected_field == 9 {
        fits_i64((o.progress_update_interval_ms as i64) + d * 50)
    } else if o.selected_field == 11 {
        fits_i32((o.concurrent_verifications as i32) + d)
    } else if o.selected_field == 12 {
        fits_i64((o.verification_buffer_size as i64) + d * 65536)
    } else if o.selected_field == 13 {
        fits_i32(d * 50) && fits_i32((o.verification_update_interval as i32) + d * 50)
    } else {
        true
    }
}

/// The options after `+` (`delta` 1) or `-` (`delta` -1) on the selected
/// field: each numeric field moves by its step and stays within its range;
/// the verification switch toggles; the directory and the token are edited
/// with Enter instead.
pub open spec fn option_stepped(o: AppOptions, delta: i32) -> AppOptions {
    let d = delta as int;
    if o.selected_field == 2 {
        AppOptions { concurrent_threads: clamp((o.concurrent_threads as i32) + d, 1, 32) as usize, ..o }
    } else if o.selected_field == 3 {
        AppOptions { num_chunks: clamp((o.num_chunks as i32) + d, 10, 100) as usize, ..o }
    } else if o.selected_field == 4 {
        AppOptions {
            min_chunk_size: clamp((o.min_chunk_size as i64) + d * 1048576, 1048576, 52428800) as u64,
            ..o
        }
    } else if o.selected_field == 5 {
        AppOptions {
            max_chunk_size: clamp((o.max_chunk_size as i64) + d * 10485760, 10485760, 524288000) as u64,
            ..o
        }
    } else if o.selected_field == 6 {
        AppOptions { max_retries: clamp((o.max_retries as i32) + d, 0, 10) as u32, ..o }
    } else if o.selected_field == 7 {
        AppOptions { download_timeout_secs: clamp((o.download_timeout_secs as i64) + d * 30, 60, 600) as u64, ..o }
    } else if o.selected_field == 8 {
        AppOptions { retry_delay_secs: clamp((o.retry_delay_secs as i64) + d, 1, 10) as u64, ..o }
    } else if o.selected_field == 9 {
        AppOptions {
            progress_update_interval_ms: clamp((o.progress_update_interval_ms as i64) + d * 50, 100, 1000) as u64,
            ..o
        }
    } else if o.selected_field == 10 {
        AppOptions { verification_on_completion: !o.verification_on_completion, ..o }
    } else if o.selected_field == 11 {
        AppOptions { concurrent_verifications: clamp((o.concurrent_verifications as i32) + d, 1, 8) as usize, ..o }
    } else if o.selected_field == 12 {
        AppOptions {
            verification_buffer_size: clamp((o.verification_buffer_size as i64) + d * 65536, 65536, 524288) as usize,
            ..o
        }
    } else if o.selected_field == 13 {
        AppOptions {
            verification_update_interval: clamp((o.verification_update_interval as i32) + d * 50, 50, 500) as usize,
            ..o
        }
    } else {
        o
    }
}

fn clamp_i64(x: i64, lo: i64, hi: i64) -> (r: i64)
    requires
        lo <= hi,
    ensures
        r == clamp(x as int, lo as int, hi as int),
{
    if x < lo {
        lo
    } else if x > hi {
        hi
    } else {
        x
    }
}

fn clamp_i32(x: i32, lo: i32, hi: i32) -> (r: i32)
    requires
        lo <= hi,
    ensures
        r == clamp(x as int, lo as int, hi as int),
{
    if x < lo {
        lo
    } else if x > hi {
        hi
    } else {
        x
    }
}

impl App {
    /// `+` or `-` on the selected option (the caller then applies the
    /// options to the engine and writes them).
    pub fn modify_option(&mut self, delta: i32)
        requires
            option_step_fits(old(self).options, delta),
        ensures
            (*final(self) == App { options: option_stepped(old(self).options, delta), ..*old(self) }),
    {
        let f = self.options.selected_field;
        if f == 2 {
            let v = clamp_i32(self.options.concurrent_threads as i32 + delta, 1, 32);
            self.options.concurrent_threads = v as usize;
        } else if f == 3 {
            let v = clamp_i32(self.options.num_chunks as i32 + delta, 10, 100);
            self.options.num_chunks = v as usize;
        } else if f == 4 {
            let step: i64 = 1024 * 1024;
            let v = clamp_i64(self.options.min_chunk_size as i64 + delta as i64 * step, 1024 * 1024, 50 * 1024 * 1024);
            self.options.min_chunk_size = v as u64;
        } else if f == 5 {
            let step: i64 = 10 * 1024 * 1024;
            let v = clamp_i64(
                self.options.max_chunk_size as i64 + delta as i64 * step,
                10 * 1024 * 1024,
                500 * 1024 * 1024,
            );
            self.options.max_chunk_size = v as u64;
        } else if f == 6 {
            let v = clamp_i32(self.options.max_retries as i32 + delta, 0, 10);
            self.options.max_retries = v as u32;
        } else if f == 7 {
            let v = clamp_i64(self.options.download_timeout_secs as i64 + delta as i64 * 30, 60, 600);
            self.options.download_timeout_secs = v as u64;
        } else if f == 8 {
            let v = clamp_i64(self.options.retry_delay_secs as i64 + delta as i64, 1, 10);
            self.options.retry_delay_secs = v as u64;
        } else if f == 9 {
            let v = clamp_i64(self.options.progress_update_interval_ms as i64 + delta as i64 * 50, 100, 1000);
            self.options.progress_update_interval_ms = v as u64;
        } else if f == 10 {
            self.options.verification_on_completion = !self.options.verification_on_completion;
        } else if f == 11 {
            let v = clamp_i32(self.options.concurrent_verifications as i32 + delta, 1, 8);
            self.options.concurrent_verifications = v as usize;
        } else if f == 12 {
            let step: i64 = 64 * 1024;
            let v = clamp_i64(
                self.options.verification_buffer_size as i64 + delta as i64 * step,
                64 * 1024,
                512 * 1024,
            );
            self.options.verification_buffer_size = v as usize;
        } else if f == 13 {
            let v = clamp_i32(self.options.verification_update_interval as i32 + delta * 50, 50, 500);
            self.options.verification_update_interval = v as usize;
        }
    }
}

// ---------------------------------------------------------------------------
// Downloads, status messages and the mouse
// ---------------------------------------------------------------------------

/// `b` is `a` with the download-path popup opened on the default
/// directory and `status` shown.
pub open spec fn path_popup_opened(a: App, b: App, status: Seq<char>) -> bool {
    &&& b.download_path_input@ == a.options.default_directory@
    &&& b.status@ == status
    &&& (b == App {
        download_path_input: b.download_path_input,
        popup_mode: PopupMode::DownloadPath,
        status: b.status,
        ..a
    })
}

/// Prefix of the status messages that report a download refused for want
/// of authentication.
pub open spec fn auth_error_prefix() -> Seq<char> {
    "AUTH_ERROR:"@
}

/// Whether the pane's list has rows and none is selected.
pub open spec fn pane_first_row(a: App, pane: FocusedPane) -> App {
    match pane {
        FocusedPane::Models => if a.models@.len() > 0 && a.list_state is None {
            App { list_state: Some(0usize), ..a }
        } else {
            a
        },
        FocusedPane::QuantizationGroups => if a.quantizations@.len() > 0 && a.quant_list_state is None {
            App { quant_list_state: Some(0usize), ..a }
        } else {
            a
        },
        FocusedPane::QuantizationFiles => match selected_group_files(a.quantizations@, a.quant_list_state) {
            Some(n) => if n > 0 && a.quant_file_list_state is None {
                App { quant_file_list_state: Some(0usize), ..a }
            } else {
                a
            },
            None => a,
        },
        FocusedPane::FileTree => match tree_rows(a.file_tree) {
            Some(n) => if n > 0 && a.file_tree_state is None {
                App { file_tree_state: Some(0usize), ..a }
            } else {
                a
            },
            None => a,
        },
        FocusedPane::ModelMetadata => a,
    }
}

/// The first panel (in drawing order) whose area holds the cell.
pub open spec fn panel_at(areas: Seq<(FocusedPane, Rect)>, column: u16, row: u16) -> Option<FocusedPane>
    decreases areas.len(),
{
    if areas.len() == 0 {
        None
    } else if rect_has(areas[0].1, column, row) {
        Some(areas[0].0)
    } else {
        panel_at(areas.drop_first(), column, row)
    }
}

/// The list move that a scroll makes in the focused pane.
pub open spec fn scrolled(a: App, up: bool) -> App {
    match a.focused_pane {
        FocusedPane::Models => App {
            list_state: if up { prev_index(a.list_state, a.models@.len()) } else { next_index(a.list_state, a.models@.len()) },
            ..a
        },
        FocusedPane::QuantizationGroups => App {
            quant_list_state: if up {
                prev_index(a.quant_list_state, a.quantizations@.len())
            } else {
                next_index(a.quant_list_state, a.quantizations@.len())
            },
            ..a
        },
        FocusedPane::QuantizationFiles => App {
            quant_file_list_state: match selected_group_files(a.quantizations@, a.quant_list_state) {
                Some(n) => if up { prev_index(a.quant_file_list_state, n) } else { next_index(a.quant_file_list_state, n) },
                None => a.quant_file_list_state,
            },
            ..a
        },
        FocusedPane::ModelMetadata => a,
        FocusedPane::FileTree => App {
            file_tree_state: match tree_rows(a.file_tree) {
                Some(n) => if up { prev_index(a.file_tree_state, n) } else { next_index(a.file_tree_state, n) },
                None => a.file_tree_state,
            },
            ..a
        },
    }
}

/// The status line of the download-path popup that `d` opens for the
/// focused pane, or `None` when there is nothing to download.
pub open spec fn download_prompt(a: App) -> Option<Seq<char>> {
    match a.focused_pane {
        FocusedPane::Models => if a.display_mode == ModelDisplayMode::Standard && a.model_metadata is Some {
            Some("Download all "@ + decimal(a.model_metadata->0.siblings@.len()) + " files from repository"@)
        } else {
            None
        },
        FocusedPane::QuantizationGroups => match a.quant_list_state {
            Some(g) => if g < a.quantizations@.len() {
                Some("Download all "@ + decimal(a.quantizations@[g as int].files@.len()) + " files in quantization group"@)
            } else {
                None
            },
            None => None,
        },
        FocusedPane::QuantizationFiles => if a.quant_list_state is Some && a.quant_file_list_state is Some {
            Some("Download single selected file"@)
        } else {
            None
        },
        _ => None,
    }
}

impl App {
    /// `d`: opens the download-path popup for what the focused pane
    /// selects: the whole repository (standard mode, metadata loaded), the
    /// selected group, or the selected file.
    pub fn trigger_download(&mut self)
        ensures
            match download_prompt(*old(self)) {
                Some(t) => path_popup_opened(*old(self), *final(self), t),
                None => *final(self) == *old(self),
            },
    {
        match self.focused_pane {
            FocusedPane::Models => {
                if self.display_mode == ModelDisplayMode::Standard {
                    let count: Option<usize> = match &self.model_metadata {
                        Some(m) => Some(m.siblings.len()),
                        None => None,
                    };
                    if let Some(n) = count {
                        self.download_path_input = self.options.default_directory.clone();
                        self.popup_mode = PopupMode::DownloadPath;
                        let mut m = String::from_str("Download all ");
                        let digits = decimal_string(n as u64);
                        m.append(digits.as_str());
                        m.append(" files from repository");
                        self.status = m;
                    }
                }
            },
            FocusedPane::QuantizationGroups => {
                if let Some(g) = self.quant_list_state {
                    if g < self.quantizations.len() {
                        let n = self.quantizations[g].files.len();
                        self.download_path_input = self.options.default_directory.clone();
                        self.popup_mode = PopupMode::DownloadPath;
                        let mut m = String::from_str("Download all ");
                        let digits = decimal_string(n as u64);
                        m.append(digits.as_str());
                        m.append(" files in quantization group");
                        self.status = m;
                    }
                }
            },
            FocusedPane::QuantizationFiles => {
                if self.quant_list_state.is_some() && self.quant_file_list_state.is_some() {
                    self.download_path_input = self.options.default_directory.clone();
                    self.popup_mode = PopupMode::DownloadPath;
                    self.status = String::from_str("Download single selected file");
                }
            },
            _ => {},
        }
    }

    /// Start-up: takes the unfinished and the complete downloads from the
    /// registry and offers to resume when something is unfinished.
    pub fn scan_incomplete_downloads(&mut self, registry: &DownloadRegistry)
        ensures
            final(self).incomplete_downloads@ == incomplete_of(registry.downloads@),
            final(self).complete_downloads.wf(),
            final(self).complete_downloads.contents() == complete_of(registry.downloads@),
            incomplete_of(registry.downloads@).len() > 0 ==> final(self).status@ == "Found "@ + decimal(
                incomplete_of(registry.downloads@).len(),
            ) + " incomplete download(s)"@,
            (*final(self) == App {
                incomplete_downloads: final(self).incomplete_downloads,
                complete_downloads: final(self).complete_downloads,
                popup_mode: if incomplete_of(registry.downloads@).len() > 0 {
                    PopupMode::ResumeDownload
                } else {
                    old(self).popup_mode
                },
                status: if incomplete_of(registry.downloads@).len() > 0 {
                    final(self).status
                } else {
                    old(self).status
                },
                ..*old(self)
            }),
    {
        self.incomplete_downloads = get_incomplete_downloads(registry);
        self.complete_downloads = get_complete_downloads(registry);
        let n = self.incomplete_downloads.len();
        if n > 0 {
            self.popup_mode = PopupMode::ResumeDownload;
            let mut m = String::from_str("Found ");
            let digits = decimal_string(n as u64);
            m.append(digits.as_str());
            m.append(" incomplete download(s)");
            self.status = m;
        }
    }

    /// A status message from the download tasks: an authentication failure
    /// (`AUTH_ERROR:` and the model ID) opens the authentication popup on
    /// the model's page; anything else is shown as it is.
    pub fn apply_status_message(&mut self, msg: &str)
        ensures
            has_prefix(msg@, auth_error_prefix()) ==> {
                let id = msg@.subrange(auth_error_prefix().len() as int, msg@.len() as int);
                &&& final(self).popup_mode matches PopupMode::AuthError { model_url } && model_url@ == model_page(id)
                &&& final(self).status@ == "Authentication required for "@ + id
                &&& (*final(self) == App { popup_mode: final(self).popup_mode, status: final(self).status, ..*old(self) })
            },
            !has_prefix(msg@, auth_error_prefix()) ==> {
                &&& final(self).status@ == msg@
                &&& (*final(self) == App { status: final(self).status, ..*old(self) })
            },
    {
        let prefix = "AUTH_ERROR:";
        proof {
            reveal_strlit("AUTH_ERROR:");
        }
        if str_starts_with(msg, prefix) {
            let id = str_drop(msg, 11);
            let mut url = String::from_str("https://huggingface.co/");
            url.append(id.as_str());
            self.popup_mode = PopupMode::AuthError { model_url: url };
            let mut m = String::from_str("Authentication required for ");
            m.append(id.as_str());
            self.status = m;
        } else {
            self.status = String::from_str(msg);
        }
    }

    /// Focuses a pane, selecting its first row when it has rows and none
    /// is selected.
    pub fn focus_pane(&mut self, pane: FocusedPane)
        ensures
            (*final(self) == App { focused_pane: pane, ..pane_first_row(*old(self), pane) }),
    {
        match pane {
            FocusedPane::Models => {
                if self.models.len() > 0 && self.list_state.is_none() {
                    self.list_state = Some(0);
                }
            },
            FocusedPane::QuantizationGroups => {
                if self.quantizations.len() > 0 && self.quant_list_state.is_none() {
                    self.quant_list_state = Some(0);
                }
            },
            FocusedPane::QuantizationFiles => {
                if let Some(g) = self.quant_list_state {
                    if g < self.quantizations.len() && self.quantizations[g].files.len() > 0
                        && self.quant_file_list_state.is_none() {
                        self.quant_file_list_state = Some(0);
                    }
                }
            },
            FocusedPane::FileTree => {
                if let Some(n) = self.tree_row_count() {
                    if n > 0 && self.file_tree_state.is_none() {
                        self.file_tree_state = Some(0);
                    }
                }
            },
            FocusedPane::ModelMetadata => {},
        }
        self.focused_pane = pane;
    }

    fn pane_under(&self, column: u16, row: u16) -> (r: Option<FocusedPane>)
        ensures
            r == panel_at(self.panel_areas@, column, row),
    {
        let mut i: usize = 0;
        proof {
            assert(self.panel_areas@.skip(0) =~= self.panel_areas@);
        }
        while i < self.panel_areas.len()
            invariant
                i <= self.panel_areas@.len(),
                panel_at(self.panel_areas@, column, row) == panel_at(self.panel_areas@.skip(i as int), column, row),
            decreases self.panel_areas@.len() - i,
        {
            proof {
                let rest = self.panel_areas@.skip(i as int);
                assert(rest.drop_first() == self.panel_areas@.skip(i + 1));
                assert(rest[0] == self.panel_areas@[i as int]);
            }
            if self.panel_areas[i].1.contains(column, row) {
                return Some(self.panel_areas[i].0);
            }
            i += 1;
        }
        None
    }

    /// A left click focuses the panel under the pointer (not while a popup
    /// is open).
    pub fn handle_mouse_click(&mut self, column: u16, row: u16)
        ensures
            match (old(self).popup_mode, panel_at(old(self).panel_areas@, column, row)) {
                (PopupMode::Closed, Some(p)) => (*final(self) == App { focused_pane: p, ..pane_first_row(*old(self), p) }),
                _ => *final(self) == *old(self),
            },
    {
        if !matches!(self.popup_mode, PopupMode::Closed) {
            return;
        }
        if let Some(p) = self.pane_under(column, row) {
            self.focus_pane(p);
        }
    }

    /// The wheel moves the selection of the focused list (not while a
    /// popup is open).
    pub fn handle_mouse_scroll(&mut self, scroll_up: bool)
        ensures
            old(self).popup_mode == PopupMode::Closed ==> *final(self) == scrolled(*old(self), scroll_up),
            old(self).popup_mode != PopupMode::Closed ==> *final(self) == *old(self),
    {
        if !matches!(self.popup_mode, PopupMode::Closed) {
            return;
        }
        match self.focused_pane {
            FocusedPane::Models => if scroll_up {
                self.previous();
            } else {
                self.next();
            },
            FocusedPane::QuantizationGroups => if scroll_up {
                self.previous_quant();
            } else {
                self.next_quant();
            },
            FocusedPane::QuantizationFiles => if scroll_up {
                self.previous_file();
            } else {
                self.next_file();
            },
            FocusedPane::ModelMetadata => {},
            FocusedPane::FileTree => if scroll_up {
                self.previous_file_tree_item();
            } else {
                self.next_file_tree_item();
            },
        }
    }

    /// Records the pointer and the panel it hovers (none while a popup is
    /// open).
    pub fn update_hover_state(&mut self, column: u16, row: u16)
        ensures
            (*final(self) == App {
                mouse_position: Some((column, row)),
                hovered_panel: if old(self).popup_mode == PopupMode::Closed {
                    panel_at(old(self).panel_areas@, column, row)
                } else {
                    None
                },
                ..*old(self)
            }),
    {
        self.mouse_position = Some((column, row));
        if !matches!(self.popup_mode, PopupMode::Closed) {
            self.hovered_panel = None;
            return;
        }
        self.hovered_panel = self.pane_under(column, row);
    }

    /// Writes back the value of a text field after its widget handled an
    /// edit.
    pub fn set_field(&mut self, field: TextField, value: String)
        ensures
            (*final(self) == match field {
                TextField::Search => App { input: value, ..*old(self) },
                TextField::DownloadPath => App { download_path_input: value, ..*old(self) },
                TextField::OptionsDirectory => App { options_directory_input: value, ..*old(self) },
                TextField::OptionsToken => App { options_token_input: value, ..*old(self) },
            }),
    {
        match field {
            TextField::Search => {
                self.input = value;
            },
            TextField::DownloadPath => {
                self.download_path_input = value;
            },
            TextField::OptionsDirectory => {
                self.options_directory_input = value;
            },
            TextField::OptionsToken => {
                self.options_token_input = value;
            },
        }
    }
}

// ---------------------------------------------------------------------------
// Keyboard
// ---------------------------------------------------------------------------

/// What a key means in normal mode.
#[derive(Debug, Clone, Copy, PartialEq, Eq, Structural)]
pub enum Command {
    Quit,
    OpenSearch,
    Download,
    Verify,
    OpenOptions,
    SaveFilters,
    CycleSort,
    FlipDirection,
    CycleFilterField,
    RaiseFilter,
    LowerFilter,
    ResetFilters,
    Preset(FilterPreset),
    ToggleFocus,
    Left,
    Right,
    Down,
    Up,
    Enter,
    Ignored,
}

/// The meaning of a key in normal mode, the first binding that matches
/// winning: `q` or Ctrl-C quits, `/` searches, `d` downloads, `v`
/// verifies, `o` opens the options, Ctrl-S saves the filters, `s` cycles
/// the sort field, Shift-S flips the direction, `f` cycles the focused
/// filter, `+` and `-` (or `_`) change it in the model list, `r` resets
/// the filters, `1` to `4` pick a preset, then Tab, the arrows (and `j`,
/// `k`) and Enter.
pub open spec fn normal_command_of(key: KeyInput, pane: FocusedPane) -> Command {
    let m = key.modifiers;
    let c = key.code;
    if c == KeyCode::Char('q') || (m == Modifiers::Control && (c == KeyCode::Char('c') || c == KeyCode::Char('C'))) {
        Command::Quit
    } else if c == KeyCode::Char('/') {
        Command::OpenSearch
    } else if c == KeyCode::Char('d') {
        Command::Download
    } else if c == KeyCode::Char('v') {
        Command::Verify
    } else if c == KeyCode::Char('o') {
        Command::OpenOptions
    } else if m == Modifiers::Control && (c == KeyCode::Char('s') || c == KeyCode::Char('S')) {
        Command::SaveFilters
    } else if c == KeyCode::Char('s') {
        Command::CycleSort
    } else if m == Modifiers::Shift && c == KeyCode::Char('S') {
        Command::FlipDirection
    } else if c == KeyCode::Char('f') {
        Command::CycleFilterField
    } else if c == KeyCode::Char('+') && pane == FocusedPane::Models {
        Command::RaiseFilter
    } else if (c == KeyCode::Char('-') || c == KeyCode::Char('_')) && pane == FocusedPane::Models {
        Command::LowerFilter
    } else if c == KeyCode::Char('r') {
        Command::ResetFilters
    } else if c == KeyCode::Char('1') {
        Command::Preset(FilterPreset::NoFilters)
    } else if c == KeyCode::Char('2') {
        Command::Preset(FilterPreset::Popular)
    } else if c == KeyCode::Char('3') {
        Command::Preset(FilterPreset::HighlyRated)
    } else if c == KeyCode::Char('4') {
        Command::Preset(FilterPreset::Recent)
    } else if c == KeyCode::Tab {
        Command::ToggleFocus
    } else if c == KeyCode::Left {
        Command::Left
    } else if c == KeyCode::Right {
        Command::Right
    } else if c == KeyCode::Down || c == KeyCode::Char('j') {
        Command::Down
    } else if c == KeyCode::Up || c == KeyCode::Char('k') {
        Command::Up
    } else if c == KeyCode::Enter {
        Command::Enter
    } else {
        Command::Ignored
    }
}

/// Reads a key in normal mode.
pub fn normal_command(key: KeyInput, pane: FocusedPane) -> (r: Command)
    ensures
        r == normal_command_of(key, pane),
{
    let m = key.modifiers;
    let c = key.code;
    if c == KeyCode::Char('q') || (m == Modifiers::Control && (c == KeyCode::Char('c') || c == KeyCode::Char('C'))) {
        Command::Quit
    } else if c == KeyCode::Char('/') {
        Command::OpenSearch
    } else if c == KeyCode::Char('d') {
        Command::Download
    } else if c == KeyCode::Char('v') {
        Command::Verify
    } else if c == KeyCode::Char('o') {
        Command::OpenOptions
    } else if m == Modifiers::Control && (c == KeyCode::Char('s') || c == KeyCode::Char('S')) {
        Command::SaveFilters
    } else if c == KeyCode::Char('s') {
        Command::CycleSort
    } else if m == Modifiers::Shift && c == KeyCode::Char('S') {
        Command::FlipDirection
    } else if c == KeyCode::Char('f') {
        Command::CycleFilterField
    } else if c == KeyCode::Char('+') && pane == FocusedPane::Models {
        Command::RaiseFilter
    } else if (c == KeyCode::Char('-') || c == KeyCode::Char('_')) && pane == FocusedPane::Models {
        Command::LowerFilter
    } else if c == KeyCode::Char('r') {
        Command::ResetFilters
    } else if c == KeyCode::Char('1') {
        Command::Preset(FilterPreset::NoFilters)
    } else if c == KeyCode::Char('2') {
        Command::Preset(FilterPreset::Popular)
    } else if c == KeyCode::Char('3') {
        Command::Preset(FilterPreset::HighlyRated)
    } else if c == KeyCode::Char('4') {
        Command::Preset(FilterPreset::Recent)
    } else if c == KeyCode::Tab {
        Command::ToggleFocus
    } else if c == KeyCode::Left {
        Command::Left
    } else if c == KeyCode::Right {
        Command::Right
    } else if c == KeyCode::Down || c == KeyCode::Char('j') {
        Command::Down
    } else if c == KeyCode::Up || c == KeyCode::Char('k') {
        Command::Up
    } else if c == KeyCode::Enter {
        Command::Enter
    } else {
        Command::Ignored
    }
}

pub open spec fn filter_field_name(f: nat) -> Seq<char> {
    if f == 0 {
        "Sort"@
    } else if f == 1 {
        "Min Downloads"@
    } else {
        "Min Likes"@
    }
}

pub open spec fn preset_name(p: FilterPreset) -> Seq<char> {
    match p {
        FilterPreset::NoFilters => "No Filters"@,
        FilterPreset::Popular => "Popular"@,
        FilterPreset::HighlyRated => "Highly Rated"@,
        FilterPreset::Recent => "Recent"@,
    }
}

/// The filters at their defaults: by downloads, descending, no minimums,
/// the sort field focused.
pub open spec fn filters_reset(a: App) -> App {
    App {
        sort_field: SortField::Downloads,
        sort_direction: SortDirection::Descending,
        filter_min_downloads: 0,
        filter_min_likes: 0,
        focused_filter_field: 0,
        ..a
    }
}

/// The filter defaults saved in the options.
pub open spec fn filters_saved(a: App) -> App {
    App {
        options: AppOptions {
            default_sort_field: a.sort_field,
            default_sort_direction: a.sort_direction,
            default_min_downloads: a.filter_min_downloads,
            default_min_likes: a.filter_min_likes,
            ..a.options
        },
        ..a
    }
}

/// A normal-mode command does not overflow or index out of range.
pub open spec fn command_safe(a: App, cmd: Command) -> bool {
    match cmd {
        Command::CycleFilterField => a.focused_filter_field < usize::MAX,
        Command::Enter => a.focused_pane == FocusedPane::QuantizationGroups ==> group_details_ok(a),
        _ => true,
    }
}

/// A normal-mode key does not overflow or index out of range.
pub open spec fn normal_key_safe(a: App, key: KeyInput) -> bool {
    command_safe(a, normal_command_of(key, a.focused_pane))
}

/// How a key in normal mode changes the interface from `a` to `b` and what
/// it leaves to the caller (`r`).
pub open spec fn normal_outcome(a: App, key: KeyInput, b: App, r: Effect) -> bool {
    command_outcome(a, normal_command_of(key, a.focused_pane), b, r)
}

/// How a normal-mode command changes the interface from `a` to `b` and
/// what it leaves to the caller (`r`).
pub open spec fn command_outcome(a: App, cmd: Command, b: App, r: Effect) -> bool {
    match cmd {
        Command::Quit => r == Effect::Idle && b == App { running: false, ..a },
        Command::OpenSearch => {
            &&& r == Effect::Idle
            &&& b.input@.len() == 0
            &&& b.status@ == "Search Models"@
            &&& (b == App { popup_mode: PopupMode::SearchPopup, input: b.input, status: b.status, ..a })
        },
        Command::Download => {
            &&& r == Effect::Idle
            &&& if a.focused_pane == FocusedPane::Models || a.focused_pane == FocusedPane::QuantizationGroups
                || a.focused_pane == FocusedPane::QuantizationFiles {
                match download_prompt(a) {
                    Some(t) => path_popup_opened(a, b, t),
                    None => b == a,
                }
            } else {
                b == a
            }
        },
        Command::Verify => {
            &&& b == a
            &&& r == if a.focused_pane == FocusedPane::QuantizationGroups || a.focused_pane
                == FocusedPane::QuantizationFiles {
                Effect::VerifySelected
            } else {
                Effect::Idle
            }
        },
        Command::OpenOptions => r == Effect::Idle && b == App { popup_mode: PopupMode::Options, ..a },
        Command::SaveFilters => r == Effect::SaveFilterSettings && b == filters_saved(a),
        Command::CycleSort => {
            &&& r == Effect::Idle
            &&& research_with(
                App { sort_field: next_sort_field(a.sort_field), ..a },
                b,
                "Sort by: "@ + sort_field_name(next_sort_field(a.sort_field)),
            )
        },
        Command::FlipDirection => {
            &&& r == Effect::Idle
            &&& research_with(
                App { sort_direction: flipped(a.sort_direction), ..a },
                b,
                "Sort direction: "@ + sort_direction_name(flipped(a.sort_direction)),
            )
        },
        Command::CycleFilterField => {
            let f = ((a.focused_filter_field + 1) % 3) as usize;
            &&& r == Effect::Idle
            &&& b.status@ == "Focused filter: "@ + filter_field_name(f as nat)
            &&& (b == App { focused_filter_field: f, status: b.status, ..a })
        },
        Command::RaiseFilter => r == Effect::Idle && research(filter_modified(a, 1i32), b),
        Command::LowerFilter => r == Effect::Idle && research(filter_modified(a, -1i32), b),
        Command::ResetFilters => r == Effect::Idle && research_with(filters_reset(a), b, "Filters reset to defaults"@),
        Command::Preset(p) => {
            &&& r == Effect::Idle
            &&& if with_preset(a, p) != a {
                research(with_preset(a, p), b)
            } else {
                status_shown(a, b, Some("Already using "@ + preset_name(p) + " preset"@))
            }
        },
        Command::ToggleFocus => r == Effect::Idle && b == focus_toggled(a),
        Command::Left => r == Effect::Idle && b == if a.focused_pane == FocusedPane::QuantizationFiles {
            subfocus_toggled(a)
        } else {
            a
        },
        Command::Right => r == Effect::Idle && b == if a.focused_pane == FocusedPane::QuantizationGroups {
            subfocus_toggled(a)
        } else {
            a
        },
        Command::Down => {
            &&& r == Effect::Idle
            &&& match a.focused_pane {
                FocusedPane::Models => details_cleared(
                    App { list_state: next_index(a.list_state, a.models@.len()), needs_load_quantizations: true, ..a },
                    b,
                ),
                FocusedPane::ModelMetadata => b == a,
                _ => b == scrolled(a, false),
            }
        },
        Command::Up => {
            &&& r == Effect::Idle
            &&& match a.focused_pane {
                FocusedPane::Models => details_cleared(
                    App { list_state: prev_index(a.list_state, a.models@.len()), needs_load_quantizations: true, ..a },
                    b,
                ),
                FocusedPane::ModelMetadata => b == a,
                _ => b == scrolled(a, true),
            }
        },
        Command::Enter => {
            &&& r == Effect::Idle
            &&& match a.focused_pane {
                FocusedPane::Models => {
                    &&& match model_details_text(a) {
                        Some(t) => b.selection_info@ == t,
                        None => b.selection_info == a.selection_info,
                    }
                    &&& b == focus_toggled(App { selection_info: b.selection_info, ..a })
                },
                FocusedPane::QuantizationGroups => status_shown(a, b, quant_details_text(a)),
                FocusedPane::QuantizationFiles => status_shown(a, b, file_details_text(a)),
                FocusedPane::ModelMetadata => b == a,
                FocusedPane::FileTree => tree_toggled(a, b),
            }
        },
        Command::Ignored => r == Effect::Idle && b == a,
    }
}

impl App {
    fn research_showing(&mut self, status: String)
        ensures
            research_with(*old(self), *final(self), status@),
    {
        self.restart_search();
        self.status = status;
    }

    /// The sort and filter commands.
    fn run_filter_command(&mut self, cmd: Command) -> (r: Effect)
        requires
            cmd is SaveFilters || cmd is CycleSort || cmd is FlipDirection || cmd is CycleFilterField || cmd is RaiseFilter || cmd is LowerFilter || cmd is ResetFilters || cmd is Preset,
            command_safe(*old(self), cmd),
        ensures
            command_outcome(*old(self), cmd, *final(self), r),
    {
        match cmd {
            Command::SaveFilters => {
                self.save_filter_settings();
                return Effect::SaveFilterSettings;
            },
            Command::CycleSort => {
                self.sort_field = next_sort(self.sort_field);
                let mut m = String::from_str("Sort by: ");
                m.append(sort_field_label(self.sort_field));
                self.research_showing(m);
            },
            Command::FlipDirection => {
                self.sort_direction = flip(self.sort_direction);
                let mut m = String::from_str("Sort direction: ");
                m.append(sort_direction_label(self.sort_direction));
                self.research_showing(m);
            },
            Command::CycleFilterField => {
                self.focused_filter_field = (self.focused_filter_field + 1) % 3;
                let name = if self.focused_filter_field == 0 {
                    "Sort"
                } else if self.focused_filter_field == 1 {
                    "Min Downloads"
                } else {
                    "Min Likes"
                };
                let mut m = String::from_str("Focused filter: ");
                m.append(name);
                self.status = m;
            },
            Command::RaiseFilter => {
                self.modify_focused_filter(1);
            },
            Command::LowerFilter => {
                self.modify_focused_filter(-1);
            },
            Command::ResetFilters => {
                self.sort_field = SortField::Downloads;
                self.sort_direction = SortDirection::Descending;
                self.filter_min_downloads = 0;
                self.filter_min_likes = 0;
                self.focused_filter_field = 0;
                self.research_showing(String::from_str("Filters reset to defaults"));
            },
            Command::Preset(p) => {
                if self.would_change_settings(p) {
                    self.apply_filter_preset(p);
                } else {
                    let name = match p {
                        FilterPreset::NoFilters => "No Filters",
                        FilterPreset::Popular => "Popular",
                        FilterPreset::HighlyRated => "Highly Rated",
                        FilterPreset::Recent => "Recent",
                    };
                    let mut m = String::from_str("Already using ");
                    m.append(name);
                    m.append(" preset");
                    self.status = m;
                }
            },
            _ => {},
        }
        Effect::Idle
    }

    /// Focus moves, list moves and Enter.
    fn run_list_command(&mut self, cmd: Command) -> (r: Effect)
        requires
            cmd is ToggleFocus || cmd is Left || cmd is Right || cmd is Down || cmd is Up || cmd is Enter,
            command_safe(*old(self), cmd),
        ensures
            command_outcome(*old(self), cmd, *final(self), r),
    {
        match cmd {
            Command::ToggleFocus => {
                self.toggle_focus();
            },
            Command::Left => {
                if self.focused_pane == FocusedPane::QuantizationFiles {
                    self.toggle_quant_subfocus();
                }
            },
            Command::Right => {
                if self.focused_pane == FocusedPane::QuantizationGroups {
                    self.toggle_quant_subfocus();
                }
            },
            Command::Down => match self.focused_pane {
                FocusedPane::Models => {
                    self.next();
                    self.needs_load_quantizations = true;
                    self.clear_model_details();
                },
                FocusedPane::QuantizationGroups => {
                    self.next_quant();
                },
                FocusedPane::QuantizationFiles => {
                    self.next_file();
                },
                FocusedPane::ModelMetadata => {},
                FocusedPane::FileTree => {
                    self.next_file_tree_item();
                },
            },
            Command::Up => match self.focused_pane {
                FocusedPane::Models => {
                    self.previous();
                    self.needs_load_quantizations = true;
                    self.clear_model_details();
                },
                FocusedPane::QuantizationGroups => {
                    self.previous_quant();
                },
                FocusedPane::QuantizationFiles => {
                    self.previous_file();
                },
                FocusedPane::ModelMetadata => {},
                FocusedPane::FileTree => {
                    self.previous_file_tree_item();
                },
            },
            Command::Enter => match self.focused_pane {
                FocusedPane::Models => {
                    self.show_model_details();
                    self.toggle_focus();
                },
                FocusedPane::QuantizationGroups => {
                    self.show_quantization_details();
                },
                FocusedPane::QuantizationFiles => {
                    self.show_file_details();
                },
                FocusedPane::ModelMetadata => {},
                FocusedPane::FileTree => {
                    self.toggle_file_tree_expansion();
                },
            },
            _ => {},
        }
        Effect::Idle
    }

    /// Quitting, the popups, downloads and verification.
    fn run_other_command(&mut self, cmd: Command) -> (r: Effect)
        requires
            cmd is Quit || cmd is OpenSearch || cmd is Download || cmd is Verify || cmd is OpenOptions || cmd is Ignored,
            command_safe(*old(self), cmd),
        ensures
            command_outcome(*old(self), cmd, *final(self), r),
    {
        match cmd {
            Command::Quit => {
                self.quit();
            },
            Command::OpenSearch => {
                self.popup_mode = PopupMode::SearchPopup;
                self.input = String::new();
                self.status = String::from_str("Search Models");
            },
            Command::Download => {
                if self.focused_pane == FocusedPane::Models || self.focused_pane == FocusedPane::QuantizationGroups
                    || self.focused_pane == FocusedPane::QuantizationFiles {
                    self.trigger_download();
                }
            },
            Command::Verify => {
                if self.focused_pane == FocusedPane::QuantizationGroups || self.focused_pane
                    == FocusedPane::QuantizationFiles {
                    return Effect::VerifySelected;
                }
            },
            Command::OpenOptions => {
                self.popup_mode = PopupMode::Options;
            },
            Command::Ignored => {},
        
            _ => {},
        }
        Effect::Idle
    }

    /// Carries out a normal-mode command.
    pub fn run_command(&mut self, cmd: Command) -> (r: Effect)
        requires
            command_safe(*old(self), cmd),
        ensures
            command_outcome(*old(self), cmd, *final(self), r),
    {
        match cmd {
            Command::SaveFilters | Command::CycleSort | Command::FlipDirection | Command::CycleFilterField
            | Command::RaiseFilter | Command::LowerFilter | Command::ResetFilters | Command::Preset(_) => {
                self.run_filter_command(cmd)
            },
            Command::ToggleFocus | Command::Left | Command::Right | Command::Down | Command::Up | Command::Enter => {
                self.run_list_command(cmd)
            },
            _ => self.run_other_command(cmd),
        }
    }

    /// A key in normal mode (no popup open, not editing).
    pub fn handle_normal_mode_input(&mut self, key: KeyInput) -> (r: Effect)
        requires
            normal_key_safe(*old(self), key),
        ensures
            normal_outcome(*old(self), key, *final(self), r),
    {
        let cmd = normal_command(key, self.focused_pane);
        self.run_command(cmd)
    }
}

// ---------------------------------------------------------------------------
// Popups and the key dispatcher
// ---------------------------------------------------------------------------

/// The edit of the search field that a key asks for in the search popup.
pub open spec fn search_edit(c: KeyCode) -> Option<InputRequest> {
    match c {
        KeyCode::Char(ch) => Some(InputRequest::InsertChar(ch)),
        KeyCode::Backspace => Some(InputRequest::DeletePrevChar),
        KeyCode::Delete => Some(InputRequest::DeleteNextChar),
        KeyCode::Left => Some(InputRequest::GoToPrevChar),
        KeyCode::Right => Some(InputRequest::GoToNextChar),
        KeyCode::Home => Some(InputRequest::GoToStart),
        KeyCode::End => Some(InputRequest::GoToEnd),
        _ => None,
    }
}

/// A key in the search popup: Enter searches, Esc closes, other keys
/// edit the query.
pub open spec fn search_popup_outcome(a: App, key: KeyInput, b: App, r: Effect) -> bool {
    match key.code {
        KeyCode::Enter => r == Effect::Idle && research(
            App { input_mode: InputMode::Normal, popup_mode: PopupMode::Closed, ..a },
            b,
        ),
        KeyCode::Esc => r == Effect::Idle && b == App {
            input_mode: InputMode::Normal,
            popup_mode: PopupMode::Closed,
            ..a
        },
        _ => b == a && r == match search_edit(key.code) {
            Some(e) => Effect::Edit(TextField::Search, e),
            None => Effect::Idle,
        },
    }
}

pub open spec fn help_line() -> Seq<char> {
    "Press '/' to search, Tab to switch lists, 'd' to download, 'v' to verify, 'o' for options, 'q' to quit"@
}

/// A key while editing the query in place.
pub open spec fn editing_outcome(a: App, key: KeyInput, b: App, r: Effect) -> bool {
    match key.code {
        KeyCode::Enter => r == Effect::Idle && research(App { input_mode: InputMode::Normal, ..a }, b),
        KeyCode::Esc => {
            &&& r == Effect::Idle
            &&& b.status@ == help_line()
            &&& (b == App { input_mode: InputMode::Normal, status: b.status, ..a })
        },
        _ => b == a && r == Effect::ForwardKey(TextField::Search, key),
    }
}

pub open spec fn opt_text(o: Option<String>) -> Seq<char> {
    match o {
        Some(t) => t@,
        None => Seq::<char>::empty(),
    }
}

/// Index of the last option field.
pub open spec fn last_option_field() -> nat {
    13
}

/// A key in the options popup never overflows an option.
pub open spec fn options_key_safe(a: App, key: KeyInput) -> bool {
    if a.options.editing_token || a.options.editing_directory {
        true
    } else if key.code == KeyCode::Char('+') || key.code == KeyCode::Right {
        option_step_fits(a.options, 1i32)
    } else if key.code == KeyCode::Char('-') || key.code == KeyCode::Left {
        option_step_fits(a.options, -1i32)
    } else {
        true
    }
}

/// A key in the options popup: while the token or the directory is edited
/// Enter keeps the edit (an empty token is none) and Esc drops it; else
/// the arrows move between the fields and change their values, Enter
/// starts editing the directory or the token, Esc closes.  A kept edit or
/// a changed value asks for the options to be written.
pub open spec fn options_outcome(a: App, key: KeyInput, b: App, r: Effect) -> bool {
    if a.options.editing_token {
        match key.code {
            KeyCode::Enter => {
                &&& r == Effect::SaveConfig
                &&& if a.options_token_input@.len() == 0 {
                    b.options.hf_token is None
                } else {
                    b.options.hf_token is Some && b.options.hf_token->0@ == a.options_token_input@
                }
                &&& (b == App { options: AppOptions { hf_token: b.options.hf_token, editing_token: false, ..a.options }, ..a })
            },
            KeyCode::Esc => r == Effect::Idle && b == App { options: AppOptions { editing_token: false, ..a.options }, ..a },
            _ => b == a && r == Effect::ForwardKey(TextField::OptionsToken, key),
        }
    } else if a.options.editing_directory {
        match key.code {
            KeyCode::Enter => {
                &&& r == Effect::SaveConfig
                &&& b.options.default_directory@ == a.options_directory_input@
                &&& (b == App {
                    options: AppOptions {
                        default_directory: b.options.default_directory,
                        editing_directory: false,
                        ..a.options
                    },
                    ..a
                })
            },
            KeyCode::Esc => r == Effect::Idle && b == App {
                options: AppOptions { editing_directory: false, ..a.options },
                ..a
            },
            _ => b == a && r == Effect::ForwardKey(TextField::OptionsDirectory, key),
        }
    } else {
        let sf = a.options.selected_field;
        if key.code == KeyCode::Esc {
            r == Effect::Idle && b == App { popup_mode: PopupMode::Closed, ..a }
        } else if key.code == KeyCode::Up || key.code == KeyCode::Char('k') {
            r == Effect::Idle && b == App {
                options: AppOptions { selected_field: if sf > 0 { (sf - 1) as usize } else { sf }, ..a.options },
                ..a
            }
        } else if key.code == KeyCode::Down || key.code == KeyCode::Char('j') {
            r == Effect::Idle && b == App {
                options: AppOptions { selected_field: if sf < last_option_field() { (sf + 1) as usize } else { sf }, ..a.options },
                ..a
            }
        } else if key.code == KeyCode::Char('+') || key.code == KeyCode::Right {
            r == Effect::SaveConfig && b == App { options: option_stepped(a.options, 1i32), ..a }
        } else if key.code == KeyCode::Char('-') || key.code == KeyCode::Left {
            r == Effect::SaveConfig && b == App { options: option_stepped(a.options, -1i32), ..a }
        } else if key.code == KeyCode::Enter && sf == 0 {
            &&& r == Effect::Idle
            &&& b.options_directory_input@ == a.options.default_directory@
            &&& (b == App {
                options: AppOptions { editing_directory: true, ..a.options },
                options_directory_input: b.options_directory_input,
                ..a
            })
        } else if key.code == KeyCode::Enter && sf == 1 {
            &&& r == Effect::Idle
            &&& b.options_token_input@ == opt_text(a.options.hf_token)
            &&& (b == App {
                options: AppOptions { editing_token: true, ..a.options },
                options_token_input: b.options_token_input,
                ..a
            })
        } else {
            r == Effect::Idle && b == a
        }
    }
}

/// A key in the resume popup: `y` resumes, `n` or Esc skips (forgetting
/// the list), `d` deletes the unfinished files.
pub open spec fn resume_outcome(a: App, key: KeyInput, b: App, r: Effect) -> bool {
    let c = key.code;
    if c == KeyCode::Char('y') || c == KeyCode::Char('Y') {
        r == Effect::ResumeIncomplete && b == App { popup_mode: PopupMode::Closed, ..a }
    } else if c == KeyCode::Char('n') || c == KeyCode::Char('N') || c == KeyCode::Esc {
        &&& r == Effect::Idle
        &&& b.incomplete_downloads@.len() == 0
        &&& b.status@ == "Skipped incomplete downloads"@
        &&& (b == App {
            popup_mode: PopupMode::Closed,
            incomplete_downloads: b.incomplete_downloads,
            status: b.status,
            ..a
        })
    } else if c == KeyCode::Char('d') || c == KeyCode::Char('D') {
        r == Effect::DeleteIncomplete && b == App { popup_mode: PopupMode::Closed, ..a }
    } else {
        r == Effect::Idle && b == a
    }
}

/// A key in the download-path popup: Enter queues the download, Esc
/// cancels, other keys edit the path.
pub open spec fn path_popup_outcome(a: App, key: KeyInput, b: App, r: Effect) -> bool {
    match key.code {
        KeyCode::Enter => r == Effect::ConfirmDownload && b == App { popup_mode: PopupMode::Closed, ..a },
        KeyCode::Esc => {
            &&& r == Effect::Idle
            &&& b.status@ == "Download cancelled"@
            &&& (b == App { popup_mode: PopupMode::Closed, status: b.status, ..a })
        },
        _ => b == a && r == Effect::ForwardKey(TextField::DownloadPath, key),
    }
}

/// A key in the authentication popup: Esc or Enter closes it, `o` opens
/// the options instead.
pub open spec fn auth_popup_outcome(a: App, key: KeyInput, b: App, r: Effect) -> bool {
    &&& r == Effect::Idle
    &&& if key.code == KeyCode::Esc || key.code == KeyCode::Enter {
        b == App { popup_mode: PopupMode::Closed, ..a }
    } else if key.code == KeyCode::Char('o') {
        b == App { popup_mode: PopupMode::Options, ..a }
    } else {
        b == a
    }
}

/// A key never overflows or indexes out of range in the handler it
/// reaches.
pub open spec fn key_safe(a: App, key: KeyInput) -> bool {
    match a.popup_mode {
        PopupMode::Options => options_key_safe(a, key),
        PopupMode::SearchPopup | PopupMode::ResumeDownload | PopupMode::DownloadPath | PopupMode::AuthError { .. } => true,
        _ => match a.input_mode {
            InputMode::Normal => normal_key_safe(a, key),
            InputMode::Editing => true,
        },
    }
}

/// What a key does: the open popup takes it, else the input mode decides.
pub open spec fn key_outcome(a: App, key: KeyInput, b: App, r: Effect) -> bool {
    match a.popup_mode {
        PopupMode::SearchPopup => search_popup_outcome(a, key, b, r),
        PopupMode::Options => options_outcome(a, key, b, r),
        PopupMode::ResumeDownload => resume_outcome(a, key, b, r),
        PopupMode::DownloadPath => path_popup_outcome(a, key, b, r),
        PopupMode::AuthError { .. } => auth_popup_outcome(a, key, b, r),
        _ => match a.input_mode {
            InputMode::Normal => normal_outcome(a, key, b, r),
            InputMode::Editing => editing_outcome(a, key, b, r),
        },
    }
}

impl App {
    /// A key in the search popup.
    pub fn handle_search_popup_input(&mut self, key: KeyInput) -> (r: Effect)
        ensures
            search_popup_outcome(*old(self), key, *final(self), r),
    {
        match key.code {
            KeyCode::Enter => {
                self.input_mode = InputMode::Normal;
                self.popup_mode = PopupMode::Closed;
                self.restart_search();
                Effect::Idle
            },
            KeyCode::Esc => {
                self.popup_mode = PopupMode::Closed;
                self.input_mode = InputMode::Normal;
                Effect::Idle
            },
            KeyCode::Char(c) => Effect::Edit(TextField::Search, InputRequest::InsertChar(c)),
            KeyCode::Backspace => Effect::Edit(TextField::Search, InputRequest::DeletePrevChar),
            KeyCode::Delete => Effect::Edit(TextField::Search, InputRequest::DeleteNextChar),
            KeyCode::Left => Effect::Edit(TextField::Search, InputRequest::GoToPrevChar),
            KeyCode::Right => Effect::Edit(TextField::Search, InputRequest::GoToNextChar),
            KeyCode::Home => Effect::Edit(TextField::Search, InputRequest::GoToStart),
            KeyCode::End => Effect::Edit(TextField::Search, InputRequest::GoToEnd),
            _ => Effect::Idle,
        }
    }

    /// A key while editing the query in place.
    pub fn handle_editing_mode_input(&mut self, key: KeyInput) -> (r: Effect)
        ensures
            editing_outcome(*old(self), key, *final(self), r),
    {
        match key.code {
            KeyCode::Enter => {
                self.input_mode = InputMode::Normal;
                self.restart_search();
                Effect::Idle
            },
            KeyCode::Esc => {
                self.input_mode = InputMode::Normal;
                self.status = String::from_str(
                    "Press '/' to search, Tab to switch lists, 'd' to download, 'v' to verify, 'o' for options, 'q' to quit",
                );
                Effect::Idle
            },
            _ => Effect::ForwardKey(TextField::Search, key),
        }
    }

    /// A key in the options popup.
    pub fn handle_options_popup_input(&mut self, key: KeyInput) -> (r: Effect)
        requires
            options_key_safe(*old(self), key),
        ensures
            options_outcome(*old(self), key, *final(self), r),
    {
        if self.options.editing_token {
            match key.code {
                KeyCode::Enter => {
                    let value = self.options_token_input.clone();
                    self.options.hf_token = if value.as_str().is_empty() {
                        None
                    } else {
                        Some(value)
                    };
                    self.options.editing_token = false;
                    Effect::SaveConfig
                },
                KeyCode::Esc => {
                    self.options.editing_token = false;
                    Effect::Idle
                },
                _ => Effect::ForwardKey(TextField::OptionsToken, key),
            }
        } else if self.options.editing_directory {
            match key.code {
                KeyCode::Enter => {
                    self.options.default_directory = self.options_directory_input.clone();
                    self.options.editing_directory = false;
                    Effect::SaveConfig
                },
                KeyCode::Esc => {
                    self.options.editing_directory = false;
                    Effect::Idle
                },
                _ => Effect::ForwardKey(TextField::OptionsDirectory, key),
            }
        } else {
            let c = key.code;
            if c == KeyCode::Esc {
                self.popup_mode = PopupMode::Closed;
                Effect::Idle
            } else if c == KeyCode::Up || c == KeyCode::Char('k') {
                if self.options.selected_field > 0 {
                    self.options.selected_field = self.options.selected_field - 1;
                }
                Effect::Idle
            } else if c == KeyCode::Down || c == KeyCode::Char('j') {
                if self.options.selected_field < 13 {
                    self.options.selected_field = self.options.selected_field + 1;
                }
                Effect::Idle
            } else if c == KeyCode::Char('+') || c == KeyCode::Right {
                self.modify_option(1);
                Effect::SaveConfig
            } else if c == KeyCode::Char('-') || c == KeyCode::Left {
                self.modify_option(-1);
                Effect::SaveConfig
            } else if c == KeyCode::Enter && self.options.selected_field == 0 {
                self.options.editing_directory = true;
                self.options_directory_input = self.options.default_directory.clone();
                Effect::Idle
            } else if c == KeyCode::Enter && self.options.selected_field == 1 {
                self.options.editing_token = true;
                self.options_token_input = match &self.options.hf_token {
                    Some(t) => t.clone(),
                    None => String::new(),
                };
                Effect::Idle
            } else {
                Effect::Idle
            }
        }
    }

    /// A key in the resume popup.
    pub fn handle_resume_popup_input(&mut self, key: KeyInput) -> (r: Effect)
        ensures
            resume_outcome(*old(self), key, *final(self), r),
    {
        let c = key.code;
        if c == KeyCode::Char('y') || c == KeyCode::Char('Y') {
            self.popup_mode = PopupMode::Closed;
            Effect::ResumeIncomplete
        } else if c == KeyCode::Char('n') || c == KeyCode::Char('N') || c == KeyCode::Esc {
            self.popup_mode = PopupMode::Closed;
            self.incomplete_downloads = Vec::new();
            self.status = String::from_str("Skipped incomplete downloads");
            Effect::Idle
        } else if c == KeyCode::Char('d') || c == KeyCode::Char('D') {
            self.popup_mode = PopupMode::Closed;
            Effect::DeleteIncomplete
        } else {
            Effect::Idle
        }
    }

    /// A key in the download-path popup.
    pub fn handle_download_path_popup_input(&mut self, key: KeyInput) -> (r: Effect)
        ensures
            path_popup_outcome(*old(self), key, *final(self), r),
    {
        match key.code {
            KeyCode::Enter => {
                self.popup_mode = PopupMode::Closed;
                Effect::ConfirmDownload
            },
            KeyCode::Esc => {
                self.popup_mode = PopupMode::Closed;
                self.status = String::from_str("Download cancelled");
                Effect::Idle
            },
            _ => Effect::ForwardKey(TextField::DownloadPath, key),
        }
    }

    /// A key in the authentication popup.
    pub fn handle_auth_error_popup_input(&mut self, key: KeyInput) -> (r: Effect)
        ensures
            auth_popup_outcome(*old(self), key, *final(self), r),
    {
        if key.code == KeyCode::Esc || key.code == KeyCode::Enter {
            self.popup_mode = PopupMode::Closed;
        } else if key.code == KeyCode::Char('o') {
            self.popup_mode = PopupMode::Options;
        }
        Effect::Idle
    }

    /// A key press: clears the error line, then the open popup or the
    /// input mode handles the key.
    pub fn on_key_event(&mut self, key: KeyInput) -> (r: Effect)
        requires
            key_safe(App { error: None, ..*old(self) }, key),
        ensures
            key_outcome(App { error: None, ..*old(self) }, key, *final(self), r),
    {
        self.error = None;
        match self.popup_mode {
            PopupMode::SearchPopup => self.handle_search_popup_input(key),
            PopupMode::Options => self.handle_options_popup_input(key),
            PopupMode::ResumeDownload => self.handle_resume_popup_input(key),
            PopupMode::DownloadPath => self.handle_download_path_popup_input(key),
            PopupMode::AuthError { .. } => self.handle_auth_error_popup_input(key),
            _ => match self.input_mode {
                InputMode::Normal => self.handle_normal_mode_input(key),
                InputMode::Editing => self.handle_editing_mode_input(key),
            },
        }
    }
}

// ---------------------------------------------------------------------------
// Searching
// ---------------------------------------------------------------------------

/// The first result whose ID equals the query up to case, when the query
/// looks like a repository ID (it holds a `/`).
pub open spec fn exact_match_from(query: Seq<char>, results: Seq<ModelInfo>, i: nat) -> Option<nat>
    decreases results.len() - i,
{
    if i >= results.len() {
        None
    } else if unicode_lower(results[i as int].id@) == unicode_lower(query) {
        Some(i)
    } else {
        exact_match_from(query, results, i + 1)
    }
}

pub open spec fn exact_match(query: Seq<char>, results: Seq<ModelInfo>) -> Option<nat> {
    if query.contains('/') {
        exact_match_from(query, results, 0)
    } else {
        None
    }
}

/// What a search shows: the exact match alone when there is one, else
/// every result.
pub open spec fn shown_results(query: Seq<char>, results: Seq<ModelInfo>) -> Seq<ModelInfo> {
    match exact_match(query, results) {
        Some(i) => seq![results[i as int]],
        None => results,
    }
}

/// The note after the result count.
pub open spec fn search_note(filtered: bool, exact: bool, cached: bool) -> Seq<char> {
    if filtered {
        if cached {
            " (cached, filtered from 100)"@
        } else {
            " (filtered from 100)"@
        }
    } else if exact {
        if cached {
            " (cached, exact match)"@
        } else {
            " (exact match)"@
        }
    } else if cached {
        " (cached)"@
    } else {
        ""@
    }
}

impl App {
    /// Starts the search for the current query: nothing happens for an
    /// empty query; otherwise the interface shows it is loading and the
    /// parameters of the request come back.
    pub fn begin_search(&mut self) -> (r: Option<SearchKey>)
        ensures
            old(self).input@.len() == 0 ==> r is None && *final(self) == *old(self),
            old(self).input@.len() > 0 ==> {
                &&& r matches Some(k) && k.query@ == old(self).input@ && k.sort_field == old(self).sort_field
                    && k.sort_direction == old(self).sort_direction && k.min_downloads
                    == old(self).filter_min_downloads && k.min_likes == old(self).filter_min_likes
                &&& (*final(self) == App { loading: true, error: None, ..*old(self) })
            },
    {
        if self.input.as_str().is_empty() {
            return None;
        }
        self.loading = true;
        self.error = None;
        Some(
            SearchKey {
                query: self.input.clone(),
                sort_field: self.sort_field,
                sort_direction: self.sort_direction,
                min_downloads: self.filter_min_downloads,
                min_likes: self.filter_min_likes,
            },
        )
    }

    /// Shows the results of a search for `query` (`cached` when they came
    /// from the cache): a query in the `author/name` form that matches a
    /// result exactly (up to case) shows that result alone; the first row
    /// is selected, the count goes to the status line and the details of
    /// the first model load next.
    pub fn apply_search_results(&mut self, query: &str, results: Vec<ModelInfo>, cached: bool)
        ensures
            final(self).models@ == shown_results(query@, results@),
            final(self).status@ == "Found "@ + decimal(shown_results(query@, results@).len()) + " models"@
                + search_note(
                old(self).filter_min_downloads > 0 || old(self).filter_min_likes > 0,
                exact_match(query@, results@) is Some,
                cached,
            ),
            (*final(self) == App {
                models: final(self).models,
                loading: false,
                list_state: Some(0usize),
                status: final(self).status,
                needs_load_quantizations: if shown_results(query@, results@).len() > 0 {
                    true
                } else {
                    old(self).needs_load_quantizations
                },
                ..*old(self)
            }),
    {
        let mut results = results;
        let ghost all = results@;
        let mut exact: Option<usize> = None;
        let has_slash = str_contains(query, "/");
        proof {
            reveal_strlit("/");
            if query@.contains('/') {
                let k = choose|k: int| 0 <= k < query@.len() && query@[k] == '/';
                assert(query@.subrange(k, k + 1) =~= "/"@);
                assert(occurs_at(query@, "/"@, k));
            }
            if has_slash {
                let k = choose|k: int| occurs_at(query@, "/"@, k);
                assert(query@.subrange(k, k + 1)[0] == query@[k]);
            }
        }
        if has_slash {
            let wanted = str_to_lowercase(query);
            let mut i: usize = 0;
            while i < results.len() && exact.is_none()
                invariant
                    results@ == all,
                    wanted@ == unicode_lower(query@),
                    i <= results@.len(),
                    exact is None ==> exact_match_from(query@, all, 0) == exact_match_from(query@, all, i as nat),
                    exact matches Some(j) ==> j < all.len() && exact_match_from(query@, all, 0) == Some(j as nat),
                decreases results@.len() - i,
            {
                let id = str_to_lowercase(results[i].id.as_str());
                if str_eq(id.as_str(), wanted.as_str()) {
                    exact = Some(i);
                }
                i += 1;
            }
        }
        let shown: Vec<ModelInfo> = match exact {
            Some(i) => {
                let m = results.remove(i);
                let mut v: Vec<ModelInfo> = Vec::new();
                v.push(m);
                proof {
                    assert(v@ =~= seq![all[i as int]]);
                }
                v
            },
            None => results,
        };
        let n = shown.len();
        self.models = shown;
        self.loading = false;
        self.list_state = Some(0);
        let filtered = self.filter_min_downloads > 0 || self.filter_min_likes > 0;
        let note = if filtered {
            if cached {
                " (cached, filtered from 100)"
            } else {
                " (filtered from 100)"
            }
        } else if exact.is_some() {
            if cached {
                " (cached, exact match)"
            } else {
                " (exact match)"
            }
        } else if cached {
            " (cached)"
        } else {
            ""
        };
        let mut m = String::from_str("Found ");
        let digits = decimal_string(n as u64);
        m.append(digits.as_str());
        m.append(" models");
        m.append(note);
        self.status = m;
        if n > 0 {
            self.needs_load_quantizations = true;
        }
    }

    /// A failed search.
    pub fn search_failed(&mut self, reason: &str)
        ensures
            final(self).error matches Some(e) && e@ == "Failed to fetch models: "@ + reason@,
            final(self).status@ == "Search failed"@,
            (*final(self) == App { loading: false, error: final(self).error, status: final(self).status, ..*old(self) }),
    {
        self.loading = false;
        let mut e = String::from_str("Failed to fetch models: ");
        e.append(reason);
        self.error = Some(e);
        self.status = String::from_str("Search failed");
    }
}

// ---------------------------------------------------------------------------
// Queueing downloads
// ---------------------------------------------------------------------------

/// The files that confirming the path popup downloads: with a model and a
/// group selected (in range), the selected file when the file list has the
/// focus (none when no file in range is selected), else the whole group.
pub open spec fn selection_of(a: App) -> Option<Seq<QuantizationInfo>> {
    match (a.list_state, a.quant_list_state) {
        (Some(m), Some(g)) => if m < a.models@.len() && g < a.quantizations@.len() {
            let files = a.quantizations@[g as int].files@;
            if a.focused_pane == FocusedPane::QuantizationFiles {
                match a.quant_file_list_state {
                    Some(f) => if f < files.len() {
                        Some(seq![files[f as int]])
                    } else {
                        Some(Seq::<QuantizationInfo>::empty())
                    },
                    None => Some(Seq::<QuantizationInfo>::empty()),
                }
            } else {
                Some(files)
            }
        } else {
            None
        },
        _ => None,
    }
}

/// A repository file that a whole-repository download fetches: it has a
/// size and its path does not end with `/`.
pub open spec fn downloadable(f: RepoFile) -> bool {
    f.size is Some && !has_suffix(f.rfilename@, "/"@)
}

/// The indices of the downloadable files, in listing order.
pub open spec fn downloadable_indices(files: Seq<RepoFile>) -> Seq<usize>
    decreases files.len(),
{
    if files.len() == 0 {
        Seq::<usize>::empty()
    } else if downloadable(files.last()) {
        downloadable_indices(files.drop_last()).push((files.len() - 1) as usize)
    } else {
        downloadable_indices(files.drop_last())
    }
}

fn copy_quant_info(q: &QuantizationInfo) -> (r: QuantizationInfo)
    ensures
        r == *q,
{
    QuantizationInfo {
        quant_type: q.quant_type.clone(),
        filename: q.filename.clone(),
        size: q.size,
        sha256: match &q.sha256 {
            Some(h) => Some(h.clone()),
            None => None,
        },
    }
}

fn copy_quant_infos(v: &Vec<QuantizationInfo>) -> (r: Vec<QuantizationInfo>)
    ensures
        r@ == v@,
{
    let mut r: Vec<QuantizationInfo> = Vec::new();
    let mut i: usize = 0;
    while i < v.len()
        invariant
            i <= v@.len(),
            r@ == v@.take(i as int),
        decreases v.len() - i,
    {
        r.push(copy_quant_info(&v[i]));
        proof {
            assert(v@.take(i + 1) =~= v@.take(i as int).push(v@[i as int]));
        }
        i += 1;
    }
    assert(v@.take(v@.len() as int) =~= v@);
    r
}

/// The indices of the files that a whole-repository download fetches.
pub fn repository_files(metadata: &ModelMetadata) -> (r: Vec<usize>)
    ensures
        r@ == downloadable_indices(metadata.siblings@),
{
    let s = &metadata.siblings;
    let mut r: Vec<usize> = Vec::new();
    let mut i: usize = 0;
    while i < s.len()
        invariant
            i <= s@.len(),
            r@ == downloadable_indices(s@.take(i as int)),
        decreases s.len() - i,
    {
        proof {
            assert(s@.take(i + 1).drop_last() =~= s@.take(i as int));
            assert(s@.take(i + 1).last() == s@[i as int]);
        }
        if s[i].size.is_some() && !str_ends_with(s[i].rfilename.as_str(), "/") {
            r.push(i);
        }
        i += 1;
    }
    assert(s@.take(s@.len() as int) =~= s@);
    r
}

impl App {
    /// The files to queue when the path popup is confirmed.  Nothing is
    /// selected: `None`, nothing changes.  An empty selection: `None`, with
    /// the error shown.
    pub fn download_selection(&mut self) -> (r: Option<Vec<QuantizationInfo>>)
        ensures
            match selection_of(*old(self)) {
                Some(files) => if files.len() > 0 {
                    &&& r matches Some(v) && v@ == files
                    &&& *final(self) == *old(self)
                } else {
                    &&& r is None
                    &&& final(self).error matches Some(e) && e@ == "No files selected for download"@
                    &&& (*final(self) == App { error: final(self).error, ..*old(self) })
                },
                None => r is None && *final(self) == *old(self),
            },
    {
        let (m, g) = match (self.list_state, self.quant_list_state) {
            (Some(m), Some(g)) => (m, g),
            _ => return None,
        };
        if m >= self.models.len() || g >= self.quantizations.len() {
            return None;
        }
        let files: Vec<QuantizationInfo> = if self.focused_pane == FocusedPane::QuantizationFiles {
            let mut v: Vec<QuantizationInfo> = Vec::new();
            if let Some(f) = self.quant_file_list_state {
                if f < self.quantizations[g].files.len() {
                    v.push(copy_quant_info(&self.quantizations[g].files[f]));
                }
            }
            proof {
                let files = self.quantizations@[g as int].files@;
                match self.quant_file_list_state {
                    Some(f) => if f < files.len() {
                        assert(v@ =~= seq![files[f as int]]);
                    } else {
                        assert(v@ =~= Seq::<QuantizationInfo>::empty());
                    },
                    None => {
                        assert(v@ =~= Seq::<QuantizationInfo>::empty());
                    },
                }
            }
            v
        } else {
            copy_quant_infos(&self.quantizations[g].files)
        };
        if files.len() == 0 {
            self.error = Some(String::from_str("No files selected for download"));
            return None;
        }
        Some(files)
    }

    /// After the unfinished downloads were queued again: reports their
    /// number and forgets the list, which comes back.
    pub fn finish_resume(&mut self) -> (r: Vec<DownloadMetadata>)
        ensures
            r@ == old(self).incomplete_downloads@,
            final(self).incomplete_downloads@.len() == 0,
            final(self).status@ == "Resuming "@ + decimal(old(self).incomplete_downloads@.len()) + " incomplete download(s)"@,
            (*final(self) == App {
                incomplete_downloads: final(self).incomplete_downloads,
                status: final(self).status,
                ..*old(self)
            }),
    {
        let n = self.incomplete_downloads.len();
        let mut list: Vec<DownloadMetadata> = Vec::new();
        std::mem::swap(&mut list, &mut self.incomplete_downloads);
        let mut m = String::from_str("Resuming ");
        let digits = decimal_string(n as u64);
        m.append(digits.as_str());
        m.append(" incomplete download(s)");
        self.status = m;
        list
    }

    /// After the unfinished files were deleted: `deleted` removed, the
    /// failures described in `errors`.  Forgets the list.
    pub fn finish_delete(&mut self, deleted: usize, errors: &Vec<String>)
        ensures
            final(self).incomplete_downloads@.len() == 0,
            final(self).status@ == if errors@.len() == 0 {
                "Deleted "@ + decimal(deleted as nat) + " incomplete file(s)"@
            } else {
                "Deleted "@ + decimal(deleted as nat) + " file(s), "@ + decimal(errors@.len()) + " error(s): "@
                    + joined_with(errors@.map_values(|e: String| e@), ", "@)
            },
            (*final(self) == App {
                incomplete_downloads: final(self).incomplete_downloads,
                status: final(self).status,
                ..*old(self)
            }),
    {
        let mut m = String::from_str("Deleted ");
        let digits = decimal_string(deleted as u64);
        m.append(digits.as_str());
        if errors.len() == 0 {
            m.append(" incomplete file(s)");
        } else {
            m.append(" file(s), ");
            let k = decimal_string(errors.len() as u64);
            m.append(k.as_str());
            m.append(" error(s): ");
            let ghost start = m@;
            let mut i: usize = 0;
            while i < errors.len()
                invariant
                    i <= errors@.len(),
                    errors@.len() > 0,
                    m@ == start + joined_with(errors@.map_values(|e: String| e@).take(i as int), ", "@),
                decreases errors.len() - i,
            {
                proof {
                    let parts = errors@.map_values(|e: String| e@);
                    assert(parts.take(i + 1).drop_last() =~= parts.take(i as int));
                    assert(parts.take(i + 1).last() == errors@[i as int]@);
                    if i == 0 {
                        assert(parts.take(1) =~= seq![errors@[0]@]);
                        assert(parts.take(0) =~= Seq::<Seq<char>>::empty());
                    }
                }
                if i > 0 {
                    m.append(", ");
                }
                m.append(errors[i].as_str());
                i += 1;
            }
            proof {
                assert(errors@.map_values(|e: String| e@).take(errors@.len() as int) =~= errors@.map_values(
                    |e: String| e@,
                ));
            }
        }
        self.status = m;
        self.incomplete_downloads = Vec::new();
    }
}

// ---------------------------------------------------------------------------
// Loading the details of a model
// ---------------------------------------------------------------------------

/// GGUF repositories show their quantization groups; others their
/// metadata and file tree.
pub open spec fn mode_for(metadata: ModelMetadata) -> ModelDisplayMode {
    if has_gguf(metadata.siblings@) {
        ModelDisplayMode::Gguf
    } else {
        ModelDisplayMode::Standard
    }
}

/// How the details of a model are shown.
pub fn display_mode_for(metadata: &ModelMetadata) -> (r: ModelDisplayMode)
    ensures
        r == mode_for(*metadata),
{
    if has_gguf_files(metadata) {
        ModelDisplayMode::Gguf
    } else {
        ModelDisplayMode::Standard
    }
}

impl App {
    /// Starts loading the details of the selected model: its ID, when one
    /// in range is selected, with the details marked as loading.
    pub fn begin_load_details(&mut self) -> (r: Option<String>)
        ensures
            match old(self).list_state {
                Some(i) => if i < old(self).models@.len() {
                    &&& r matches Some(id) && id@ == old(self).models@[i as int].id@
                    &&& (*final(self) == App { loading_quants: true, ..*old(self) })
                } else {
                    r is None && *final(self) == *old(self)
                },
                None => r is None && *final(self) == *old(self),
            },
    {
        match self.list_state {
            Some(i) => if i < self.models.len() {
                let id = self.models[i].id.clone();
                self.loading_quants = true;
                Some(id)
            } else {
                None
            },
            None => None,
        }
    }

    /// Shows the quantization groups of a GGUF repository.
    pub fn show_quantizations(&mut self, groups: Vec<QuantizationGroup>)
        ensures
            (*final(self) == App {
                display_mode: ModelDisplayMode::Gguf,
                quantizations: groups,
                loading_quants: false,
                model_metadata: None,
                file_tree: None,
                ..*old(self)
            }),
    {
        self.display_mode = ModelDisplayMode::Gguf;
        self.quantizations = groups;
        self.loading_quants = false;
        self.model_metadata = None;
        self.file_tree = None;
    }

    /// Shows the metadata and the file tree of a repository without GGUF
    /// files.
    pub fn show_repository(&mut self, metadata: ModelMetadata, tree: FileTreeNode)
        ensures
            final(self).quantizations@.len() == 0,
            (*final(self) == App {
                display_mode: ModelDisplayMode::Standard,
                quantizations: final(self).quantizations,
                loading_quants: false,
                model_metadata: Some(metadata),
                file_tree: Some(tree),
                ..*old(self)
            }),
    {
        self.display_mode = ModelDisplayMode::Standard;
        self.quantizations = Vec::new();
        self.model_metadata = Some(metadata);
        self.file_tree = Some(tree);
        self.loading_quants = false;
    }

    /// The metadata could not be fetched: the error line says why and the
    /// details are cleared.
    pub fn details_failed(&mut self, reason: &str)
        ensures
            final(self).error matches Some(e) && e@ == "Failed to fetch model metadata: "@ + reason@,
            final(self).quantizations@.len() == 0,
            (*final(self) == App {
                loading_quants: false,
                error: final(self).error,
                quantizations: final(self).quantizations,
                model_metadata: None,
                file_tree: None,
                ..*old(self)
            }),
    {
        self.loading_quants = false;
        let mut e = String::from_str("Failed to fetch model metadata: ");
        e.append(reason);
        self.error = Some(e);
        self.quantizations = Vec::new();
        self.model_metadata = None;
        self.file_tree = None;
    }

    /// Shows the details that came for the selected model: the fetch error;
    /// or, for a repository with GGUF files, its quantization groups (the
    /// `cached` ones when the model was classified before, else classified
    /// now, which the result says so that the caller keeps them); or its
    /// file tree.  Sizes whose total does not fit in a `u64` are reported
    /// as a failure.
    pub fn show_details(&mut self, result: Result<ModelMetadata, String>, cached: Option<Vec<QuantizationGroup>>) -> (r: bool)
        ensures
            match result {
                Err(reason) => {
                    &&& !r
                    &&& (final(self).error matches Some(e) && e@ == "Failed to fetch model metadata: "@ + reason@)
                    &&& final(self).quantizations@.len() == 0
                    &&& (*final(self) == App {
                        loading_quants: false,
                        error: final(self).error,
                        quantizations: final(self).quantizations,
                        model_metadata: None,
                        file_tree: None,
                        ..*old(self)
                    })
                },
                Ok(meta) => if mode_for(meta) == ModelDisplayMode::Gguf {
                    match cached {
                        Some(g) => !r && (*final(self) == App {
                            display_mode: ModelDisplayMode::Gguf,
                            quantizations: g,
                            loading_quants: false,
                            model_metadata: None,
                            file_tree: None,
                            ..*old(self)
                        }),
                        None => if sum_sizes(gguf_entries(meta.siblings@)) <= u64::MAX {
                            &&& r
                            &&& classification(meta.siblings@, final(self).quantizations@)
                            &&& (*final(self) == App {
                                display_mode: ModelDisplayMode::Gguf,
                                quantizations: final(self).quantizations,
                                loading_quants: false,
                                model_metadata: None,
                                file_tree: None,
                                ..*old(self)
                            })
                        } else {
                            &&& !r
                            &&& (final(self).error matches Some(e) && e@ == "Failed to fetch model metadata: "@
                                + "repository sizes overflow"@)
                            &&& final(self).model_metadata is None
                        },
                    }
                } else {
                    &&& !r
                    &&& if vtotal(built(meta.siblings@)) <= u64::MAX {
                        &&& final(self).file_tree matches Some(t) && tview(t) == vsized(sort_tree(built(meta.siblings@)))
                        &&& final(self).quantizations@.len() == 0
                        &&& (*final(self) == App {
                            display_mode: ModelDisplayMode::Standard,
                            quantizations: final(self).quantizations,
                            loading_quants: false,
                            model_metadata: Some(meta),
                            file_tree: final(self).file_tree,
                            ..*old(self)
                        })
                    } else {
                        &&& (final(self).error matches Some(e) && e@ == "Failed to fetch model metadata: "@
                            + "repository sizes overflow"@)
                        &&& final(self).model_metadata is None
                    }
                },
            },
    {
        let meta = match result {
            Ok(m) => m,
            Err(e) => {
                self.details_failed(e.as_str());
                return false;
            },
        };
        match display_mode_for(&meta) {
            ModelDisplayMode::Gguf => match cached {
                Some(g) => {
                    self.show_quantizations(g);
                    false
                },
                None => {
                    if gguf_total_fits(meta.siblings.as_slice()) {
                        let g = classify_quantizations(meta.siblings.as_slice());
                        self.show_quantizations(g);
                        true
                    } else {
                        self.details_failed("repository sizes overflow");
                        false
                    }
                },
            },
            ModelDisplayMode::Standard => {
                let files = crate::report::copy_repo_files(&meta.siblings);
                match try_build_file_tree(files) {
                    Some(tree) => {
                        self.show_repository(meta, tree);
                        false
                    },
                    None => {
                        self.details_failed("repository sizes overflow");
                        false
                    },
                }
            },
        }
    }

    /// The quantization listing could not be fetched: no groups are shown.
    pub fn quantizations_failed(&mut self)
        ensures
            final(self).quantizations@.len() == 0,
            (*final(self) == App { loading_quants: false, quantizations: final(self).quantizations, ..*old(self) }),
    {
        self.loading_quants = false;
        self.quantizations = Vec::new();
    }
}

fn option_step_ok(o: &AppOptions, delta: i32) -> (r: bool)
    ensures
        r == option_step_fits(*o, delta),
{
    let d = delta as i64;
    if o.selected_field == 2 {
        let x = (o.concurrent_threads as i32) as i64 + d;
        i32::MIN as i64 <= x && x <= i32::MAX as i64
    } else if o.selected_field == 3 {
        let x = (o.num_chunks as i32) as i64 + d;
        i32::MIN as i64 <= x && x <= i32::MAX as i64
    } else if o.selected_field == 4 {
        (o.min_chunk_size as i64).checked_add(d * 1048576).is_some()
    } else if o.selected_field == 5 {
        (o.max_chunk_size as i64).checked_add(d * 10485760).is_some()
    } else if o.selected_field == 6 {
        let x = (o.max_retries as i32) as i64 + d;
        i32::MIN as i64 <= x && x <= i32::MAX as i64
    } else if o.selected_field == 7 {
        (o.download_timeout_secs as i64).checked_add(d * 30).is_some()
    } else if o.selected_field == 8 {
        (o.retry_delay_secs as i64).checked_add(d).is_some()
    } else if o.selected_field == 9 {
        (o.progress_update_interval_ms as i64).checked_add(d * 50).is_some()
    } else if o.selected_field == 11 {
        let x = (o.concurrent_verifications as i32) as i64 + d;
        i32::MIN as i64 <= x && x <= i32::MAX as i64
    } else if o.selected_field == 12 {
        (o.verification_buffer_size as i64).checked_add(d * 65536).is_some()
    } else if o.selected_field == 13 {
        let step = d * 50;
        let x = (o.verification_update_interval as i32) as i64 + step;
        i32::MIN as i64 <= step && step <= i32::MAX as i64 && i32::MIN as i64 <= x && x <= i32::MAX as i64
    } else {
        true
    }
}

impl App {
    /// Whether [`App::on_key_event`] can take `key` now: no option step or
    /// filter cycle overflows, and the selected group has a file to show.
    pub fn key_is_safe(&self, key: KeyInput) -> (r: bool)
        ensures
            r == key_safe(App { error: None, ..*self }, key),
    {
        match self.popup_mode {
            PopupMode::Options => {
                if self.options.editing_token || self.options.editing_directory {
                    true
                } else if key.code == KeyCode::Char('+') || key.code == KeyCode::Right {
                    option_step_ok(&self.options, 1)
                } else if key.code == KeyCode::Char('-') || key.code == KeyCode::Left {
                    option_step_ok(&self.options, -1)
                } else {
                    true
                }
            },
            PopupMode::SearchPopup | PopupMode::ResumeDownload | PopupMode::DownloadPath | PopupMode::AuthError { .. } => true,
            _ => match self.input_mode {
                InputMode::Editing => true,
                InputMode::Normal => match normal_command(key, self.focused_pane) {
                    Command::CycleFilterField => self.focused_filter_field < usize::MAX,
                    Command::Enter => {
                        if self.focused_pane == FocusedPane::QuantizationGroups {
                            match self.quant_list_state {
                                Some(g) => g >= self.quantizations.len() || self.quantizations[g].files.len() > 0,
                                None => true,
                            }
                        } else {
                            true
                        }
                    },
                    _ => true,
                },
            },
        }
    }
}

} // verus!
