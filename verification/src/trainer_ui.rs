//! On-screen panel for the trainer: state, touch input and commands.
//!
//! A small button is shown over the running app. It opens a panel with a
//! keypad, by which values are searched for and changed. What the user does is
//! queued as commands for the trainer.
use vstd::prelude::*;

pub mod laws;
pub mod layout;
pub mod panel;
pub mod render;

use crate::text::{push_upper_hex, trim, trimmed, upper_hex};
use crate::trainer::search::SearchResult;
use crate::trainer::value::VType;
use crate::trainer_ui::layout::{
    key_at, keypad, KEY_CLEAR, KEY_DELETE, RESULT_ROWS, W_BUTTON, W_CLOSE, W_DUMP, W_FIELD_SEARCH,
    W_FIELD_SET, W_FREEZE, W_KEY_BASE, W_REFINE, W_RESET, W_RESULT_BASE, W_SAVE, W_SCROLL_DOWN,
    W_SCROLL_UP, W_SEARCH, W_SET, W_SET_ALL, W_TYPE, W_UNFREEZE,
};
use vstd::utf8::encode_utf8;

verus! {

/// What the user asks of the trainer.
#[derive(Clone, Debug, PartialEq)]
pub enum TrainerCmd {
    Search { vtype: VType, text: String },
    Refine { vtype: VType, text: String },
    Reset,
    SetValue { vtype: VType, text: String },
    /// Sets all results, or shows what that would do if it is not a
    /// confirmation.
    SetAll { vtype: VType, text: String, confirm: bool, safe_mode: bool },
    /// Takes back what is waiting for a confirmation.
    CancelBulk,
    Freeze { vtype: VType, text: String },
    UnfreezeAll,
    Dump,
    SaveHack { vtype: VType },
    ApplyHack { addr: u32, vtype: VType, bits: u64 },
}

/// A command as a mathematical value.
pub ghost enum CmdView {
    Search { vtype: VType, text: Seq<char> },
    Refine { vtype: VType, text: Seq<char> },
    Reset,
    SetValue { vtype: VType, text: Seq<char> },
    SetAll { vtype: VType, text: Seq<char>, confirm: bool, safe_mode: bool },
    CancelBulk,
    Freeze { vtype: VType, text: Seq<char> },
    UnfreezeAll,
    Dump,
    SaveHack { vtype: VType },
    ApplyHack { addr: u32, vtype: VType, bits: u64 },
}

impl View for TrainerCmd {
    type V = CmdView;

    open spec fn view(&self) -> CmdView {
        match *self {
            TrainerCmd::Search { vtype, text } => CmdView::Search { vtype, text: text@ },
            TrainerCmd::Refine { vtype, text } => CmdView::Refine { vtype, text: text@ },
            TrainerCmd::Reset => CmdView::Reset,
            TrainerCmd::SetValue { vtype, text } => CmdView::SetValue { vtype, text: text@ },
            TrainerCmd::SetAll { vtype, text, confirm, safe_mode } => CmdView::SetAll {
                vtype,
                text: text@,
                confirm,
                safe_mode,
            },
            TrainerCmd::CancelBulk => CmdView::CancelBulk,
            TrainerCmd::Freeze { vtype, text } => CmdView::Freeze { vtype, text: text@ },
            TrainerCmd::UnfreezeAll => CmdView::UnfreezeAll,
            TrainerCmd::Dump => CmdView::Dump,
            TrainerCmd::SaveHack { vtype } => CmdView::SaveHack { vtype },
            TrainerCmd::ApplyHack { addr, vtype, bits } => CmdView::ApplyHack { addr, vtype, bits },
        }
    }
}

/// The field that the keypad types into.
#[derive(Clone, Copy, Debug, PartialEq, Eq, Structural)]
pub enum Focus {
    Search,
    SetField,
}

/// State of the panel.
pub struct TrainerUi {
    pub enabled: bool,
    pub app_id: Option<String>,
    pub open: bool,
    pub focus: Focus,
    pub search_text: String,
    pub set_text: String,
    pub vtype: VType,
    pub results: Vec<SearchResult>,
    pub total_results: usize,
    pub selected: Option<u32>,
    pub scroll: usize,
    pub status: String,
    pub frozen_count: usize,
    /// Widget id pressed but not yet released (pending activation).
    pub pending: Option<u16>,
    /// Whether the panel shows what setting all results would do, so that the
    /// next press confirms it.
    pub bulk_preview: bool,
    pub safe_mode: bool,
}

/// State of the panel as a mathematical value.
pub ghost struct UiView {
    pub enabled: bool,
    pub app_id: Option<Seq<char>>,
    pub open: bool,
    pub focus: Focus,
    pub search_text: Seq<char>,
    pub set_text: Seq<char>,
    pub vtype: VType,
    pub results: Seq<SearchResult>,
    pub total_results: nat,
    pub selected: Option<u32>,
    pub scroll: nat,
    pub status: Seq<char>,
    pub frozen_count: nat,
    pub pending: Option<u16>,
    pub bulk_preview: bool,
    pub safe_mode: bool,
}

impl View for TrainerUi {
    type V = UiView;

    open spec fn view(&self) -> UiView {
        UiView {
            enabled: self.enabled,
            app_id: match self.app_id {
                Some(id) => Some(id@),
                None => None,
            },
            open: self.open,
            focus: self.focus,
            search_text: self.search_text@,
            set_text: self.set_text@,
            vtype: self.vtype,
            results: self.results@,
            total_results: self.total_results as nat,
            selected: self.selected,
            scroll: self.scroll as nat,
            status: self.status@,
            frozen_count: self.frozen_count as nat,
            pending: self.pending,
            bulk_preview: self.bulk_preview,
            safe_mode: self.safe_mode,
        }
    }
}

/// The last position that the results can be scrolled to.
pub open spec fn last_scroll(total: nat) -> nat {
    if total < RESULT_ROWS {
        0
    } else {
        (total - RESULT_ROWS) as nat
    }
}

impl UiView {
    /// The results are scrolled no further than to the last of them.
    pub open spec fn wf(self) -> bool {
        self.scroll <= last_scroll(self.total_results)
    }

    /// A panel of which nothing has been used yet.
    pub open spec fn initial() -> UiView {
        UiView {
            enabled: true,
            app_id: None,
            open: false,
            focus: Focus::Search,
            search_text: Seq::empty(),
            set_text: Seq::empty(),
            vtype: VType::I32,
            results: Seq::empty(),
            total_results: 0,
            selected: None,
            scroll: 0,
            status: Seq::empty(),
            frozen_count: 0,
            pending: None,
            bulk_preview: false,
            safe_mode: true,
        }
    }
}

impl TrainerUi {
    pub fn new() -> (ui: TrainerUi)
        ensures
            ui@ == UiView::initial(),
            ui@.wf(),
    {
        let ui = TrainerUi {
            enabled: true,
            app_id: None,
            open: false,
            focus: Focus::Search,
            search_text: String::new(),
            set_text: String::new(),
            vtype: VType::I32,
            results: Vec::new(),
            total_results: 0,
            selected: None,
            scroll: 0,
            status: String::new(),
            frozen_count: 0,
            pending: None,
            bulk_preview: false,
            safe_mode: true,
        };
        assert(ui@.results =~= Seq::empty());
        assert(ui@.search_text =~= Seq::empty());
        ui
    }
}

/// The panel together with the commands that wait for the trainer.
pub struct Overlay {
    pub ui: TrainerUi,
    pub commands: Vec<TrainerCmd>,
    /// Master switch.
    pub hardware_enabled: bool,
}

/// Commands as mathematical values.
pub open spec fn queue(commands: Seq<TrainerCmd>) -> Seq<CmdView> {
    commands.map_values(|cmd: TrainerCmd| cmd@)
}

impl Overlay {
    pub fn new() -> (overlay: Overlay)
        ensures
            overlay.ui@ == UiView::initial(),
            overlay.ui@.wf(),
            overlay.commands@ == Seq::<TrainerCmd>::empty(),
            overlay.hardware_enabled,
    {
        Overlay { ui: TrainerUi::new(), commands: Vec::new(), hardware_enabled: true }
    }

    /// Whether the overlay is shown and takes touches.
    pub open spec fn is_active(self) -> bool {
        self.hardware_enabled && self.ui@.enabled && self.ui@.app_id is Some
    }
}

/// Master switch, driven by the `--no-trainer` option.
pub fn set_hardware_enabled(overlay: &mut Overlay, enabled: bool)
    ensures
        final(overlay).hardware_enabled == enabled,
        final(overlay).ui == old(overlay).ui,
        final(overlay).commands == old(overlay).commands,
{
    overlay.hardware_enabled = enabled;
}

/// Called by the trainer engine whenever the running app changes.
pub fn reset_for_app(overlay: &mut Overlay, app_id: Option<&str>)
    ensures
        final(overlay).ui@ == (UiView {
            enabled: old(overlay).ui@.enabled,
            vtype: old(overlay).ui@.vtype,
            safe_mode: old(overlay).ui@.safe_mode,
            app_id: match app_id {
                Some(id) => Some(id@),
                None => None,
            },
            ..UiView::initial()
        }),
        final(overlay).ui@.wf(),
        final(overlay).hardware_enabled == old(overlay).hardware_enabled,
        final(overlay).commands == old(overlay).commands,
{
    overlay.ui.app_id = match app_id {
        Some(id) => Some(id.to_string()),
        None => None,
    };
    overlay.ui.open = false;
    overlay.ui.focus = Focus::Search;
    overlay.ui.search_text = String::new();
    overlay.ui.set_text = String::new();
    overlay.ui.results.clear();
    overlay.ui.total_results = 0;
    overlay.ui.selected = None;
    overlay.ui.scroll = 0;
    overlay.ui.status = String::new();
    overlay.ui.frozen_count = 0;
    overlay.ui.pending = None;
    overlay.ui.bulk_preview = false;
    assert(overlay.ui@.search_text =~= Seq::empty());
    assert(overlay.ui@.results =~= Seq::empty());
}

/// Hands out the waiting commands, oldest first, and leaves none behind.
pub fn take_commands(overlay: &mut Overlay) -> (commands: Vec<TrainerCmd>)
    ensures
        commands@ == old(overlay).commands@,
        final(overlay).commands@ == Seq::<TrainerCmd>::empty(),
        final(overlay).ui == old(overlay).ui,
        final(overlay).hardware_enabled == old(overlay).hardware_enabled,
{
    let mut commands: Vec<TrainerCmd> = Vec::new();
    commands.append(&mut overlay.commands);
    assert(commands@ =~= old(overlay).commands@);
    assert(overlay.commands@ =~= Seq::<TrainerCmd>::empty());
    commands
}

/// Number of results that the panel holds.
pub const MAX_PUBLISHED: usize = 200;

/// Shows the first results of a search.
pub fn publish_results(overlay: &mut Overlay, results: &[SearchResult], total: usize)
    ensures
        final(overlay).ui@ == (UiView {
            results: results@.take(
                if results@.len() < MAX_PUBLISHED {
                    results@.len() as int
                } else {
                    MAX_PUBLISHED as int
                },
            ),
            total_results: total as nat,
            scroll: 0,
            ..old(overlay).ui@
        }),
        final(overlay).ui@.wf(),
        final(overlay).hardware_enabled == old(overlay).hardware_enabled,
        final(overlay).commands == old(overlay).commands,
{
    let count: usize = if results.len() < MAX_PUBLISHED {
        results.len()
    } else {
        MAX_PUBLISHED
    };
    let mut kept: Vec<SearchResult> = Vec::new();
    let mut i: usize = 0;
    while i < count
        invariant
            i <= count <= results@.len(),
            kept@ == results@.take(i as int),
        decreases count - i,
    {
        kept.push(results[i]);
        assert(kept@ =~= results@.take(i + 1));
        i = i + 1;
    }
    overlay.ui.results = kept;
    overlay.ui.total_results = total;
    overlay.ui.scroll = 0;
}

pub fn publish_status(overlay: &mut Overlay, status: String)
    ensures
        final(overlay).ui@ == (UiView { status: status@, ..old(overlay).ui@ }),
        final(overlay).hardware_enabled == old(overlay).hardware_enabled,
        final(overlay).commands == old(overlay).commands,
{
    overlay.ui.status = status;
}

pub fn publish_frozen(overlay: &mut Overlay, count: usize)
    ensures
        final(overlay).ui@ == (UiView { frozen_count: count as nat, ..old(overlay).ui@ }),
        final(overlay).hardware_enabled == old(overlay).hardware_enabled,
        final(overlay).commands == old(overlay).commands,
{
    overlay.ui.frozen_count = count;
}

/// Shows that the next press of SET ALL confirms what was previewed.
pub fn publish_bulk_preview(overlay: &mut Overlay)
    ensures
        final(overlay).ui@ == (UiView { bulk_preview: true, ..old(overlay).ui@ }),
        final(overlay).hardware_enabled == old(overlay).hardware_enabled,
        final(overlay).commands == old(overlay).commands,
{
    overlay.ui.bulk_preview = true;
}

pub fn selected_address(overlay: &Overlay) -> (addr: Option<u32>)
    ensures
        addr == overlay.ui@.selected,
{
    overlay.ui.selected
}

/// Whether the overlay is shown and takes touches.
pub fn overlay_active(overlay: &Overlay) -> (active: bool)
    ensures
        active == overlay.is_active(),
{
    overlay.hardware_enabled && overlay.ui.enabled && overlay.ui.app_id.is_some()
}

/// Longest text that can be typed, in bytes.
pub const MAX_FIELD_LEN: usize = 15;

/// What a key makes of a text.
pub open spec fn typed(text: Seq<char>, key: char) -> Seq<char> {
    if key == KEY_DELETE {
        if text.len() == 0 {
            text
        } else {
            text.drop_last()
        }
    } else if key == KEY_CLEAR {
        Seq::empty()
    } else if encode_utf8(text).len() < MAX_FIELD_LEN {
        text.push(key)
    } else {
        text
    }
}

/// What the status line says about the selected address.
pub open spec fn selection_text(addr: u32) -> Seq<char> {
    "SELECTED 0x"@ + upper_hex(addr as nat)
}

/// What pressing a widget makes of the panel.
pub open spec fn pressed(ui: UiView, id: u16) -> UiView {
    if id == W_BUTTON {
        UiView { open: !ui.open, ..ui }
    } else if id == W_CLOSE {
        UiView { open: false, ..ui }
    } else if id == W_TYPE {
        UiView { vtype: ui.vtype.successor(), bulk_preview: false, ..ui }
    } else if id == W_FIELD_SEARCH {
        UiView { focus: Focus::Search, ..ui }
    } else if id == W_FIELD_SET {
        UiView { focus: Focus::SetField, ..ui }
    } else if id == W_DUMP || id == W_SET_ALL {
        UiView { bulk_preview: false, ..ui }
    } else if id == W_SCROLL_UP {
        UiView {
            scroll: if ui.scroll < RESULT_ROWS {
                0
            } else {
                (ui.scroll - RESULT_ROWS) as nat
            },
            ..ui
        }
    } else if id == W_SCROLL_DOWN {
        let last = last_scroll(ui.total_results);
        UiView {
            scroll: if ui.scroll + RESULT_ROWS < last {
                ui.scroll + RESULT_ROWS as nat
            } else {
                last
            },
            ..ui
        }
    } else if W_RESULT_BASE <= id < W_RESULT_BASE + RESULT_ROWS {
        let row = ui.scroll + (id - W_RESULT_BASE);
        if row < ui.results.len() {
            let addr = ui.results[row].addr;
            UiView { selected: Some(addr), status: selection_text(addr), ..ui }
        } else {
            ui
        }
    } else if W_KEY_BASE <= id < W_KEY_BASE + 16 {
        match key_at(id - W_KEY_BASE) {
            None => ui,
            Some(key) => match ui.focus {
                Focus::Search => UiView { search_text: typed(ui.search_text, key), ..ui },
                Focus::SetField => UiView { set_text: typed(ui.set_text, key), ..ui },
            },
        }
    } else {
        ui
    }
}

/// The commands that pressing a widget gives rise to.
pub open spec fn ordered(ui: UiView, id: u16) -> Seq<CmdView> {
    if id == W_TYPE {
        seq![CmdView::CancelBulk]
    } else if id == W_SEARCH {
        seq![CmdView::Search { vtype: ui.vtype, text: trim(ui.search_text) }]
    } else if id == W_REFINE {
        seq![CmdView::Refine { vtype: ui.vtype, text: trim(ui.search_text) }]
    } else if id == W_RESET {
        seq![CmdView::Reset]
    } else if id == W_SET {
        seq![CmdView::SetValue { vtype: ui.vtype, text: trim(ui.set_text) }]
    } else if id == W_SET_ALL {
        seq![
            CmdView::SetAll {
                vtype: ui.vtype,
                text: trim(ui.set_text),
                confirm: ui.bulk_preview,
                safe_mode: ui.safe_mode,
            },
        ]
    } else if id == W_FREEZE {
        seq![CmdView::Freeze { vtype: ui.vtype, text: trim(ui.set_text) }]
    } else if id == W_UNFREEZE {
        seq![CmdView::UnfreezeAll]
    } else if id == W_DUMP {
        seq![CmdView::CancelBulk, CmdView::Dump]
    } else if id == W_SAVE {
        seq![CmdView::SaveHack { vtype: ui.vtype }]
    } else {
        Seq::empty()
    }
}

fn type_key(field: &mut String, key: char)
    ensures
        final(field)@ == typed(old(field)@, key),
{
    if key == KEY_DELETE {
        let _ = field.pop();
    } else if key == KEY_CLEAR {
        *field = String::new();
        assert(field@ =~= Seq::empty());
    } else if field.as_str().as_bytes().len() < MAX_FIELD_LEN {
        field.push(key);
    }
}

/// The commands that pressing a widget gives rise to.
fn commands_for(ui: &TrainerUi, id: u16) -> (commands: Vec<TrainerCmd>)
    ensures
        queue(commands@) == ordered(ui@, id),
{
    let vtype = ui.vtype;
    let mut commands: Vec<TrainerCmd> = Vec::new();
    if id == W_TYPE {
        commands.push(TrainerCmd::CancelBulk);
    } else if id == W_SEARCH {
        commands.push(TrainerCmd::Search { vtype, text: trimmed(ui.search_text.as_str()) });
    } else if id == W_REFINE {
        commands.push(TrainerCmd::Refine { vtype, text: trimmed(ui.search_text.as_str()) });
    } else if id == W_RESET {
        commands.push(TrainerCmd::Reset);
    } else if id == W_SET {
        commands.push(TrainerCmd::SetValue { vtype, text: trimmed(ui.set_text.as_str()) });
    } else if id == W_SET_ALL {
        let confirm = ui.bulk_preview;
        let safe_mode = ui.safe_mode;
        let text = trimmed(ui.set_text.as_str());
        commands.push(TrainerCmd::SetAll { vtype, text, confirm, safe_mode });
    } else if id == W_FREEZE {
        commands.push(TrainerCmd::Freeze { vtype, text: trimmed(ui.set_text.as_str()) });
    } else if id == W_UNFREEZE {
        commands.push(TrainerCmd::UnfreezeAll);
    } else if id == W_DUMP {
        commands.push(TrainerCmd::CancelBulk);
        commands.push(TrainerCmd::Dump);
    } else if id == W_SAVE {
        commands.push(TrainerCmd::SaveHack { vtype });
    }
    assert(queue(commands@) =~= ordered(ui@, id));
    commands
}

/// Selects the result in a row, if there is one.
fn select_row(ui: &mut TrainerUi, row: u16)
    requires
        old(ui)@.wf(),
        row < RESULT_ROWS,
    ensures
        final(ui)@ == pressed(old(ui)@, (W_RESULT_BASE + row) as u16),
{
    let index: usize = ui.scroll + row as usize;
    if index < ui.results.len() {
        let addr: u32 = ui.results[index].addr;
        ui.selected = Some(addr);
        let mut status = "SELECTED 0x".to_string();
        push_upper_hex(&mut status, addr);
        ui.status = status;
    }
}

/// Changes the panel as pressing a widget does.
fn press(ui: &mut TrainerUi, id: u16)
    requires
        old(ui)@.wf(),
    ensures
        final(ui)@ == pressed(old(ui)@, id),
        final(ui)@.wf(),
{
    if id == W_BUTTON {
        ui.open = !ui.open;
    } else if id == W_CLOSE {
        ui.open = false;
    } else if id == W_TYPE {
        ui.vtype = ui.vtype.next();
        ui.bulk_preview = false;
    } else if id == W_FIELD_SEARCH {
        ui.focus = Focus::Search;
    } else if id == W_FIELD_SET {
        ui.focus = Focus::SetField;
    } else if id == W_DUMP || id == W_SET_ALL {
        ui.bulk_preview = false;
    } else if id == W_SCROLL_UP {
        ui.scroll = ui.scroll.saturating_sub(RESULT_ROWS);
    } else if id == W_SCROLL_DOWN {
        let last: usize = ui.total_results.saturating_sub(RESULT_ROWS);
        if ui.scroll < last {
            let next: usize = ui.scroll + RESULT_ROWS;
            ui.scroll = if next < last {
                next
            } else {
                last
            };
        }
    } else if id >= W_RESULT_BASE && id < W_RESULT_BASE + 5 {
        select_row(ui, id - W_RESULT_BASE);
    } else if id >= W_KEY_BASE && id < W_KEY_BASE + 16 {
        if let Some(key) = keypad(id - W_KEY_BASE) {
            match ui.focus {
                Focus::Search => type_key(&mut ui.search_text, key),
                Focus::SetField => type_key(&mut ui.set_text, key),
            }
        }
    }
}

/// Does what a widget is for.
///
/// Setting all results takes two presses: the first one asks for a preview,
/// and once the panel shows it, the second one confirms. Whatever happens to
/// the preview in between, no press confirms twice.
pub fn activate_widget(overlay: &mut Overlay, id: u16)
    requires
        old(overlay).ui@.wf(),
    ensures
        final(overlay).ui@ == pressed(old(overlay).ui@, id),
        final(overlay).ui@.wf(),
        queue(final(overlay).commands@) == queue(old(overlay).commands@) + ordered(
            old(overlay).ui@,
            id,
        ),
        final(overlay).hardware_enabled == old(overlay).hardware_enabled,
{
    let mut commands = commands_for(&overlay.ui, id);
    let ghost fresh = commands@;
    press(&mut overlay.ui, id);
    overlay.commands.append(&mut commands);
    assert(queue(overlay.commands@) =~= queue(old(overlay).commands@) + queue(fresh));
}

/// What lies under a finger.
pub struct TouchHit {
    /// Whether the finger is on the button.
    pub on_button: bool,
    /// Whether the finger is inside the panel. `None` if the panel is closed.
    pub on_panel: Option<bool>,
    /// The widgets of the panel under the finger.
    pub widgets: Vec<u16>,
}

impl TouchHit {
    pub open spec fn inside_panel(self) -> bool {
        self.on_panel == Some(true)
    }

    /// Whether the finger is on the given widget.
    pub open spec fn is_on(self, id: u16) -> bool {
        (id == W_BUTTON && self.on_button) || (self.on_panel is Some && self.widgets@.contains(id))
    }
}

fn contains_id(ids: &Vec<u16>, id: u16) -> (yes: bool)
    ensures
        yes == ids@.contains(id),
{
    let mut i: usize = 0;
    while i < ids.len()
        invariant
            i <= ids@.len(),
            forall|k: int| 0 <= k < i ==> ids@[k] != id,
        decreases ids@.len() - i,
    {
        if ids[i] == id {
            return true;
        }
        i = i + 1;
    }
    false
}

/// A finger touches the screen. Returns whether the overlay takes the touch;
/// otherwise the game has it.
pub fn touch_down(overlay: &mut Overlay, hit: &TouchHit) -> (taken: bool)
    requires
        old(overlay).ui@.wf(),
    ensures
        final(overlay).ui@.wf(),
        taken == (old(overlay).is_active() && (hit.on_button || hit.inside_panel())),
        final(overlay).ui@ == (UiView {
            pending: if taken && hit.on_button {
                Some(W_BUTTON)
            } else if taken && hit.widgets@.len() > 0 {
                Some(hit.widgets@[0])
            } else {
                old(overlay).ui@.pending
            },
            ..old(overlay).ui@
        }),
        final(overlay).commands == old(overlay).commands,
        final(overlay).hardware_enabled == old(overlay).hardware_enabled,
{
    if !overlay_active(overlay) {
        return false;
    }
    if hit.on_button {
        overlay.ui.pending = Some(W_BUTTON);
        return true;
    }
    match hit.on_panel {
        Some(true) => {
            if hit.widgets.len() > 0 {
                overlay.ui.pending = Some(hit.widgets[0]);
            }
            true
        },
        _ => false,
    }
}

/// A finger moves. The overlay takes the motion while a press is pending, so
/// that the game doesn't see drags that started on the overlay.
pub fn touch_motion(overlay: &Overlay) -> (taken: bool)
    ensures
        taken == (overlay.is_active() && overlay.ui@.pending is Some),
{
    if !overlay_active(overlay) {
        return false;
    }
    overlay.ui.pending.is_some()
}

/// A finger leaves the screen. A widget that was pressed does what it is for
/// if the finger is still on it.
pub fn touch_up(overlay: &mut Overlay, hit: &TouchHit) -> (taken: bool)
    requires
        old(overlay).ui@.wf(),
    ensures
        final(overlay).ui@.wf(),
        taken == (old(overlay).is_active() && (old(overlay).ui@.pending is Some || hit.on_button
            || hit.inside_panel())),
        final(overlay).hardware_enabled == old(overlay).hardware_enabled,
        ({
            let before = old(overlay).ui@;
            let released = UiView { pending: None, ..before };
            match before.pending {
                Some(id) => if !old(overlay).is_active() {
                    &&& final(overlay).ui@ == before
                    &&& queue(final(overlay).commands@) == queue(old(overlay).commands@)
                } else if hit.is_on(id) {
                    &&& final(overlay).ui@ == pressed(released, id)
                    &&& queue(final(overlay).commands@) == queue(old(overlay).commands@) + ordered(
                        released,
                        id,
                    )
                } else {
                    &&& final(overlay).ui@ == released
                    &&& queue(final(overlay).commands@) == queue(old(overlay).commands@)
                },
                None => {
                    &&& final(overlay).ui@ == before
                    &&& queue(final(overlay).commands@) == queue(old(overlay).commands@)
                },
            }
        }),
{
    if !overlay_active(overlay) {
        return false;
    }
    let inside = match hit.on_panel {
        Some(inside) => inside,
        None => false,
    };
    let id: u16 = match overlay.ui.pending {
        None => {
            return hit.on_button || inside;
        },
        Some(id) => id,
    };
    overlay.ui.pending = None;
    if (id == W_BUTTON && hit.on_button) || (hit.on_panel.is_some() && contains_id(
        &hit.widgets,
        id,
    )) {
        activate_widget(overlay, id);
    }
    true
}

/// A bulk edit is confirmed only by a press while its preview is shown, and
/// that press ends the preview: pressing again asks for a new preview.
pub proof fn no_second_confirmation(ui: UiView)
    ensures
        ordered(ui, W_SET_ALL) == seq![
            CmdView::SetAll {
                vtype: ui.vtype,
                text: trim(ui.set_text),
                confirm: ui.bulk_preview,
                safe_mode: ui.safe_mode,
            },
        ],
        !pressed(ui, W_SET_ALL).bulk_preview,
        ordered(pressed(ui, W_SET_ALL), W_SET_ALL) == seq![
            CmdView::SetAll {
                vtype: ui.vtype,
                text: trim(ui.set_text),
                confirm: false,
                safe_mode: ui.safe_mode,
            },
        ],
{
}

/// No widget but the one for it sets all results, and none starts a preview
/// by itself.
pub proof fn only_set_all_edits_in_bulk(ui: UiView, id: u16)
    requires
        id != W_SET_ALL,
    ensures
        forall|k: int| 0 <= k < ordered(ui, id).len() ==> !(#[trigger] ordered(ui, id)[k] is SetAll),
        pressed(ui, id).bulk_preview ==> ui.bulk_preview,
{
}

/// A text that is typed stays within its limit.
pub proof fn typed_text_is_short(text: Seq<char>, index: int)
    requires
        encode_utf8(text).len() <= MAX_FIELD_LEN,
        key_at(index) is Some,
    ensures
        encode_utf8(typed(text, key_at(index).unwrap())).len() <= MAX_FIELD_LEN,
{
    let key = key_at(index).unwrap();
    if key == KEY_DELETE && text.len() > 0 {
        lemma_encode_last(text);
    } else if key != KEY_DELETE && key != KEY_CLEAR {
        let longer = text.push(key);
        lemma_encode_last(longer);
        assert(longer.drop_last() =~= text);
    }
}

/// The last character of a text adds its own bytes.
proof fn lemma_encode_last(text: Seq<char>)
    requires
        text.len() > 0,
    ensures
        encode_utf8(text).len() == encode_utf8(text.drop_last()).len() + encode_utf8(
            seq![text.last()],
        ).len(),
        text.last() as u32 <= 0x7f ==> encode_utf8(seq![text.last()]).len() == 1,
    decreases text.len(),
{
    reveal_with_fuel(encode_utf8, 2);
    if text.len() > 1 {
        let rest = text.drop_first();
        lemma_encode_last(rest);
        assert(rest.drop_last() =~= text.drop_last().drop_first());
        assert(rest.last() == text.last());
    } else {
        assert(text =~= seq![text.last()]);
    }
}

} // verus!
