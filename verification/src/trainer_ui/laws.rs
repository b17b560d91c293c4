//! What pressing the widgets of the panel does, and what the panel shows.
use vstd::prelude::*;
use vstd::utf8::encode_utf8;

use crate::text_laws::{is_number, is_short, is_trimmed, lemma_trimmed};
use crate::trainer::search::SearchResult;
use crate::trainer::value::VType;
use crate::trainer_ui::layout::{
    key_at, keypad, panel_places, panel_widgets, Place, W_BUTTON, W_CLOSE, W_DUMP, W_FIELD_SEARCH,
    W_FIELD_SET, W_FREEZE, W_KEY_BASE, W_REFINE, W_RESET, W_RESULT_BASE, W_SAVE, W_SCROLL_DOWN,
    W_SCROLL_UP, W_SEARCH, W_SET, W_SET_ALL, W_TYPE, W_UNFREEZE,
};
use crate::trainer_ui::panel::{
    draw_items, item_views, widget_item, widget_items, Item, ItemView, Role, Spot,
};
use crate::trainer_ui::{
    activate_widget, overlay_active, publish_results, queue, reset_for_app, touch_down,
    touch_motion, touch_up, CmdView, Focus, Overlay, TouchHit, TrainerUi, UiView,
};

verus! {

/// Whether pressing a widget hands these commands to the trainer: with the type
/// that is chosen, and the text of the field, without the whitespace around it.
pub open spec fn are_orders(ui: UiView, id: u16, new: Seq<CmdView>) -> bool {
    if id == W_SEARCH {
        &&& new.len() == 1
        &&& new[0] matches CmdView::Search { vtype, text } && vtype == ui.vtype && is_trimmed(
            ui.search_text,
            text,
        )
    } else if id == W_REFINE {
        &&& new.len() == 1
        &&& new[0] matches CmdView::Refine { vtype, text } && vtype == ui.vtype && is_trimmed(
            ui.search_text,
            text,
        )
    } else if id == W_RESET {
        new =~= seq![CmdView::Reset]
    } else if id == W_SET {
        &&& new.len() == 1
        &&& new[0] matches CmdView::SetValue { vtype, text } && vtype == ui.vtype && is_trimmed(
            ui.set_text,
            text,
        )
    } else if id == W_SET_ALL {
        &&& new.len() == 1
        &&& new[0] matches CmdView::SetAll { vtype, text, confirm, safe_mode } && vtype == ui.vtype
            && is_trimmed(ui.set_text, text) && confirm == ui.bulk_preview && safe_mode
            == ui.safe_mode
    } else if id == W_FREEZE {
        &&& new.len() == 1
        &&& new[0] matches CmdView::Freeze { vtype, text } && vtype == ui.vtype && is_trimmed(
            ui.set_text,
            text,
        )
    } else if id == W_UNFREEZE {
        new =~= seq![CmdView::UnfreezeAll]
    } else if id == W_DUMP {
        new =~= seq![CmdView::CancelBulk, CmdView::Dump]
    } else if id == W_SAVE {
        new =~= seq![CmdView::SaveHack { vtype: ui.vtype }]
    } else if id == W_TYPE {
        new =~= seq![CmdView::CancelBulk]
    } else {
        new.len() == 0
    }
}

/// The characters of the keypad, row by row. Nothing is at the other places.
pub open spec fn keys() -> Seq<char> {
    seq!['1', '2', '3', '\u{8}', '4', '5', '6', '\u{4}', '7', '8', '9', '.', '-', '0']
}

/// Whether typing a key turns a text into another one: one key takes the last
/// character away, one takes all of them away, and the others are added as long
/// as there is room.
pub open spec fn is_typed(before: Seq<char>, key: char, after: Seq<char>) -> bool {
    if key == '\u{8}' {
        &&& before.len() == 0 ==> after.len() == 0
        &&& before.len() > 0 ==> after == before.drop_last()
    } else if key == '\u{4}' {
        after.len() == 0
    } else if encode_utf8(before).len() < 15 {
        after == before.push(key)
    } else {
        after == before
    }
}

/// Whether pressing a widget changes the panel so, and in no other way.
pub open spec fn is_pressed(before: UiView, id: u16, after: UiView) -> bool {
    if id == W_BUTTON {
        after == UiView { open: !before.open, ..before }
    } else if id == W_CLOSE {
        after == UiView { open: false, ..before }
    } else if id == W_FIELD_SEARCH {
        after == UiView { focus: Focus::Search, ..before }
    } else if id == W_FIELD_SET {
        after == UiView { focus: Focus::SetField, ..before }
    } else if id == W_DUMP || id == W_SET_ALL {
        after == UiView { bulk_preview: false, ..before }
    } else if id == W_TYPE {
        &&& after == UiView { bulk_preview: false, vtype: after.vtype, ..before }
        &&& match before.vtype {
            VType::U8 => after.vtype == VType::I8,
            VType::I8 => after.vtype == VType::U16,
            VType::U16 => after.vtype == VType::I16,
            VType::I16 => after.vtype == VType::U32,
            VType::U32 => after.vtype == VType::I32,
            VType::I32 => after.vtype == VType::F32,
            VType::F32 => after.vtype == VType::Auto,
            VType::Auto => after.vtype == VType::U8,
        }
    } else if id == W_SCROLL_UP {
        &&& after == UiView { scroll: after.scroll, ..before }
        &&& before.scroll >= 5 ==> after.scroll == before.scroll - 5
        &&& before.scroll < 5 ==> after.scroll == 0
    } else if id == W_SCROLL_DOWN {
        &&& after == UiView { scroll: after.scroll, ..before }
        &&& before.scroll + 10 <= before.total_results ==> after.scroll == before.scroll + 5
        &&& before.scroll + 10 > before.total_results && before.total_results >= 5
            ==> after.scroll == before.total_results - 5
        &&& before.total_results < 5 ==> after.scroll == 0
    } else if W_RESULT_BASE <= id < W_RESULT_BASE + 5 {
        let row = before.scroll + (id - W_RESULT_BASE);
        &&& row >= before.results.len() ==> after == before
        &&& row < before.results.len() ==> {
            let addr = before.results[row].addr;
            &&& after == UiView { selected: Some(addr), status: after.status, ..before }
            &&& exists|text: Seq<char>, digits: Seq<int>| #[trigger]
                is_number(text, digits, 16, true) && is_short(digits)
                    && crate::trainer::text_laws::row(digits, 16) == addr && after.status
                    == "SELECTED 0x"@ + text
        }
    } else if W_KEY_BASE <= id < W_KEY_BASE + 14 {
        let key = keys()[id - W_KEY_BASE];
        &&& before.focus == Focus::Search ==> after == UiView {
            search_text: after.search_text,
            ..before
        } && is_typed(before.search_text, key, after.search_text)
        &&& before.focus == Focus::SetField ==> after == UiView {
            set_text: after.set_text,
            ..before
        } && is_typed(before.set_text, key, after.set_text)
    } else {
        after == before
    }
}

/// Pressing a widget does just what the widget is for: to the panel, and as
/// commands behind those that wait already.
pub proof fn widgets_do_what_they_are_for(overlay: &mut Overlay, id: u16)
    requires
        old(overlay).ui@.wf(),
        call_ensures(activate_widget, (overlay, id), ()),
    ensures
        is_pressed(old(overlay).ui@, id, final(overlay).ui@),
        exists|new: Seq<CmdView>| #[trigger]
            are_orders(old(overlay).ui@, id, new) && queue(final(overlay).commands@) == queue(
                old(overlay).commands@,
            ) + new,
        final(overlay).hardware_enabled == old(overlay).hardware_enabled,
{
    let before = old(overlay).ui@;
    let after = final(overlay).ui@;
    lemma_trimmed(before.search_text);
    lemma_trimmed(before.set_text);
    let new = crate::trainer_ui::ordered(before, id);
    assert(are_orders(before, id, new));
    if W_RESULT_BASE <= id < W_RESULT_BASE + 5 {
        let row = before.scroll + (id - W_RESULT_BASE);
        if row < before.results.len() {
            let addr = before.results[row].addr;
            let digits = crate::text_laws::lemma_digits(addr as nat, 16, true);
            assert(is_number(crate::text::upper_hex(addr as nat), digits, 16, true));
        }
    }
}

/// Touching a widget and letting go of it presses it. Letting go elsewhere
/// presses nothing, and an overlay that is not shown takes no touches.
pub proof fn touching_presses_widgets(
    down: &mut Overlay,
    up: &mut Overlay,
    on: &TouchHit,
    off: &TouchHit,
    pressing: &mut Overlay,
    taken_down: bool,
    moving: bool,
    taken_up: bool,
    id: u16,
)
    requires
        old(down).ui@.wf(),
        call_ensures(touch_down, (down, on), taken_down),
        call_ensures(touch_motion, (final(down),), moving),
        *old(up) == *final(down),
        call_ensures(touch_up, (up, off), taken_up),
        old(pressing).ui@ == old(down).ui@,
        old(pressing).commands@ == old(down).commands@,
        call_ensures(activate_widget, (pressing, id), ()),
        old(down).ui@.pending is None,
    ensures
        ({
            let shown = old(down).hardware_enabled && old(down).ui@.enabled
                && old(down).ui@.app_id is Some;
            let touched = if on.on_button {
                Some(W_BUTTON)
            } else if on.on_panel == Some(true) && on.widgets@.len() > 0 {
                Some(on.widgets@[0])
            } else {
                None
            };
            let stays = (id == W_BUTTON && off.on_button) || (off.on_panel is Some
                && off.widgets@.contains(id));
            &&& taken_down == (shown && (on.on_button || on.on_panel == Some(true)))
            &&& moving == (shown && touched is Some)
            &&& !shown ==> !taken_up && final(up).ui@ == old(down).ui@
            &&& shown && touched == Some(id) && stays ==> {
                &&& taken_up
                &&& final(up).ui@ == final(pressing).ui@
                &&& queue(final(up).commands@) == queue(final(pressing).commands@)
            }
            &&& shown && touched == Some(id) && !stays ==> {
                &&& taken_up
                &&& final(up).ui@ == old(down).ui@
                &&& queue(final(up).commands@) == queue(old(down).commands@)
            }
            &&& touched is None ==> {
                &&& final(up).ui@ == old(down).ui@
                &&& queue(final(up).commands@) == queue(old(down).commands@)
            }
        }),
{
    let released = UiView { pending: None, ..final(down).ui@ };
    assert(released == old(down).ui@);
}

/// The label of a widget that does something when it is pressed.
pub open spec fn label(ui: UiView, id: u16) -> Option<Seq<char>> {
    if id == W_CLOSE {
        Some("X"@)
    } else if id == W_SEARCH {
        Some("SEARCH"@)
    } else if id == W_REFINE {
        Some("REFINE"@)
    } else if id == W_RESET {
        Some("RESET"@)
    } else if id == W_SET {
        Some("SET"@)
    } else if id == W_SET_ALL && ui.bulk_preview {
        Some("CONFIRM"@)
    } else if id == W_SET_ALL {
        Some("SET ALL"@)
    } else if id == W_FREEZE {
        Some("FREEZE"@)
    } else if id == W_UNFREEZE {
        Some("UNFRZ"@)
    } else if id == W_DUMP {
        Some("DUMP"@)
    } else if id == W_SAVE {
        Some("SAVE HACK"@)
    } else if id == W_SCROLL_UP {
        Some("^"@)
    } else if id == W_SCROLL_DOWN {
        Some("v"@)
    } else if W_KEY_BASE <= id < W_KEY_BASE + 14 {
        let key = keys()[id - W_KEY_BASE];
        Some(
            if key == '\u{8}' {
                "DEL"@
            } else if key == '\u{4}' {
                "CLR"@
            } else {
                seq![key]
            },
        )
    } else {
        None
    }
}

/// How a type is called.
pub open spec fn type_label(vtype: VType) -> Seq<char> {
    match vtype {
        VType::U8 => "U8"@,
        VType::I8 => "I8"@,
        VType::U16 => "U16"@,
        VType::I16 => "I16"@,
        VType::U32 => "U32"@,
        VType::I32 => "I32"@,
        VType::F32 => "F32"@,
        VType::Auto => "AUTO"@,
    }
}

/// Whether a row has no result to show.
pub open spec fn is_blank(ui: UiView, id: u16) -> bool {
    W_RESULT_BASE <= id < W_RESULT_BASE + 5 && ui.scroll + (id - W_RESULT_BASE)
        >= ui.results.len()
}

/// Whether an item is what a widget shows: its label, the chosen type, a field
/// with what was typed, or a result with its address, its own type and value.
/// The field that is typed into and the result that is selected stand out.
pub open spec fn shows(ui: UiView, id: u16, item: ItemView) -> bool {
    if label(ui, id) is Some {
        &&& item.text == label(ui, id).unwrap()
        &&& item.value is None
        &&& item.fill == Some(Role::Widget)
    } else if id == W_TYPE {
        &&& item.text == "TYPE: "@ + type_label(ui.vtype)
        &&& item.value is None
    } else if id == W_FIELD_SEARCH {
        &&& item.text == "VAL: "@ + ui.search_text + "_"@
        &&& item.value is None
        &&& item.fill == Some(
            if ui.focus == Focus::Search {
                Role::Selected
            } else {
                Role::Field
            },
        )
    } else if id == W_FIELD_SET {
        &&& item.text == "SET: "@ + ui.set_text + "_"@
        &&& item.value is None
        &&& item.fill == Some(
            if ui.focus == Focus::SetField {
                Role::Selected
            } else {
                Role::Field
            },
        )
    } else {
        let result = ui.results[ui.scroll + (id - W_RESULT_BASE)];
        &&& W_RESULT_BASE <= id < W_RESULT_BASE + 5
        &&& exists|addr: Seq<char>, digits: Seq<int>| #[trigger]
            is_number(addr, digits, 16, true) && digits.len() == 8
                && crate::trainer::text_laws::row(digits, 16) == result.addr && item.text == "0x"@
                + addr + " "@ + type_label(result.vtype) + " "@
        &&& item.value == Some((result.vtype, result.bits))
        &&& item.fill == Some(
            if ui.selected == Some(result.addr) {
                Role::Selected
            } else {
                Role::Field
            },
        )
    }
}

/// Whether an id is that of one of the widgets of the panel.
pub open spec fn is_widget(id: u16) -> bool {
    ||| W_CLOSE <= id <= W_SET_ALL
    ||| W_RESULT_BASE <= id < W_RESULT_BASE + 5
    ||| W_KEY_BASE <= id < W_KEY_BASE + 14
}

proof fn lemma_shows(ui: UiView, id: u16, index: usize)
    requires
        is_widget(id),
    ensures
        is_blank(ui, id) == (widget_item(ui, id, index) is None),
        widget_item(ui, id, index) matches Some(item) ==> shows(ui, id, item) && item.spot
            == Spot::Widget(index),
{
    if W_RESULT_BASE <= id < W_RESULT_BASE + 5 && !is_blank(ui, id) {
        let result = ui.results[ui.scroll + (id - W_RESULT_BASE)];
        let digits = crate::text_laws::lemma_fixed(result.addr as nat, 8);
        reveal_with_fuel(crate::text_laws::sixteen_to, 9);
        assert(crate::text_laws::sixteen_to(8) == 0x1_0000_0000);
        vstd::arithmetic::div_mod::lemma_small_mod(
            result.addr as nat,
            crate::text_laws::sixteen_to(8) as nat,
        );
        assert(crate::trainer::text_laws::row(digits, 16) == result.addr);
        let item = widget_item(ui, id, index).unwrap();
        let addr = crate::text::fixed_hex(result.addr as nat, 8);
        assert(crate::trainer_ui::panel::name_of_type(result.vtype) == type_label(result.vtype));
        assert(item.text == "0x"@ + addr + " "@ + type_label(result.vtype) + " "@);
        assert(label(ui, id) is None);
        assert(is_number(crate::text::fixed_hex(result.addr as nat, 8), digits, 16, true));
        assert(shows(ui, id, widget_item(ui, id, index).unwrap()));
    } else if W_KEY_BASE <= id < W_KEY_BASE + 14 {
        let k = id - W_KEY_BASE;
        assert(key_at(k) == Some(keys()[k]));
        assert(shows(ui, id, widget_item(ui, id, index).unwrap()));
    } else if !is_blank(ui, id) {
        assert(shows(ui, id, widget_item(ui, id, index).unwrap()));
    }
}

/// Whether the items are what the first widgets show, in their order: one each,
/// but for rows without a result.
pub open spec fn are_shown(
    ui: UiView,
    ids: Seq<u16>,
    items: Seq<ItemView>,
    from: Seq<int>,
) -> bool {
    &&& from.len() == items.len()
    &&& forall|k: int, l: int| 0 <= k < l < from.len() ==> from[k] < from[l]
    &&& forall|k: int|
        0 <= k < from.len() ==> {
            &&& 0 <= #[trigger] from[k] < ids.len()
            &&& !is_blank(ui, ids[from[k]])
            &&& items[k].spot == Spot::Widget(from[k] as usize)
            &&& shows(ui, ids[from[k]], items[k])
        }
    &&& forall|w: int|
        0 <= w < ids.len() && !is_blank(ui, #[trigger] ids[w]) ==> from.contains(w)
}

/// Whether the items are what the widgets show, in their order.
pub open spec fn are_all_shown(ui: UiView, ids: Seq<u16>, items: Seq<ItemView>) -> bool {
    exists|from: Seq<int>| are_shown(ui, ids, items, from)
}

proof fn lemma_are_shown(ui: UiView, count: int) -> (from: Seq<int>)
    requires
        0 <= count <= panel_places().len(),
    ensures
        are_shown(
            ui,
            Seq::new(count as nat, |w: int| panel_places()[w].id),
            widget_items(ui, count),
            from,
        ),
    decreases count,
{
    let ids = Seq::new(count as nat, |w: int| panel_places()[w].id);
    if count == 0 {
        Seq::empty()
    } else {
        let before = lemma_are_shown(ui, count - 1);
        let fewer = Seq::new((count - 1) as nat, |w: int| panel_places()[w].id);
        let last = count - 1;
        let id = panel_places()[last].id;
        assert(is_widget(id));
        lemma_shows(ui, id, last as usize);
        let from = if is_blank(ui, id) {
            before
        } else {
            before.push(last)
        };
        assert forall|k: int| 0 <= k < from.len() implies {
            &&& 0 <= #[trigger] from[k] < ids.len()
            &&& !is_blank(ui, ids[from[k]])
            &&& widget_items(ui, count)[k].spot == Spot::Widget(from[k] as usize)
            &&& shows(ui, ids[from[k]], widget_items(ui, count)[k])
        } by {
            if k < before.len() {
                assert(fewer[before[k]] == ids[from[k]]);
            }
        }
        assert forall|w: int|
            0 <= w < ids.len() && !is_blank(ui, #[trigger] ids[w]) implies from.contains(w) by {
            if w < last {
                assert(fewer[w] == ids[w]);
                assert(from[before.index_of(w)] == w);
            } else {
                assert(from[before.len() as int] == w);
            }
        }
        from
    }
}

/// The button is always shown, and lit while it is pressed or the panel is
/// open. The open panel shows a title, each of its widgets once, how many
/// results there are, and the status if there is one.
pub proof fn panel_shows_its_state(ui: &TrainerUi, items: Vec<Item>, places: Vec<Place>)
    requires
        ui@.wf(),
        call_ensures(draw_items, (ui,), items),
        call_ensures(panel_widgets, (), places),
    ensures
        ({
            let shown = item_views(items@);
            let count = shown.len();
            let ids = Seq::new(places@.len(), |w: int| places@[w].id);
            let has_status = ui@.status.len() > 0;
            let tail = if has_status {
                2int
            } else {
                1
            };
            &&& count >= 1
            &&& shown[0].spot == Spot::Button
            &&& shown[0].text == if ui@.open {
                "X"@
            } else {
                "GG"@
            }
            &&& shown[0].fill == Some(
                if ui@.open || ui@.pending == Some(W_BUTTON) {
                    Role::WidgetLit
                } else {
                    Role::Accent
                },
            )
            &&& !ui@.open ==> count == 1
            &&& ui@.open ==> {
                &&& count >= 2 + tail
                &&& shown[1].spot == Spot::Panel && shown[1].fill == Some(Role::Panel)
                &&& are_all_shown(ui@, ids, shown.subrange(2, count - tail))
                &&& shown[count - tail].spot == Spot::ResultsHeader
                &&& is_header(shown[count - tail].text, ui@.total_results, ui@.frozen_count)
                &&& has_status ==> shown[count - 1].spot == Spot::Status && shown[count - 1].text
                    == ui@.status
            }
        }),
{
    let shown = item_views(items@);
    let count = shown.len() as int;
    let ids = Seq::new(places@.len(), |w: int| places@[w].id);
    if ui@.open {
        let all = panel_places().len() as int;
        let from = lemma_are_shown(ui@, all);
        let tail = if ui@.status.len() > 0 {
            2int
        } else {
            1
        };
        assert(ids =~= Seq::new(all as nat, |w: int| panel_places()[w].id));
        assert(shown.subrange(2, count - tail) =~= widget_items(ui@, all));
        assert(are_shown(ui@, ids, shown.subrange(2, count - tail), from));
        let a = crate::text_laws::lemma_digits(ui@.total_results, 10, true);
        let b = crate::text_laws::lemma_digits(ui@.frozen_count, 10, true);
        assert(is_number(crate::text::decimal_text(ui@.total_results), a, 10, true));
        assert(is_number(crate::text::decimal_text(ui@.frozen_count), b, 10, true));
        assert(is_header(shown[count - tail].text, ui@.total_results, ui@.frozen_count));
    }
}

/// Whether a text says how many results there are, and how many are frozen.
pub open spec fn is_header(text: Seq<char>, total: nat, frozen: nat) -> bool {
    exists|a: Seq<char>, b: Seq<char>, m: Seq<int>, n: Seq<int>|
        #![trigger is_number(a, m, 10, true), is_number(b, n, 10, true)]
        is_number(a, m, 10, true) && is_number(b, n, 10, true) && is_short(m) && is_short(n)
            && crate::trainer::text_laws::row(m, 10) == total && crate::trainer::text_laws::row(
            n,
            10,
        ) == frozen && text == "RESULTS "@ + a + " FROZEN "@ + b
}

/// The widgets of the panel are each there once, inside the panel, and a widget
/// that comes later is below or to the right, if the panel is at least 24 units
/// wide.
pub proof fn widgets_are_apart(places: Vec<Place>, i: int, j: int)
    requires
        call_ensures(panel_widgets, (), places),
        0 <= i < j < places@.len(),
    ensures
        places@.len() == 34,
        ({
            let a = places@[i];
            let b = places@[j];
            &&& is_widget(a.id) && is_widget(b.id)
            &&& a.id != b.id
            &&& a.top + a.height <= b.top || {
                let between = b.left_panel - a.left_panel - a.width_panel;
                between >= 0 && a.left_units + a.width_units <= b.left_units + 24 * between
            }
            &&& a.height > 0 && b.height > 0
            &&& b.top + b.height <= 441
            &&& 0 <= a.left_panel && a.left_panel + a.width_panel <= 12
            &&& a.left_panel == 0 ==> a.left_units > 0
            &&& a.left_panel + a.width_panel == 12 ==> a.left_units + a.width_units < 0
            &&& a.width_panel == 0 ==> a.width_units > 0
        }),
{
}

/// A panel that is new is closed and empty, edits safely, and is for integers of
/// 32 bits. It takes part as soon as there is an app, unless it was switched
/// off. A new app starts with an empty panel again, but keeps the type and the
/// mode.
pub proof fn new_panels_are_empty(
    overlay: Overlay,
    used: &mut Overlay,
    app_id: &str,
    active: bool,
    active_later: bool,
)
    requires
        call_ensures(Overlay::new, (), overlay),
        call_ensures(overlay_active, (&overlay,), active),
        call_ensures(reset_for_app, (used, Some(app_id)), ()),
        call_ensures(overlay_active, (final(used),), active_later),
    ensures
        ({
            let ui = overlay.ui@;
            let later = final(used).ui@;
            &&& !active
            &&& is_unused(ui) && ui.app_id is None && ui.enabled && ui.safe_mode
            &&& ui.vtype == VType::I32
            &&& overlay.commands@.len() == 0 && overlay.hardware_enabled
            &&& is_unused(later) && later.app_id == Some(app_id@)
            &&& later.vtype == old(used).ui@.vtype && later.safe_mode == old(used).ui@.safe_mode
            &&& later.enabled == old(used).ui@.enabled
            &&& active_later == (old(used).hardware_enabled && old(used).ui@.enabled)
            &&& final(used).commands == old(used).commands
        }),
{
}

/// Whether nothing was typed, found or chosen in a panel.
pub open spec fn is_unused(ui: UiView) -> bool {
    &&& !ui.open
    &&& ui.focus == Focus::Search
    &&& ui.search_text.len() == 0 && ui.set_text.len() == 0 && ui.status.len() == 0
    &&& ui.results.len() == 0 && ui.total_results == 0 && ui.frozen_count == 0
    &&& ui.selected is None && ui.pending is None
    &&& ui.scroll == 0
    &&& !ui.bulk_preview
}

/// The panel shows the first two hundred results that it is handed, from the
/// first on, and how many there are in all.
pub proof fn published_results_are_shown(
    overlay: &mut Overlay,
    results: &[SearchResult],
    total: usize,
)
    requires
        call_ensures(publish_results, (overlay, results, total), ()),
    ensures
        ({
            let shown = final(overlay).ui@.results;
            &&& shown.len() <= results@.len() && shown.len() <= 200
            &&& shown.len() == results@.len() || shown.len() == 200
            &&& forall|i: int| 0 <= i < shown.len() ==> #[trigger] shown[i] == results@[i]
            &&& final(overlay).ui@.total_results == total
            &&& final(overlay).ui@.scroll == 0
            &&& final(overlay).ui@.selected == old(overlay).ui@.selected
            &&& final(overlay).commands == old(overlay).commands
        }),
{
}

/// The panel has its widgets in this order: to close it, the type, what to
/// search for, the keys four to a row, the buttons to search, narrow down and
/// reset, those to scroll, the rows of results, what to set, and the buttons to
/// set, freeze and unfreeze, to set all, dump and save. Those of a row are at
/// the same height, and keys and thirds are equally wide.
pub proof fn widgets_are_in_order(places: Vec<Place>, k: int, r: int)
    requires
        call_ensures(panel_widgets, (), places),
        0 <= k < 14,
        0 <= r < 5,
    ensures
        ({
            let p = places@;
            &&& p.len() == 34
            &&& p[0].id == W_CLOSE && p[1].id == W_TYPE && p[2].id == W_FIELD_SEARCH
            &&& p[3 + k].id == W_KEY_BASE + k
            &&& p[3 + k].top == p[3].top + 26 * (k / 4)
            &&& p[3 + k].left_panel == 3 * (k % 4) && p[3 + k].width_panel == 3
            &&& p[17].id == W_SEARCH && p[18].id == W_REFINE && p[19].id == W_RESET
            &&& p[20].id == W_SCROLL_UP && p[21].id == W_SCROLL_DOWN
            &&& p[22 + r].id == W_RESULT_BASE + r
            &&& p[22 + r].top == p[22].top + 18 * r
            &&& p[27].id == W_FIELD_SET
            &&& p[28].id == W_SET && p[29].id == W_FREEZE && p[30].id == W_UNFREEZE
            &&& p[31].id == W_SET_ALL && p[32].id == W_DUMP && p[33].id == W_SAVE
            &&& is_row(p[17], p[18], p[19])
            &&& is_row(p[28], p[29], p[30])
            &&& is_row(p[31], p[32], p[33])
            &&& p[20].top == p[21].top
        }),
{
}

/// Whether three widgets are side by side, each as wide as the others.
pub open spec fn is_row(a: Place, b: Place, c: Place) -> bool {
    &&& a.top == b.top == c.top
    &&& a.height == b.height == c.height
    &&& a.left_panel == 0 && b.left_panel == 4 && c.left_panel == 8
    &&& a.width_panel == 4 && b.width_panel == 4 && c.width_panel == 4
    &&& a.width_units == b.width_units == c.width_units
}

/// Types go by their names and have their sizes, and the keypad has its
/// characters.
pub proof fn types_and_keys_are_known(
    vtype: VType,
    name: &'static str,
    size: u32,
    index: u16,
    key: Option<char>,
)
    requires
        call_ensures(VType::name, (vtype,), name),
        call_ensures(VType::size, (vtype,), size),
        call_ensures(keypad, (index,), key),
    ensures
        name@ == type_label(vtype),
        size == crate::trainer::laws::byte_size(vtype),
        key == if index < 14 {
            Some(keys()[index as int])
        } else {
            None
        },
{
}

} // verus!
