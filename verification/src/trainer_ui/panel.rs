//! What the button and the panel show.
use vstd::prelude::*;

use crate::text::{decimal_text, fixed_hex, push_decimal, push_fixed_hex};
use crate::trainer::search::SearchResult;
use crate::trainer::value::VType;
use crate::trainer_ui::layout::{
    key_at, keypad, panel_places, panel_widgets, KEY_CLEAR, KEY_DELETE, RESULT_ROWS, W_BUTTON,
    W_CLOSE, W_DUMP, W_FIELD_SEARCH, W_FIELD_SET, W_FREEZE, W_KEY_BASE, W_REFINE, W_RESET,
    W_RESULT_BASE, W_SAVE, W_SCROLL_DOWN, W_SCROLL_UP, W_SEARCH, W_SET, W_SET_ALL, W_TYPE,
    W_UNFREEZE,
};
use crate::trainer_ui::{Focus, TrainerUi, UiView};

verus! {

/// The part that a colour plays.
#[derive(Clone, Copy, Debug, PartialEq, Eq, Structural)]
pub enum Role {
    Panel,
    Widget,
    WidgetLit,
    Field,
    Text,
    TextDim,
    Accent,
    Selected,
}

/// Where something is shown.
#[derive(Clone, Copy, Debug, PartialEq, Eq, Structural)]
pub enum Spot {
    Button,
    Panel,
    /// The widget with this index.
    Widget(usize),
    ResultsHeader,
    Status,
}

/// How text is laid out.
#[derive(Clone, Copy, Debug, PartialEq, Eq, Structural)]
pub enum TextStyle {
    /// In the middle.
    Centered,
    /// On the left.
    Left,
    /// On the left, for a row of results.
    Row,
}

/// Something that is shown: a filled rectangle, or none, with text on it.
pub struct Item {
    pub spot: Spot,
    pub fill: Option<Role>,
    pub text: String,
    pub text_role: Role,
    pub style: TextStyle,
    /// A value that follows the text: its type and its bits.
    pub value: Option<(VType, u64)>,
}

/// Something that is shown, as a mathematical value.
pub ghost struct ItemView {
    pub spot: Spot,
    pub fill: Option<Role>,
    pub text: Seq<char>,
    pub text_role: Role,
    pub style: TextStyle,
    pub value: Option<(VType, u64)>,
}

impl View for Item {
    type V = ItemView;

    open spec fn view(&self) -> ItemView {
        ItemView {
            spot: self.spot,
            fill: self.fill,
            text: self.text@,
            text_role: self.text_role,
            style: self.style,
            value: self.value,
        }
    }
}

pub open spec fn item_views(items: Seq<Item>) -> Seq<ItemView> {
    items.map_values(|item: Item| item@)
}

/// The label of a widget that is pressed.
pub open spec fn action_label(ui: UiView, id: u16) -> Option<Seq<char>> {
    if id == W_CLOSE {
        Some("X"@)
    } else if id == W_SEARCH {
        Some("SEARCH"@)
    } else if id == W_REFINE {
        Some("REFINE"@)
    } else if id == W_RESET {
        Some("RESET"@)
    } else if id == W_SET {
        Some("SET"@)
    } else if id == W_SET_ALL {
        Some(
            if ui.bulk_preview {
                "CONFIRM"@
            } else {
                "SET ALL"@
            },
        )
    } else if id == W_FREEZE {
        Some("FREEZE"@)
    } else if id == W_UNFREEZE {
        Some("UNFRZ"@)
    } else if id == W_DUMP {
        Some("DUMP"@)
    } else if id == W_SAVE {
        Some("SAVE HACK"@)
    } else if id == W_SCROLL_UP {
        Some("^"@)
    } else if id == W_SCROLL_DOWN {
        Some("v"@)
    } else if W_KEY_BASE <= id < W_KEY_BASE + 16 {
        Some(key_label(key_at(id - W_KEY_BASE)))
    } else {
        None
    }
}

/// The label of a key.
pub open spec fn key_label(key: Option<char>) -> Seq<char> {
    match key {
        None => Seq::empty(),
        Some(key) => if key == KEY_DELETE {
            "DEL"@
        } else if key == KEY_CLEAR {
            "CLR"@
        } else {
            seq![key]
        },
    }
}

pub open spec fn name_of_type(vtype: VType) -> Seq<char> {
    match vtype {
        VType::U8 => "U8"@,
        VType::I8 => "I8"@,
        VType::U16 => "U16"@,
        VType::I16 => "I16"@,
        VType::U32 => "U32"@,
        VType::I32 => "I32"@,
        VType::F32 => "F32"@,
        VType::Auto => "AUTO"@,
    }
}

/// What a row of results says, before the value: the address and the type.
pub open spec fn row_text(result: SearchResult) -> Seq<char> {
    "0x"@ + fixed_hex(result.addr as nat, 8) + " "@ + name_of_type(result.vtype) + " "@
}

/// What a widget shows. A row without a result shows nothing.
pub open spec fn widget_item(ui: UiView, id: u16, index: usize) -> Option<ItemView> {
    let plain = ItemView {
        spot: Spot::Widget(index),
        fill: Some(Role::Widget),
        text: Seq::empty(),
        text_role: Role::Text,
        style: TextStyle::Centered,
        value: None,
    };
    if action_label(ui, id) is Some {
        Some(ItemView { text: action_label(ui, id).unwrap(), ..plain })
    } else if id == W_TYPE {
        Some(
            ItemView {
                text: "TYPE: "@ + name_of_type(ui.vtype),
                style: TextStyle::Left,
                ..plain
            },
        )
    } else if id == W_FIELD_SEARCH {
        Some(
            ItemView {
                text: "VAL: "@ + ui.search_text + "_"@,
                fill: Some(field_role(ui.focus == Focus::Search)),
                style: TextStyle::Left,
                ..plain
            },
        )
    } else if id == W_FIELD_SET {
        Some(
            ItemView {
                text: "SET: "@ + ui.set_text + "_"@,
                fill: Some(field_role(ui.focus == Focus::SetField)),
                style: TextStyle::Left,
                ..plain
            },
        )
    } else if W_RESULT_BASE <= id < W_RESULT_BASE + RESULT_ROWS {
        let row = ui.scroll + (id - W_RESULT_BASE);
        if row < ui.results.len() {
            let result = ui.results[row];
            Some(
                ItemView {
                    text: row_text(result),
                    fill: Some(field_role(ui.selected == Some(result.addr))),
                    style: TextStyle::Row,
                    value: Some((result.vtype, result.bits)),
                    ..plain
                },
            )
        } else {
            None
        }
    } else {
        None
    }
}

pub open spec fn field_role(selected: bool) -> Role {
    if selected {
        Role::Selected
    } else {
        Role::Field
    }
}

/// What the first `count` widgets show.
pub open spec fn widget_items(ui: UiView, count: int) -> Seq<ItemView>
    decreases count,
{
    if count <= 0 {
        Seq::empty()
    } else {
        let rest = widget_items(ui, count - 1);
        match widget_item(ui, panel_places()[count - 1].id, (count - 1) as usize) {
            Some(item) => rest.push(item),
            None => rest,
        }
    }
}

/// What the button shows.
pub open spec fn button_item(ui: UiView) -> ItemView {
    ItemView {
        spot: Spot::Button,
        fill: Some(
            if ui.pending == Some(W_BUTTON) || ui.open {
                Role::WidgetLit
            } else {
                Role::Accent
            },
        ),
        text: if ui.open {
            "X"@
        } else {
            "GG"@
        },
        text_role: Role::Text,
        style: TextStyle::Centered,
        value: None,
    }
}

/// The panel itself, with its title.
pub open spec fn title_item() -> ItemView {
    ItemView {
        spot: Spot::Panel,
        fill: Some(Role::Panel),
        text: "GameGuardian"@,
        text_role: Role::Accent,
        style: TextStyle::Left,
        value: None,
    }
}

/// How many results there are.
pub open spec fn header_item(ui: UiView) -> ItemView {
    ItemView {
        spot: Spot::ResultsHeader,
        fill: None,
        text: "RESULTS "@ + decimal_text(ui.total_results) + " FROZEN "@ + decimal_text(
            ui.frozen_count,
        ),
        text_role: Role::TextDim,
        style: TextStyle::Row,
        value: None,
    }
}

pub open spec fn status_item(ui: UiView) -> ItemView {
    ItemView {
        spot: Spot::Status,
        fill: None,
        text: ui.status,
        text_role: Role::Accent,
        style: TextStyle::Row,
        value: None,
    }
}

/// All that is shown, in the order in which it is drawn.
pub open spec fn shown_items(ui: UiView) -> Seq<ItemView> {
    let button = seq![button_item(ui)];
    if !ui.open {
        button
    } else {
        let panel = button + seq![title_item()] + widget_items(ui, panel_places().len() as int)
            + seq![header_item(ui)];
        if ui.status.len() == 0 {
            panel
        } else {
            panel + seq![status_item(ui)]
        }
    }
}

/// The label of a widget that is pressed.
fn label_of(ui: &TrainerUi, id: u16) -> (label: Option<String>)
    ensures
        match label {
            Some(label) => action_label(ui@, id) == Some(label@),
            None => action_label(ui@, id) is None,
        },
{
    if id >= W_KEY_BASE && id < W_KEY_BASE + 16 {
        return Some(label_of_key(keypad(id - W_KEY_BASE)));
    }
    let label: &str = if id == W_CLOSE {
        "X"
    } else if id == W_SEARCH {
        "SEARCH"
    } else if id == W_REFINE {
        "REFINE"
    } else if id == W_RESET {
        "RESET"
    } else if id == W_SET {
        "SET"
    } else if id == W_SET_ALL {
        if ui.bulk_preview {
            "CONFIRM"
        } else {
            "SET ALL"
        }
    } else if id == W_FREEZE {
        "FREEZE"
    } else if id == W_UNFREEZE {
        "UNFRZ"
    } else if id == W_DUMP {
        "DUMP"
    } else if id == W_SAVE {
        "SAVE HACK"
    } else if id == W_SCROLL_UP {
        "^"
    } else if id == W_SCROLL_DOWN {
        "v"
    } else {
        return None;
    };
    Some(label.to_string())
}

fn label_of_key(key: Option<char>) -> (label: String)
    ensures
        label@ == key_label(key),
{
    match key {
        None => {
            let label = String::new();
            assert(label@ =~= Seq::empty());
            label
        },
        Some(key) => {
            if key == KEY_DELETE {
                "DEL".to_string()
            } else if key == KEY_CLEAR {
                "CLR".to_string()
            } else {
                let mut label = String::new();
                label.push(key);
                assert(label@ =~= seq![key]);
                label
            }
        },
    }
}

fn role_of_field(selected: bool) -> (role: Role)
    ensures
        role == field_role(selected),
{
    if selected {
        Role::Selected
    } else {
        Role::Field
    }
}

/// What a row of results shows.
fn row_item(ui: &TrainerUi, id: u16, index: usize) -> (item: Option<Item>)
    requires
        ui@.wf(),
        W_RESULT_BASE <= id < W_RESULT_BASE + RESULT_ROWS,
    ensures
        match item {
            Some(item) => widget_item(ui@, id, index) == Some(item@),
            None => widget_item(ui@, id, index) is None,
        },
{
    let row: usize = ui.scroll + (id - W_RESULT_BASE) as usize;
    if row >= ui.results.len() {
        return None;
    }
    let result = ui.results[row];
    let mut text = "0x".to_string();
    push_fixed_hex(&mut text, result.addr, 8);
    text.append(" ");
    text.append(result.vtype.name());
    text.append(" ");
    let selected = match ui.selected {
        Some(addr) => addr == result.addr,
        None => false,
    };
    let item = Item {
        spot: Spot::Widget(index),
        fill: Some(role_of_field(selected)),
        text,
        text_role: Role::Text,
        style: TextStyle::Row,
        value: Some((result.vtype, result.bits)),
    };
    assert(item@.text == row_text(result));
    Some(item)
}

/// What a field shows: what it is for, its text and a cursor.
fn field_text(label: &str, content: &str) -> (text: String)
    ensures
        text@ == label@ + content@ + "_"@,
{
    let mut text = label.to_string();
    text.append(content);
    text.append("_");
    text
}

/// What a widget shows.
fn item_of_widget(ui: &TrainerUi, id: u16, index: usize) -> (item: Option<Item>)
    requires
        ui@.wf(),
    ensures
        match item {
            Some(item) => widget_item(ui@, id, index) == Some(item@),
            None => widget_item(ui@, id, index) is None,
        },
{
    let label = label_of(ui, id);
    if let Some(text) = label {
        return Some(
            Item {
                spot: Spot::Widget(index),
                fill: Some(Role::Widget),
                text,
                text_role: Role::Text,
                style: TextStyle::Centered,
                value: None,
            },
        );
    }
    if id >= W_RESULT_BASE && id < W_RESULT_BASE + 5 {
        return row_item(ui, id, index);
    }
    let (text, fill) = if id == W_TYPE {
        let mut text = "TYPE: ".to_string();
        text.append(ui.vtype.name());
        (text, Role::Widget)
    } else if id == W_FIELD_SEARCH {
        (
            field_text("VAL: ", ui.search_text.as_str()),
            role_of_field(ui.focus == Focus::Search),
        )
    } else if id == W_FIELD_SET {
        (field_text("SET: ", ui.set_text.as_str()), role_of_field(ui.focus == Focus::SetField))
    } else {
        return None;
    };
    Some(
        Item {
            spot: Spot::Widget(index),
            fill: Some(fill),
            text,
            text_role: Role::Text,
            style: TextStyle::Left,
            value: None,
        },
    )
}

/// All that is shown of the button and the panel, in the order in which it is
/// drawn.
pub fn draw_items(ui: &TrainerUi) -> (items: Vec<Item>)
    requires
        ui@.wf(),
    ensures
        item_views(items@) == shown_items(ui@),
{
    let mut items: Vec<Item> = Vec::new();
    let pressed = match ui.pending {
        Some(id) => id == W_BUTTON,
        None => false,
    };
    let fill = if pressed || ui.open {
        Role::WidgetLit
    } else {
        Role::Accent
    };
    let label = if ui.open {
        "X"
    } else {
        "GG"
    };
    items.push(
        Item {
            spot: Spot::Button,
            fill: Some(fill),
            text: label.to_string(),
            text_role: Role::Text,
            style: TextStyle::Centered,
            value: None,
        },
    );
    assert(item_views(items@) =~= seq![button_item(ui@)]);
    if !ui.open {
        return items;
    }
    items.push(
        Item {
            spot: Spot::Panel,
            fill: Some(Role::Panel),
            text: "GameGuardian".to_string(),
            text_role: Role::Accent,
            style: TextStyle::Left,
            value: None,
        },
    );
    let ghost start = seq![button_item(ui@)] + seq![title_item()];
    assert(item_views(items@) =~= start + widget_items(ui@, 0));
    let widgets = panel_widgets();
    let mut i: usize = 0;
    while i < widgets.len()
        invariant
            ui@.wf(),
            i <= widgets@.len(),
            widgets@ == panel_places(),
            item_views(items@) == start + widget_items(ui@, i as int),
        decreases widgets@.len() - i,
    {
        let ghost before = items@;
        if let Some(item) = item_of_widget(ui, widgets[i].id, i) {
            items.push(item);
            assert(item_views(items@) =~= item_views(before).push(item@));
        }
        assert(item_views(items@) =~= start + widget_items(ui@, i + 1));
        i = i + 1;
    }
    let mut header = "RESULTS ".to_string();
    push_decimal(&mut header, ui.total_results);
    header.append(" FROZEN ");
    push_decimal(&mut header, ui.frozen_count);
    let ghost before_header = items@;
    items.push(
        Item {
            spot: Spot::ResultsHeader,
            fill: None,
            text: header,
            text_role: Role::TextDim,
            style: TextStyle::Row,
            value: None,
        },
    );
    assert(item_views(items@) =~= item_views(before_header) + seq![header_item(ui@)]);
    if ui.status.as_str().unicode_len() > 0 {
        let ghost before_status = items@;
        items.push(
            Item {
                spot: Spot::Status,
                fill: None,
                text: ui.status.as_str().to_string(),
                text_role: Role::Accent,
                style: TextStyle::Row,
                value: None,
            },
        );
        assert(item_views(items@) =~= item_views(before_status) + seq![status_item(ui@)]);
    }
    items
}

/// The panel offers a confirmation exactly while a preview is shown.
pub proof fn confirm_label_tells_of_preview(ui: UiView)
    ensures
        action_label(ui, W_SET_ALL) == Some("CONFIRM"@) <==> ui.bulk_preview,
{
    reveal_strlit("CONFIRM");
    reveal_strlit("SET ALL");
    assert("CONFIRM"@[0] != "SET ALL"@[0]);
}

/// The characters that can be drawn are numbered from the space on.
pub fn char_index(ch: char) -> (index: Option<usize>)
    ensures
        index == if 32 <= ch as u32 <= 126 {
            Some((ch as u32 - 32) as usize)
        } else {
            None
        },
{
    let code: u32 = ch as u32;
    if code >= 32 && code <= 126 {
        Some((code - 32) as usize)
    } else {
        None
    }
}

} // verus!
