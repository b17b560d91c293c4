//! Which widgets the panel has, and where.
use vstd::prelude::*;

verus! {

pub const W_BUTTON: u16 = 1;

pub const W_CLOSE: u16 = 2;

pub const W_TYPE: u16 = 3;

pub const W_FIELD_SEARCH: u16 = 4;

pub const W_FIELD_SET: u16 = 5;

pub const W_SEARCH: u16 = 6;

pub const W_REFINE: u16 = 7;

pub const W_RESET: u16 = 8;

pub const W_SET: u16 = 9;

pub const W_FREEZE: u16 = 10;

pub const W_UNFREEZE: u16 = 11;

pub const W_DUMP: u16 = 12;

pub const W_SAVE: u16 = 13;

pub const W_SCROLL_UP: u16 = 14;

pub const W_SCROLL_DOWN: u16 = 15;

pub const W_SET_ALL: u16 = 16;

/// The first row of results. The others follow.
pub const W_RESULT_BASE: u16 = 32;

/// The first key of the keypad. The others follow, row by row.
pub const W_KEY_BASE: u16 = 64;

/// Number of results that are shown at a time.
pub const RESULT_ROWS: usize = 5;

/// The key that deletes a character.
pub const KEY_DELETE: char = '\u{8}';

/// The key that deletes the whole text.
pub const KEY_CLEAR: char = '\u{4}';

/// The keys of the keypad, four to a row: digits, sign and editing keys.
pub open spec fn key_at(index: int) -> Option<char> {
    if index == 0 {
        Some('1')
    } else if index == 1 {
        Some('2')
    } else if index == 2 {
        Some('3')
    } else if index == 3 {
        Some(KEY_DELETE)
    } else if index == 4 {
        Some('4')
    } else if index == 5 {
        Some('5')
    } else if index == 6 {
        Some('6')
    } else if index == 7 {
        Some(KEY_CLEAR)
    } else if index == 8 {
        Some('7')
    } else if index == 9 {
        Some('8')
    } else if index == 10 {
        Some('9')
    } else if index == 11 {
        Some('.')
    } else if index == 12 {
        Some('-')
    } else if index == 13 {
        Some('0')
    } else {
        None
    }
}

/// The key at a place of the keypad.
pub fn keypad(index: u16) -> (key: Option<char>)
    ensures
        key == key_at(index as int),
{
    match index {
        0 => Some('1'),
        1 => Some('2'),
        2 => Some('3'),
        3 => Some(KEY_DELETE),
        4 => Some('4'),
        5 => Some('5'),
        6 => Some('6'),
        7 => Some(KEY_CLEAR),
        8 => Some('7'),
        9 => Some('8'),
        10 => Some('9'),
        11 => Some('.'),
        12 => Some('-'),
        13 => Some('0'),
        _ => None,
    }
}

/// Where a widget is, relative to the panel.
///
/// Vertical measures are in units, which grow with the height of the screen.
/// Horizontal ones are in twelfths of the width of the panel, plus twelfths of
/// a unit.
#[derive(Clone, Copy, Debug, PartialEq, Eq, Structural)]
pub struct Place {
    pub id: u16,
    pub top: u32,
    pub height: u32,
    pub left_panel: i32,
    pub left_units: i32,
    pub width_panel: i32,
    pub width_units: i32,
}

/// Height of the panel, in units.
pub const PANEL_HEIGHT: u32 = 441;

/// Where the header of the results is, in units.
pub const RESULTS_HEADER_TOP: u32 = 220;

/// Where the status line is, in units.
pub const STATUS_TOP: u32 = 423;

/// A widget as wide as the panel.
pub open spec fn wide_place(id: u16, top: int, height: int) -> Place {
    Place {
        id,
        top: top as u32,
        height: height as u32,
        left_panel: 0,
        left_units: 72,
        width_panel: 12,
        width_units: (-144) as i32,
    }
}

/// One of three widgets side by side.
pub open spec fn third_place(id: u16, top: int, column: int) -> Place {
    Place {
        id,
        top: top as u32,
        height: 24,
        left_panel: (4 * column) as i32,
        left_units: (72 - 32 * column) as i32,
        width_panel: 4,
        width_units: (-80) as i32,
    }
}

/// A small square widget, counted from the right edge of the panel.
pub open spec fn corner_place(id: u16, top: int, size: int, from_right: int) -> Place {
    Place {
        id,
        top: top as u32,
        height: size as u32,
        left_panel: 12,
        left_units: (-12 * from_right) as i32,
        width_panel: 0,
        width_units: (12 * size) as i32,
    }
}

/// A key of the keypad.
pub open spec fn key_place(index: int) -> Place {
    Place {
        id: (W_KEY_BASE + index) as u16,
        top: (84 + 26 * (index / 4)) as u32,
        height: 26,
        left_panel: (3 * (index % 4)) as i32,
        left_units: (72 - 36 * (index % 4)) as i32,
        width_panel: 3,
        width_units: (-36) as i32,
    }
}

/// The widgets above the keypad.
pub open spec fn top_places() -> Seq<Place> {
    seq![
        corner_place(W_CLOSE, 4, 20, 24),
        Place {
            id: W_TYPE,
            top: 28,
            height: 24,
            left_panel: 0,
            left_units: 72,
            width_panel: 0,
            width_units: 1320,
        },
        wide_place(W_FIELD_SEARCH, 56, 24),
    ]
}

/// The keys, as far as there are any.
pub open spec fn key_places() -> Seq<Place> {
    Seq::new(14, |i: int| key_place(i))
}

/// The widgets between the keypad and the rows of results.
pub open spec fn search_places() -> Seq<Place> {
    seq![
        third_place(W_SEARCH, 192, 0),
        third_place(W_REFINE, 192, 1),
        third_place(W_RESET, 192, 2),
        corner_place(W_SCROLL_UP, 220, 18, 42),
        corner_place(W_SCROLL_DOWN, 220, 18, 21),
    ]
}

/// The rows of results.
pub open spec fn result_places() -> Seq<Place> {
    Seq::new(
        RESULT_ROWS as nat,
        |i: int| wide_place((W_RESULT_BASE + i) as u16, 240 + 18 * i, 18),
    )
}

/// The widgets below the rows of results.
pub open spec fn edit_places() -> Seq<Place> {
    seq![
        wide_place(W_FIELD_SET, 333, 24),
        third_place(W_SET, 361, 0),
        third_place(W_FREEZE, 361, 1),
        third_place(W_UNFREEZE, 361, 2),
        third_place(W_SET_ALL, 389, 0),
        third_place(W_DUMP, 389, 1),
        third_place(W_SAVE, 389, 2),
    ]
}

/// All widgets of the panel, from top to bottom.
pub open spec fn panel_places() -> Seq<Place> {
    top_places() + key_places() + search_places() + result_places() + edit_places()
}

fn place_wide(id: u16, top: u32, height: u32) -> (place: Place)
    ensures
        place == wide_place(id, top as int, height as int),
{
    Place { id, top, height, left_panel: 0, left_units: 72, width_panel: 12, width_units: -144 }
}

fn place_third(id: u16, top: u32, column: i32) -> (place: Place)
    requires
        0 <= column < 3,
    ensures
        place == third_place(id, top as int, column as int),
{
    Place {
        id,
        top,
        height: 24,
        left_panel: 4 * column,
        left_units: 72 - 32 * column,
        width_panel: 4,
        width_units: -80,
    }
}

fn place_corner(id: u16, top: u32, size: u32, from_right: i32) -> (place: Place)
    requires
        size <= 100,
        0 <= from_right <= 100,
    ensures
        place == corner_place(id, top as int, size as int, from_right as int),
{
    Place {
        id,
        top,
        height: size,
        left_panel: 12,
        left_units: -12 * from_right,
        width_panel: 0,
        width_units: 12 * size as i32,
    }
}

/// The widgets of the open panel, from top to bottom.
pub fn panel_widgets() -> (places: Vec<Place>)
    ensures
        places@ == panel_places(),
{
    let mut places: Vec<Place> = Vec::new();
    places.push(place_corner(W_CLOSE, 4, 20, 24));
    places.push(
        Place {
            id: W_TYPE,
            top: 28,
            height: 24,
            left_panel: 0,
            left_units: 72,
            width_panel: 0,
            width_units: 1320,
        },
    );
    places.push(place_wide(W_FIELD_SEARCH, 56, 24));
    assert(places@ =~= top_places());
    let mut key: u16 = 0;
    while key < 14
        invariant
            key <= 14,
            places@ == top_places() + key_places().take(key as int),
        decreases 14 - key,
    {
        places.push(
            Place {
                id: W_KEY_BASE + key,
                top: (84 + 26 * (key / 4)) as u32,
                height: 26,
                left_panel: (3 * (key % 4)) as i32,
                left_units: 72 - 36 * ((key % 4) as i32),
                width_panel: 3,
                width_units: -36,
            },
        );
        assert(places@ =~= top_places() + key_places().take(key + 1));
        key = key + 1;
    }
    assert(places@ =~= top_places() + key_places());
    places.push(place_third(W_SEARCH, 192, 0));
    places.push(place_third(W_REFINE, 192, 1));
    places.push(place_third(W_RESET, 192, 2));
    places.push(place_corner(W_SCROLL_UP, 220, 18, 42));
    places.push(place_corner(W_SCROLL_DOWN, 220, 18, 21));
    assert(places@ =~= top_places() + key_places() + search_places());
    let ghost before = places@;
    let mut row: u16 = 0;
    while row < 5
        invariant
            row <= 5,
            before == top_places() + key_places() + search_places(),
            places@ == before + result_places().take(row as int),
        decreases 5 - row,
    {
        places.push(place_wide(W_RESULT_BASE + row, 240 + 18 * (row as u32), 18));
        assert(places@ =~= before + result_places().take(row + 1));
        row = row + 1;
    }
    places.push(place_wide(W_FIELD_SET, 333, 24));
    places.push(place_third(W_SET, 361, 0));
    places.push(place_third(W_FREEZE, 361, 1));
    places.push(place_third(W_UNFREEZE, 361, 2));
    places.push(place_third(W_SET_ALL, 389, 0));
    places.push(place_third(W_DUMP, 389, 1));
    places.push(place_third(W_SAVE, 389, 2));
    assert(places@ =~= panel_places());
    places
}

/// No two widgets of the panel have the same id, and each one has an action.
pub proof fn widget_ids_unique(i: int, j: int)
    requires
        0 <= i < j < panel_places().len(),
    ensures
        panel_places()[i].id != panel_places()[j].id,
        panel_places()[i].id != W_BUTTON,
        panel_places()[j].id != W_BUTTON,
{
}

/// The header of the results is level with the scroll buttons, below the
/// keypad and above the rows, and everything is inside the panel.
pub proof fn results_below_keypad(i: int)
    requires
        0 <= i < panel_places().len(),
    ensures
        ({
            let place = panel_places()[i];
            &&& place.top + place.height <= PANEL_HEIGHT
            &&& place.id == W_SCROLL_UP || place.id == W_SCROLL_DOWN ==> place.top
                == RESULTS_HEADER_TOP
            &&& W_KEY_BASE <= place.id < W_KEY_BASE + 16 ==> place.top + place.height
                <= RESULTS_HEADER_TOP
            &&& W_RESULT_BASE <= place.id < W_RESULT_BASE + RESULT_ROWS ==> place.top
                > RESULTS_HEADER_TOP
        }),
{
}

/// There are widgets for setting all results and for dumping memory.
pub proof fn bulk_and_dump_widgets_exist()
    ensures
        exists|i: int| 0 <= i < panel_places().len() && (#[trigger] panel_places()[i]).id == W_SET_ALL,
        exists|i: int| 0 <= i < panel_places().len() && (#[trigger] panel_places()[i]).id == W_DUMP,
{
    assert(panel_places()[31].id == W_SET_ALL);
    assert(panel_places()[32].id == W_DUMP);
}

} // verus!
