use touchhle::trainer::{SearchResult, VType};
use touchhle::trainer_ui::layout::{
    keypad, panel_widgets, KEY_CLEAR, KEY_DELETE, PANEL_HEIGHT, W_BUTTON, W_CLOSE, W_FIELD_SEARCH,
    W_FIELD_SET, W_FREEZE, W_KEY_BASE, W_REFINE, W_RESET, W_RESULT_BASE, W_SAVE, W_SCROLL_DOWN,
    W_SCROLL_UP, W_SEARCH, W_SET, W_SET_ALL, W_TYPE, W_UNFREEZE,
};
use touchhle::trainer_ui::panel::{char_index, draw_items, Role, Spot, TextStyle};
use touchhle::trainer_ui::{
    activate_widget, overlay_active, publish_bulk_preview, publish_frozen, publish_results, publish_status,
    reset_for_app, selected_address, set_hardware_enabled, take_commands, touch_down, touch_motion,
    touch_up, Focus, Overlay, TouchHit, TrainerCmd,
};

fn results(count: u32) -> Vec<SearchResult> {
    (0..count)
        .map(|i| SearchResult { addr: 0x1000 + i, vtype: VType::U8, bits: i as u64 % 256, changed: false })
        .collect()
}

fn press(overlay: &mut Overlay, keys: &[u16]) {
    for key in keys {
        activate_widget(overlay, W_KEY_BASE + key);
    }
}

#[test]
fn keys_type_into_the_focused_field() {
    let mut overlay = Overlay::new();
    press(&mut overlay, &[12, 0, 1, 11, 5]);
    assert_eq!(overlay.ui.search_text, "-12.5");
    activate_widget(&mut overlay, W_FIELD_SET);
    assert_eq!(overlay.ui.focus, Focus::SetField);
    press(&mut overlay, &[13, 13, 3]);
    assert_eq!(overlay.ui.set_text, "0");
    press(&mut overlay, &[7, 3, 14, 15]);
    assert_eq!(overlay.ui.set_text, "");
    for _ in 0..20 {
        press(&mut overlay, &[10]);
    }
    assert_eq!(overlay.ui.set_text, "9".repeat(15));
    activate_widget(&mut overlay, W_FIELD_SEARCH);
    press(&mut overlay, &[3]);
    assert_eq!(overlay.ui.search_text, "-12.");
    assert_eq!(keypad(3), Some(KEY_DELETE));
    assert_eq!(keypad(7), Some(KEY_CLEAR));
    assert_eq!(keypad(14), None);
}

#[test]
fn widgets_queue_their_commands() {
    let mut overlay = Overlay::new();
    overlay.ui.search_text = " 5 ".to_string();
    overlay.ui.set_text = "\u{3000}7\t".to_string();
    for id in [W_SEARCH, W_REFINE, W_RESET, W_SET, W_FREEZE, W_UNFREEZE, W_SAVE, W_SET_ALL] {
        activate_widget(&mut overlay, id);
    }
    let vtype = VType::I32;
    assert_eq!(
        take_commands(&mut overlay),
        [
            TrainerCmd::Search { vtype, text: "5".to_string() },
            TrainerCmd::Refine { vtype, text: "5".to_string() },
            TrainerCmd::Reset,
            TrainerCmd::SetValue { vtype, text: "7".to_string() },
            TrainerCmd::Freeze { vtype, text: "7".to_string() },
            TrainerCmd::UnfreezeAll,
            TrainerCmd::SaveHack { vtype },
            TrainerCmd::SetAll { vtype, text: "7".to_string(), confirm: false, safe_mode: true },
        ]
    );
    assert!(take_commands(&mut overlay).is_empty());
    activate_widget(&mut overlay, 999);
    assert!(overlay.commands.is_empty());
    activate_widget(&mut overlay, W_TYPE);
    assert_eq!(overlay.ui.vtype, VType::F32);
}

#[test]
fn results_scroll_within_bounds() {
    let mut overlay = Overlay::new();
    publish_results(&mut overlay, &results(12), 12);
    activate_widget(&mut overlay, W_SCROLL_DOWN);
    assert_eq!(overlay.ui.scroll, 5);
    activate_widget(&mut overlay, W_SCROLL_DOWN);
    assert_eq!(overlay.ui.scroll, 7);
    activate_widget(&mut overlay, W_SCROLL_DOWN);
    assert_eq!(overlay.ui.scroll, 7);
    activate_widget(&mut overlay, W_RESULT_BASE + 4);
    assert_eq!(selected_address(&overlay), Some(0x100b));
    assert_eq!(overlay.ui.status, "SELECTED 0x100B");
    activate_widget(&mut overlay, W_SCROLL_UP);
    activate_widget(&mut overlay, W_SCROLL_UP);
    assert_eq!(overlay.ui.scroll, 0);
    publish_results(&mut overlay, &results(3), 3);
    activate_widget(&mut overlay, W_SCROLL_DOWN);
    assert_eq!(overlay.ui.scroll, 0);
    activate_widget(&mut overlay, W_RESULT_BASE + 3);
    assert_eq!(selected_address(&overlay), Some(0x100b));
    publish_results(&mut overlay, &results(250), 250);
    assert_eq!(overlay.ui.results.len(), 200);
    assert_eq!(overlay.ui.total_results, 250);
}

#[test]
fn a_new_app_starts_afresh() {
    let mut overlay = Overlay::new();
    assert!(!overlay_active(&overlay));
    overlay.ui.open = true;
    overlay.ui.search_text = "1".to_string();
    publish_bulk_preview(&mut overlay);
    assert!(overlay.ui.bulk_preview);
    activate_widget(&mut overlay, W_TYPE);
    assert!(!overlay.ui.bulk_preview);
    publish_bulk_preview(&mut overlay);
    publish_status(&mut overlay, "HELLO".to_string());
    publish_frozen(&mut overlay, 3);
    publish_results(&mut overlay, &results(3), 3);
    reset_for_app(&mut overlay, Some("app"));
    assert!(overlay_active(&overlay));
    assert_eq!(overlay.ui.app_id.as_deref(), Some("app"));
    assert!(!overlay.ui.open && !overlay.ui.bulk_preview);
    assert_eq!(overlay.ui.search_text, "");
    assert_eq!(overlay.ui.status, "");
    assert_eq!((overlay.ui.frozen_count, overlay.ui.total_results), (0, 0));
    assert_eq!(overlay.ui.vtype, VType::F32);
    set_hardware_enabled(&mut overlay, false);
    assert!(!overlay_active(&overlay));
    set_hardware_enabled(&mut overlay, true);
    reset_for_app(&mut overlay, None);
    assert!(!overlay_active(&overlay));
}

fn on_button() -> TouchHit {
    TouchHit { on_button: true, on_panel: None, widgets: vec![] }
}

fn on_widgets(widgets: &[u16]) -> TouchHit {
    TouchHit { on_button: false, on_panel: Some(true), widgets: widgets.to_vec() }
}

fn nowhere() -> TouchHit {
    TouchHit { on_button: false, on_panel: Some(false), widgets: vec![] }
}

#[test]
fn touches_press_widgets() {
    let mut overlay = Overlay::new();
    assert!(!touch_down(&mut overlay, &on_button()));
    assert!(!touch_up(&mut overlay, &on_button()));
    assert!(!touch_motion(&overlay));
    reset_for_app(&mut overlay, Some("app"));
    assert!(touch_down(&mut overlay, &on_button()));
    assert!(touch_motion(&overlay));
    assert!(touch_up(&mut overlay, &on_button()));
    assert!(overlay.ui.open);
    // Outside, the game has the touch.
    assert!(!touch_down(&mut overlay, &nowhere()));
    assert!(!touch_up(&mut overlay, &nowhere()));
    // Inside but not on a widget, nobody has it.
    assert!(touch_down(&mut overlay, &on_widgets(&[])));
    assert!(!touch_motion(&overlay));
    assert!(touch_up(&mut overlay, &on_widgets(&[])));
    // Released elsewhere, nothing happens.
    assert!(touch_down(&mut overlay, &on_widgets(&[W_CLOSE, W_TYPE])));
    assert_eq!(overlay.ui.pending, Some(W_CLOSE));
    assert!(touch_up(&mut overlay, &on_widgets(&[W_TYPE])));
    assert!(overlay.ui.open && overlay.ui.pending.is_none());
    assert!(touch_down(&mut overlay, &on_widgets(&[W_CLOSE])));
    assert!(touch_up(&mut overlay, &on_widgets(&[W_TYPE, W_CLOSE])));
    assert!(!overlay.ui.open);
}

#[test]
fn the_closed_panel_shows_its_button() {
    let mut overlay = Overlay::new();
    let items = draw_items(&overlay.ui);
    assert_eq!(items.len(), 1);
    assert_eq!((items[0].spot, items[0].fill, items[0].text.as_str()), (Spot::Button, Some(Role::Accent), "GG"));
    overlay.ui.pending = Some(W_BUTTON);
    assert_eq!(draw_items(&overlay.ui)[0].fill, Some(Role::WidgetLit));
}

#[test]
fn the_open_panel_shows_its_widgets() {
    let mut overlay = Overlay::new();
    overlay.ui.open = true;
    overlay.ui.search_text = "12".to_string();
    publish_results(&mut overlay, &results(2), 2);
    publish_frozen(&mut overlay, 10);
    overlay.ui.selected = Some(0x1001);
    let items = draw_items(&overlay.ui);
    let texts: Vec<&str> = items.iter().map(|i| i.text.as_str()).collect();
    for text in [
        "X", "GameGuardian", "TYPE: I32", "VAL: 12_", "SET: _", "DEL", "CLR", "7", "SEARCH", "UNFRZ", "SET ALL",
        "SAVE HACK", "^", "v", "0x00001000 U8 ", "0x00001001 U8 ", "RESULTS 2 FROZEN 10",
    ] {
        assert!(texts.contains(&text), "{text}");
    }
    // One item for the button, the panel and each widget with something to
    // show, and the header.
    assert_eq!(items.len(), 2 + (panel_widgets().len() - 3) + 1);
    let row = items.iter().find(|i| i.text == "0x00001001 U8 ").unwrap();
    assert_eq!((row.fill, row.style, row.value), (Some(Role::Selected), TextStyle::Row, Some((VType::U8, 1))));
    overlay.ui.bulk_preview = true;
    publish_status(&mut overlay, "READY".to_string());
    let items = draw_items(&overlay.ui);
    assert!(items.iter().any(|i| i.text == "CONFIRM"));
    let last = items.last().unwrap();
    assert_eq!((last.spot, last.text.as_str()), (Spot::Status, "READY"));
    assert!(panel_widgets().iter().all(|w| w.top + w.height <= PANEL_HEIGHT));
}

#[test]
fn characters_are_numbered_from_the_space() {
    assert_eq!(char_index(' '), Some(0));
    assert_eq!(char_index('A'), Some(33));
    assert_eq!(char_index('~'), Some(94));
    assert_eq!(char_index('\n'), None);
    assert_eq!(char_index('é'), None);
}
