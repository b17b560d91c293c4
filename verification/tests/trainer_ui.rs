use touchhle::trainer_ui::layout::{
    panel_widgets, RESULTS_HEADER_TOP, W_DUMP, W_KEY_BASE, W_SCROLL_UP, W_SET_ALL, W_TYPE,
};
use touchhle::trainer_ui::render::{push_rect, render_gles1, Color, OverlayOp, Quad, RectBits};
use touchhle::trainer_ui::{activate_widget, take_commands, Overlay, TrainerCmd};

#[derive(Debug, PartialEq)]
struct Draw {
    texture: Option<u32>,
    color: Color,
}

#[derive(Clone, Copy, Debug, PartialEq)]
enum TexEnvMode {
    Replace,
    Modulate,
}

/// Models the state left by present_frame, without needing a window or GPU.
struct RecordingGles {
    textured: bool,
    texture: u32,
    tex_env_mode: TexEnvMode,
    color: Color,
    draws: Vec<Draw>,
    saved_texture: u32,
    saved_tex_env_mode: TexEnvMode,
}

impl RecordingGles {
    fn run(&mut self, op: OverlayOp) {
        match op {
            OverlayOp::SaveTextureBinding => self.saved_texture = self.texture,
            OverlayOp::SaveTexEnvMode => self.saved_tex_env_mode = self.tex_env_mode,
            OverlayOp::RestoreTextureBinding => self.texture = self.saved_texture,
            OverlayOp::RestoreTexEnvMode => self.tex_env_mode = self.saved_tex_env_mode,
            OverlayOp::TexEnvModulate => self.tex_env_mode = TexEnvMode::Modulate,
            OverlayOp::EnableTexture => self.textured = true,
            OverlayOp::DisableTexture => self.textured = false,
            OverlayOp::BindTexture(texture) => self.texture = texture,
            OverlayOp::SetColor(color) => self.color = color,
            OverlayOp::DrawQuad(_) => {
                if self.textured {
                    assert_eq!(self.tex_env_mode, TexEnvMode::Modulate);
                }
                self.draws.push(Draw {
                    texture: if self.textured { Some(self.texture) } else { None },
                    color: self.color,
                });
            }
            _ => (),
        }
    }
}

fn color(r: f32, g: f32, b: f32, a: f32) -> Color {
    Color {
        r: r.to_bits(),
        g: g.to_bits(),
        b: b.to_bits(),
        a: a.to_bits(),
    }
}

#[test]
fn gles1_overlay_does_not_sample_the_presented_game_frame() {
    const GAME_TEXTURE: u32 = 7;
    const ATLAS_TEXTURE: u32 = 8;
    let mut quads = Vec::new();
    push_rect(
        &mut quads,
        RectBits {
            x: 10.0f32.to_bits(),
            y: 10.0f32.to_bits(),
            w: 32.0f32.to_bits(),
            h: 32.0f32.to_bits(),
        },
        color(0.0, 0.75, 0.35, 0.92),
    );
    let button = quads[0];
    let glyph = Quad {
        tex: ATLAS_TEXTURE,
        col: color(0.95, 0.95, 0.95, 1.0),
        ..button
    };
    // Initial solids, repeated glyphs, then a panel and another glyph.
    quads.extend([button, glyph, glyph, button, glyph]);

    // No cursor/FPS leaves texturing on; those overlays can leave it off.
    for textured in [true, false] {
        let mut gles = RecordingGles {
            textured,
            texture: GAME_TEXTURE,
            tex_env_mode: TexEnvMode::Replace,
            color: color(1.0, 1.0, 1.0, 1.0),
            draws: Vec::new(),
            saved_texture: 0,
            saved_tex_env_mode: TexEnvMode::Modulate,
        };
        for op in render_gles1(&quads) {
            gles.run(op);
        }
        let expected: Vec<_> = quads
            .iter()
            .map(|q| Draw {
                texture: (q.tex != 0).then_some(q.tex),
                color: q.col,
            })
            .collect();
        assert_eq!(gles.draws, expected);
        assert_eq!(gles.texture, GAME_TEXTURE);
        assert_eq!(gles.tex_env_mode, TexEnvMode::Replace);
        assert!(!gles.textured);
    }
}

#[test]
fn panel_has_unique_actions_and_results_header_below_keypad() {
    let widgets = panel_widgets();
    let ids: std::collections::HashSet<_> = widgets.iter().map(|w| w.id).collect();
    assert_eq!(ids.len(), widgets.len(), "duplicate widget IDs");
    assert_eq!(widgets.iter().filter(|w| w.id == W_SET_ALL).count(), 1);
    assert_eq!(widgets.iter().filter(|w| w.id == W_DUMP).count(), 1);
    let scroll = widgets.iter().find(|w| w.id == W_SCROLL_UP).unwrap();
    assert_eq!(RESULTS_HEADER_TOP, scroll.top);
    for widget in &widgets {
        if (W_KEY_BASE..W_KEY_BASE + 16).contains(&widget.id) {
            assert!(widget.top + widget.height <= RESULTS_HEADER_TOP);
        }
    }
}

#[test]
fn dump_and_safe_all_dispatch_distinct_commands() {
    let mut overlay = Overlay::new();
    overlay.ui.set_text = "999".to_string();
    take_commands(&mut overlay);
    activate_widget(&mut overlay, W_DUMP);
    let commands = take_commands(&mut overlay);
    assert!(matches!(commands.as_slice(), [TrainerCmd::CancelBulk, TrainerCmd::Dump]));
    activate_widget(&mut overlay, W_SET_ALL);
    let commands = take_commands(&mut overlay);
    assert!(matches!(commands.as_slice(), [TrainerCmd::SetAll { confirm: false, .. }]));
    overlay.ui.bulk_preview = true;
    activate_widget(&mut overlay, W_SET_ALL);
    let commands = take_commands(&mut overlay);
    assert!(matches!(commands.as_slice(), [TrainerCmd::SetAll { confirm: true, .. }]));
    // A second click before a new preview is drawn cannot confirm again.
    activate_widget(&mut overlay, W_SET_ALL);
    let commands = take_commands(&mut overlay);
    assert!(matches!(commands.as_slice(), [TrainerCmd::SetAll { confirm: false, .. }]));
    overlay.ui.bulk_preview = true;
    activate_widget(&mut overlay, W_TYPE);
    assert!(!overlay.ui.bulk_preview);
    assert!(matches!(take_commands(&mut overlay).as_slice(), [TrainerCmd::CancelBulk]));
}
