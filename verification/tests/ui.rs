use voxel_world::ui::{
    common_prefix, ellipsize, hud_text, visible_window, Anchor, Color, Completion, Crosshair,
    EditBuf, EditKey, HudElement, HudMode, Line, Panel, PanelDraw, Ring, Role, Row, TextInput,
};

#[test]
fn ring_drops_oldest_past_cap() {
    let mut r = Ring::new(2);
    r.push(1);
    r.push(2);
    r.push(3);
    assert_eq!(r.len(), 2);
    assert_eq!(r.get(0), Some(&2));
    assert_eq!(r.last(), Some(&3));
}

#[test]
fn anchor_resolves_edges_with_insets() {
    let screen = (800, 600);
    let size = (100, 20);
    assert_eq!(Anchor::TopLeft.origin(screen, size, (10, 12)), (10, 12));
    assert_eq!(Anchor::TopRight.origin(screen, size, (-12, 12)), (800 - 100 - 12, 12));
    assert_eq!(Anchor::Top.origin(screen, size, (0, 12)), ((800 - 100) / 2, 12));
}

#[test]
fn hud_text_joins_labels_and_panel_rows() {
    let elements = [
        HudElement::Label {
            at: Anchor::TopLeft,
            off: (0, 0),
            base_fs: 16,
            role: Role::Primary,
            text: "hello".to_string(),
        },
        HudElement::Panel(Panel {
            at: (0, 0),
            width: 100,
            header: vec![Row::new(Role::Primary, "head".to_string())],
            rows: vec![Row::new(Role::Muted, "body".to_string())],
        }),
    ];
    assert_eq!(hud_text(&elements), "hello\nhead\nbody\n");
}

#[test]
fn hud_mode_cycles_and_gates() {
    assert!(HudMode::Full.shows_info());
    assert!(!HudMode::Minimal.shows_info());
    assert!(HudMode::Minimal.shows_world_ui());
    assert!(!HudMode::Off.shows_world_ui());
    assert_eq!(HudMode::Off.next(), HudMode::Full);
    assert!(HudMode::Full.shows_minimap());
    assert!(!HudMode::Minimal.shows_minimap());
    assert!(!HudMode::Off.shows_minimap());
    assert!(HudMode::Full.shows_mod_hud());
    assert!(HudMode::Minimal.shows_mod_hud());
    assert!(!HudMode::Off.shows_mod_hud());
}

#[test]
fn common_prefix_of_candidates() {
    assert_eq!(common_prefix(&["tp", "teleport"]), "t");
    assert_eq!(common_prefix(&["gfx"]), "gfx");
    assert_eq!(common_prefix(&["pos", "gfx"]), "");
}

#[test]
fn ellipsize_and_visible_window_respect_hard_bounds() {
    assert_eq!(ellipsize("Copper+Glass", 9), "Copper...");
    assert_eq!(ellipsize("Iron", 9), "Iron");
    assert_eq!(visible_window(20, 10, 5), 8..13);
    assert_eq!(visible_window(20, 19, 5), 15..20);
    assert_eq!(visible_window(2, 1, 5), 0..2);
    assert_eq!(visible_window(2, 1, 0), 0..0);
}

#[test]
fn backspace_undoes_an_inserted_character() {
    let mut buf = EditBuf::with("h\u{e4}t", 8);
    assert_eq!(buf.caret_chars(), 3);
    assert_eq!(buf.cursor(), 4, "in bytes");
    buf.left();
    assert!(buf.insert_char('x'));
    assert_eq!(buf.text(), "h\u{e4}xt");
    assert!(buf.backspace());
    assert_eq!(buf.text(), "h\u{e4}t");
    assert_eq!(buf.caret_chars(), 2);
}

#[test]
fn a_full_buffer_refuses_characters() {
    let mut buf = EditBuf::with("abc", 3);
    assert!(!buf.insert_char('d'));
    assert_eq!(buf.text(), "abc");
    buf.home();
    buf.delete_forward();
    assert_eq!(buf.text(), "bc");
    buf.end();
    buf.delete_word();
    assert_eq!(buf.text(), "");
}

fn complete(word: &str) -> Completion {
    match word {
        "t" => Completion::Ambiguous("t".to_string(), vec!["tp".to_string(), "time".to_string()]),
        "g" => Completion::Full("gfx".to_string()),
        _ => Completion::Nothing,
    }
}

#[test]
fn history_gives_back_the_draft() {
    let mut input = TextInput::new(64).with_completer(complete);
    assert_eq!(input.handle(&['a', 'b'], Some(EditKey::Submit)), Some("ab".to_string()));
    assert_eq!(input.text(), "");
    input.handle(&['n', 'o', 'w'], None);
    input.handle(&[], Some(EditKey::HistoryUp));
    assert_eq!(input.text(), "ab");
    input.handle(&[], Some(EditKey::HistoryDown));
    assert_eq!(input.text(), "now");
}

#[test]
fn completion_fills_the_line_or_lists_candidates() {
    let mut input = TextInput::new(64).with_completer(complete);
    input.handle(&['g'], Some(EditKey::Complete));
    assert!(input.text().starts_with("gfx"));
    input.clear();
    input.handle(&['t'], Some(EditKey::Complete));
    assert_eq!(input.take_notice(), Some(vec!["tp".to_string(), "time".to_string()]));
    assert_eq!(input.take_notice(), None);
}

#[test]
fn lines_keep_their_spans_in_order() {
    let line = Line::of(Role::Primary, "a".to_string());
    assert_eq!(line.text(), "a");
    assert_eq!(line.spans().len(), 1);
}

#[test]
fn a_panel_draws_its_background_first() {
    let panel = Panel {
        at: (4, 6),
        width: 100,
        header: vec![Row::new(Role::Primary, "head".to_string())],
        rows: vec![Row::new(Role::Muted, "row".to_string())
            .with_swatch(Color { r: 1, g: 2, b: 3, a: 255 })],
    };
    let out = panel.draw();
    match &out[0] {
        PanelDraw::Background { x, y, w, h } => {
            assert_eq!((*x, *y, *w, *h), (4, 6, 100, panel.height()));
        }
        _ => panic!("the background comes first"),
    }
}

#[test]
fn the_crosshair_is_symmetric() {
    let c = Crosshair::default();
    let s = c.draw((800, 600));
    assert_eq!(s.len(), 4);
}
