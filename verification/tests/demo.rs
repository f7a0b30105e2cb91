use rendering_engine::demo::font::{char_glyph, digit_glyph, glyph_cells};
use rendering_engine::demo::streaming::{
    next_scan, plan_residency, upload_done, ChunkResidency, ResidencyAction, INVISIBLE_GRACE_FRAMES,
};
use rendering_engine::demo::touch::{set_button_key, ButtonId, Keys};
use rendering_engine::triple_buffer::TripleBuffer;

#[test]
fn glyph_tables() {
    assert_eq!(char_glyph('A'), Some([0b111, 0b101, 0b111, 0b101, 0b101]));
    assert_eq!(char_glyph('a'), Some([0b111, 0b101, 0b111, 0b101, 0b101]));
    assert_eq!(char_glyph('s'), Some([0b111, 0b100, 0b111, 0b001, 0b111]));
    assert_eq!(char_glyph('Z'), None);
    assert_eq!(digit_glyph(7), [0b111, 0b001, 0b010, 0b010, 0b010]);
}

#[test]
fn glyph_cells_lay_out_pixels() {
    let (cells, adv) = glyph_cells('1');
    assert_eq!(adv, 4);
    assert_eq!(cells, vec![(1, 0), (1, 1), (1, 2), (1, 3), (1, 4)]);
    let (cells, adv) = glyph_cells(':');
    assert_eq!((cells, adv), (vec![(1, 1), (1, 3)], 3));
    let (cells, adv) = glyph_cells(' ');
    assert_eq!((cells.len(), adv), (0, 4));
    let (cells, adv) = glyph_cells('?');
    assert_eq!((cells.len(), adv), (0, 4));
    let (cells, _) = glyph_cells('F');
    assert_eq!(cells, vec![(0, 0), (1, 0), (2, 0), (0, 1), (0, 2), (1, 2), (2, 2), (0, 3), (0, 4)]);
}

#[test]
fn touch_buttons_press_and_release_keys() {
    let mut k = Keys::default();
    set_button_key(&mut k, ButtonId::Forward, true);
    set_button_key(&mut k, ButtonId::Up, true);
    assert!(k.w && k.space && !k.a);
    set_button_key(&mut k, ButtonId::Forward, false);
    assert!(!k.w && k.space);
    set_button_key(&mut k, ButtonId::Down, true);
    set_button_key(&mut k, ButtonId::Left, true);
    set_button_key(&mut k, ButtonId::Right, true);
    set_button_key(&mut k, ButtonId::Back, true);
    assert!(k.lctrl && k.a && k.d && k.s);
}

#[test]
fn residency_uploads_then_evicts_after_grace() {
    let mut e = ChunkResidency { resident: false, invisible_frames: 0 };
    let mut evict = 3usize;
    assert_eq!(plan_residency(&mut e, true, 0, &mut evict), ResidencyAction::Keep);
    assert_eq!(plan_residency(&mut e, true, 2, &mut evict), ResidencyAction::Upload);
    let mut uploads = 2usize;
    upload_done(&mut e, &mut uploads);
    assert_eq!(uploads, 1);
    assert!(e.resident);
    for _ in 0..INVISIBLE_GRACE_FRAMES {
        assert_eq!(plan_residency(&mut e, false, 1, &mut evict), ResidencyAction::Keep);
    }
    assert_eq!(plan_residency(&mut e, false, 1, &mut evict), ResidencyAction::Evict);
    assert_eq!(evict, 2);
    assert!(!e.resident);
    let mut f = ChunkResidency { resident: true, invisible_frames: 9 };
    let mut none = 0usize;
    assert_eq!(plan_residency(&mut f, false, 1, &mut none), ResidencyAction::Keep);
    assert_eq!(f.invisible_frames, 10);
    assert_eq!(plan_residency(&mut f, true, 1, &mut none), ResidencyAction::Keep);
    assert_eq!(f.invisible_frames, 0);
}

#[test]
fn scans_every_fourth_frame() {
    assert_eq!(next_scan(0), (1, false));
    assert_eq!(next_scan(3), (4, true));
    assert_eq!(next_scan(u32::MAX), (0, true));
}

#[test]
fn triple_buffer_hands_over_latest_publish() {
    let mut tb: TripleBuffer<u32> = TripleBuffer::new();
    let mut out = 0u32;
    assert!(!tb.consume(&mut out));
    *tb.write_slot() = 5;
    tb.publish();
    *tb.write_slot() = 6;
    tb.publish();
    assert!(tb.consume(&mut out));
    assert_eq!(out, 6);
    assert!(!tb.consume(&mut out));
    assert_eq!(out, 6);
    *tb.write_slot() = 7;
    tb.publish();
    assert!(tb.consume(&mut out));
    assert_eq!(out, 7);
}
