use particle_field::cursor::{EditMode, EditModeE, EditSession, Falloff, RelAbE};
use particle_field::grid::Grid;
use particle_field::keys::Key;

fn settings() -> EditMode<u32> {
    EditMode { mode: EditModeE::Shift, ra: RelAbE::Relative, falloff: Falloff::Linear, falloff_dist: 3, strength: 2 }
}

#[test]
fn no_keys_give_centered_relative() {
    let mut m = settings();
    m.process_input(&[]);
    assert_eq!(m.mode, EditModeE::Centered);
    assert_eq!(m.ra, RelAbE::Relative);
    assert_eq!(m.falloff, Falloff::Linear);
    assert_eq!(m.falloff_dist, 3);
    assert_eq!(m.strength, 2);
}

#[test]
fn control_selects_rotate_and_shift_selects_shift() {
    let mut m = settings();
    m.process_input(&[Key::LControl]);
    assert_eq!(m.mode, EditModeE::Rotate);
    m.process_input(&[Key::W, Key::RShift]);
    assert_eq!(m.mode, EditModeE::Shift);
    m.process_input(&[Key::RControl, Key::A]);
    assert_eq!(m.mode, EditModeE::Rotate);
}

#[test]
fn last_modifier_held_decides() {
    let mut m = settings();
    m.process_input(&[Key::LControl, Key::LShift]);
    assert_eq!(m.mode, EditModeE::Shift);
    m.process_input(&[Key::LShift, Key::RControl, Key::Other(7)]);
    assert_eq!(m.mode, EditModeE::Rotate);
}

#[test]
fn space_makes_edits_absolute() {
    let mut m = settings();
    m.process_input(&[Key::W, Key::Space]);
    assert_eq!(m.ra, RelAbE::Absolute);
    assert_eq!(m.mode, EditModeE::Centered);
    m.process_input(&[Key::W]);
    assert_eq!(m.ra, RelAbE::Relative);
}

#[test]
fn new_session_is_idle() {
    let s: EditSession<i32, u8> = EditSession::new();
    assert!(s.anchor().is_none());
    assert!(s.affected_indices().is_empty());
    assert!(s.affected_original_values().is_empty());
}

#[test]
fn mouse_down_captures_cells_and_values() {
    let g = Grid::from_values(1, 2, 2, vec![10, 11, 12, 13]);
    let mut s: EditSession<i32, u8> = EditSession::new();
    s.mouse_down(5, &g, &[false, true, false, true]);
    assert_eq!(*s.anchor(), Some(5));
    assert_eq!(s.affected_indices(), &[1, 3]);
    assert_eq!(s.affected_original_values(), &[11, 13]);
    assert_eq!(s.affected_indices().len(), s.affected_original_values().len());
}

#[test]
fn mouse_down_with_nothing_in_reach_captures_nothing() {
    let g = Grid::from_values(1, 1, 3, vec![1, 2, 3]);
    let mut s: EditSession<i32, u8> = EditSession::new();
    s.mouse_down(0, &g, &[false, false, false]);
    assert!(s.anchor().is_some());
    assert!(s.affected_indices().is_empty());
    assert!(s.affected_original_values().is_empty());
}

#[test]
fn mouse_moved_writes_targets_to_captured_cells() {
    let mut g = Grid::from_values(1, 2, 2, vec![10, 11, 12, 13]);
    let mut s: EditSession<i32, u8> = EditSession::new();
    s.mouse_down(0, &g, &[true, false, true, false]);
    s.mouse_moved(&mut g, &[-1, -2]);
    assert_eq!(g.as_slice(), &[-1, 11, -2, 13]);
    s.mouse_moved(&mut g, &[7, 8]);
    assert_eq!(g.as_slice(), &[7, 11, 8, 13]);
    assert_eq!(s.affected_original_values(), &[10, 12]);
}

#[test]
fn shift_drag_gives_every_cell_the_same_target() {
    let mut g = Grid::from_values(1, 1, 4, vec![0, 0, 0, 0]);
    let mut s: EditSession<i32, u8> = EditSession::new();
    s.mouse_down(0, &g, &[true, true, false, true]);
    let delta = 6;
    let targets: Vec<i32> = s.affected_indices().iter().map(|_| delta).collect();
    s.mouse_moved(&mut g, &targets);
    assert_eq!(g.as_slice(), &[6, 6, 0, 6]);
}

#[test]
fn mouse_up_ends_the_session() {
    let mut g = Grid::from_values(1, 1, 3, vec![1, 2, 3]);
    let mut s: EditSession<i32, u8> = EditSession::new();
    s.mouse_down(1, &g, &[true, true, true]);
    s.mouse_up();
    assert!(s.anchor().is_none());
    assert!(s.affected_indices().is_empty());
    assert!(s.affected_original_values().is_empty());
    s.mouse_moved(&mut g, &[]);
    assert_eq!(g.as_slice(), &[1, 2, 3]);
}

#[test]
fn second_press_replaces_the_capture() {
    let g = Grid::from_values(1, 1, 3, vec![1, 2, 3]);
    let mut s: EditSession<i32, u8> = EditSession::new();
    s.mouse_down(1, &g, &[true, true, false]);
    s.mouse_down(2, &g, &[false, false, true]);
    assert_eq!(*s.anchor(), Some(2));
    assert_eq!(s.affected_indices(), &[2]);
    assert_eq!(s.affected_original_values(), &[3]);
}
