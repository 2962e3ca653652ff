use quake_assets::{
    edge_segments, get_color, input_action, palette_grid, skin_to_rgb, Color, Edge, InputAction,
    InputEvent, Key, MouseButton, Movement, Vec3Bits, Vertex,
};

#[test]
fn face_color_from_seed() {
    assert_eq!(get_color(0x1234_56FF), Color { r: 0xFF, g: 8, b: 0xFF, a: 255 });
    assert_eq!(get_color(0x17), Color { r: 0x17, g: 0, b: 0x17, a: 255 });
    assert_eq!(get_color(0x108), Color { r: 0x08, g: 8, b: 0x08, a: 255 });
}

#[test]
fn skin_expands_through_palette() {
    let palette = vec![(1u8, 2u8, 3u8), (10, 20, 30), (100, 110, 120)];
    let skin = vec![2u8, 0, 1, 1, 9];
    let rgb = skin_to_rgb(&skin, 2, 2, &palette);
    assert_eq!(rgb, vec![100, 110, 120, 1, 2, 3, 10, 20, 30, 10, 20, 30]);
    assert!(skin_to_rgb(&skin, 0, 5, &palette).is_empty());
}

#[test]
fn palette_grid_cells() {
    let cells = palette_grid(256, 320, 200);
    assert_eq!(cells.len(), 256);
    assert_eq!(cells[0], (0, 0, 20, 12));
    assert_eq!(cells[17], (20, 12, 20, 12));
    assert_eq!(cells[255], (300, 180, 20, 12));
}

#[test]
fn input_events_map_to_actions() {
    assert_eq!(input_action(InputEvent::Quit), InputAction::Quit);
    assert_eq!(input_action(InputEvent::KeyDown(Key::Escape)), InputAction::Quit);
    assert_eq!(input_action(InputEvent::KeyDown(Key::Z)), InputAction::Move(Movement::Forward));
    assert_eq!(input_action(InputEvent::KeyDown(Key::S)), InputAction::Move(Movement::Backward));
    assert_eq!(input_action(InputEvent::KeyDown(Key::D)), InputAction::Move(Movement::Right));
    assert_eq!(input_action(InputEvent::KeyDown(Key::Q)), InputAction::Move(Movement::Left));
    assert_eq!(input_action(InputEvent::KeyDown(Key::A)), InputAction::Move(Movement::Up));
    assert_eq!(input_action(InputEvent::KeyDown(Key::E)), InputAction::Move(Movement::Down));
    assert_eq!(input_action(InputEvent::KeyDown(Key::Other)), InputAction::Nothing);
    assert_eq!(
        input_action(InputEvent::MouseMotion { xrel: 3, yrel: -2 }),
        InputAction::Look { xrel: 3, yrel: -2 }
    );
    assert_eq!(
        input_action(InputEvent::MouseButtonDown(MouseButton::Left)),
        InputAction::CapturePointer(true)
    );
    assert_eq!(
        input_action(InputEvent::MouseButtonDown(MouseButton::Right)),
        InputAction::CapturePointer(false)
    );
    assert_eq!(input_action(InputEvent::Other), InputAction::Nothing);
}

#[test]
fn edge_segments_skip_out_of_range_indices() {
    let p = |x: u32| Vertex { coordinates: Vec3Bits { x, y: 0, z: 0 } };
    let vertices = vec![p(10), p(11), p(12)];
    let edges = vec![
        Edge { start_vertex: 0, end_vertex: 2 },
        Edge { start_vertex: 1, end_vertex: 3 },
        Edge { start_vertex: 2, end_vertex: 1 },
    ];
    let segments = edge_segments(&vertices, &edges);
    assert_eq!(segments.len(), 2);
    assert_eq!(segments[0], (vertices[0].coordinates, vertices[2].coordinates));
    assert_eq!(segments[1], (vertices[2].coordinates, vertices[1].coordinates));
    assert!(edge_segments(&[], &edges).is_empty());
}
