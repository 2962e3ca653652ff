use vstd::prelude::*;

use crate::bsp::{edge_in_range, Edge, Vertex};
use crate::vec3::Vec3Bits;

verus! {

/// An RGBA colour.
#[derive(Debug, Clone, Copy, PartialEq, Eq, Structural)]
pub struct Color {
    pub r: u8,
    pub g: u8,
    pub b: u8,
    pub a: u8,
}

/// The colour a face is tinted with, derived from `seed`: red and blue are
/// its low byte, green is its bit 3 alone (0 or 8), alpha is opaque.
pub fn get_color(seed: u32) -> (r: Color)
    ensures
        r.r as u32 == seed & 0xFF,
        r.g as u32 == seed & 8,
        r.b as u32 == seed & 0xFF,
        r.a == 255,
{
    assert(seed & 0xFF <= 0xFF && (seed & 8) & 0xFF == seed & 8 && seed & 8 <= 8) by (bit_vector);
    Color { r: (seed & 0xFF) as u8, g: ((seed & 8) & 0xFF) as u8, b: (seed & 0xFF) as u8, a: 255 }
}

/// The two end points of `e`, or `None` where an index is out of range.
pub open spec fn endpoints(vertices: Seq<Vertex>, e: Edge) -> Option<(Vec3Bits, Vec3Bits)> {
    if edge_in_range(e, vertices.len() as int) {
        Some((vertices[e.start_vertex as int].coordinates, vertices[e.end_vertex as int].coordinates))
    } else {
        None
    }
}

/// The end points of each edge, in order. An edge with a vertex index out of
/// range is left out; the others are still drawn.
pub fn edge_segments(vertices: &[Vertex], edges: &[Edge]) -> (r: Vec<(Vec3Bits, Vec3Bits)>)
    ensures
        r@ == edges@.filter_map(|e: Edge| endpoints(vertices@, e)),
{
    let nv = vertices.len();
    let mut out: Vec<(Vec3Bits, Vec3Bits)> = Vec::new();
    let mut i: usize = 0;
    while i < edges.len()
        invariant
            nv == vertices@.len(),
            i <= edges@.len(),
            out@ == edges@.subrange(0, i as int).filter_map(|e: Edge| endpoints(vertices@, e)),
        decreases edges@.len() - i,
    {
        let e = edges[i];
        let ghost prefix = edges@.subrange(0, i as int + 1);
        assert(prefix.drop_last() =~= edges@.subrange(0, i as int));
        assert(prefix.last() == e);
        if (e.start_vertex as usize) < nv && (e.end_vertex as usize) < nv {
            out.push((vertices[e.start_vertex as usize].coordinates, vertices[e.end_vertex as usize].coordinates));
        }
        i = i + 1;
    }
    assert(edges@.subrange(0, edges@.len() as int) =~= edges@);
    out
}

/// Channel `c` (0 red, 1 green, 2 blue) of a colour.
pub open spec fn channel(color: (u8, u8, u8), c: int) -> u8 {
    if c == 0 {
        color.0
    } else if c == 1 {
        color.1
    } else {
        color.2
    }
}

/// The RGB24 image of the first `n` pixels of `skin`: three bytes per pixel,
/// looked up in `palette`.
pub open spec fn skin_rgb(skin: Seq<u8>, n: int, palette: Seq<(u8, u8, u8)>) -> Seq<u8> {
    Seq::new((3 * n) as nat, |k: int| channel(palette[skin[k / 3] as int], k % 3))
}

/// Expands a `width * height` palette-indexed skin, row-major, into an RGB24
/// bitmap of the same layout.
pub fn skin_to_rgb(skin: &[u8], width: usize, height: usize, palette: &[(u8, u8, u8)]) -> (r: Vec<u8>)
    requires
        width * height <= skin@.len(),
        3 * width * height <= usize::MAX,
        forall|i: int| 0 <= i < width * height ==> (#[trigger] skin@[i] as int) < palette@.len(),
    ensures
        r@ == skin_rgb(skin@, width * height, palette@),
        r@.len() == 3 * width * height,
{
    let ghost want = skin_rgb(skin@, width * height, palette@);
    proof {
        assert(3 * (width * height) == 3 * width * height) by (nonlinear_arith);
    }
    let n = width * height;
    let mut out: Vec<u8> = Vec::new();
    let mut i: usize = 0;
    while i < n
        invariant
            n == width * height,
            3 * n <= usize::MAX,
            n <= skin@.len(),
            forall|i: int| 0 <= i < n ==> (#[trigger] skin@[i] as int) < palette@.len(),
            want == skin_rgb(skin@, n as int, palette@),
            i <= n,
            out@ == want.subrange(0, 3 * i),
        decreases n - i,
    {
        let color = palette[skin[i] as usize];
        let ghost j = i as int;
        assert((3 * j) / 3 == j && (3 * j) % 3 == 0);
        assert((3 * j + 1) / 3 == j && (3 * j + 1) % 3 == 1);
        assert((3 * j + 2) / 3 == j && (3 * j + 2) % 3 == 2);
        out.push(color.0);
        out.push(color.1);
        out.push(color.2);
        i = i + 1;
        assert(out@ =~= want.subrange(0, 3 * i));
    }
    assert(out@ =~= want);
    out
}

/// Number of colours per row of the palette grid.
pub const GRID_COLUMNS: u32 = 16;

/// The cell `(x, y, width, height)` of colour `i` when `count` colours are
/// laid out in rows of 16 over a `width` by `height` surface.
pub open spec fn grid_cell(i: int, count: int, width: int, height: int) -> (u32, u32, u32, u32) {
    let w = width / 16;
    let h = height / (count / 16);
    ((i % 16 * w) as u32, (i / 16 * h) as u32, w as u32, h as u32)
}

/// Lays `count` colours out in rows of 16 equal cells filling a `width` by
/// `height` surface; cell `i` is at column `i % 16` and row `i / 16`.
pub fn palette_grid(count: u32, width: u32, height: u32) -> (r: Vec<(u32, u32, u32, u32)>)
    requires
        count >= GRID_COLUMNS,
    ensures
        r@.len() == count,
        forall|i: int| 0 <= i < count ==> #[trigger] r@[i] == grid_cell(i, count as int, width as int, height as int),
{
    let rows = count / GRID_COLUMNS;
    let cell_w = width / GRID_COLUMNS;
    let cell_h = height / rows;
    let mut out: Vec<(u32, u32, u32, u32)> = Vec::new();
    let mut i: u32 = 0;
    while i < count
        invariant
            count >= GRID_COLUMNS,
            rows == count / 16,
            cell_w == width / 16,
            cell_h == height / rows,
            i <= count,
            out@.len() == i,
            forall|k: int| 0 <= k < i ==> #[trigger] out@[k] == grid_cell(k, count as int, width as int, height as int),
        decreases count - i,
    {
        let col = i % GRID_COLUMNS;
        let row = i / GRID_COLUMNS;
        proof {
            assert(col * cell_w <= width) by (nonlinear_arith)
                requires
                    col < 16,
                    cell_w == width / 16,
            ;
            assert(row <= rows) by (nonlinear_arith)
                requires
                    row == i / 16,
                    i < count,
                    rows == count / 16,
            ;
            assert(row * cell_h <= height) by (nonlinear_arith)
                requires
                    row <= rows,
                    rows >= 1,
                    cell_h == height / rows,
            ;
        }
        out.push((col * cell_w, row * cell_h, cell_w, cell_h));
        i = i + 1;
    }
    out
}

/// A key the viewer reacts to, by its position on an AZERTY keyboard.
#[derive(Debug, Clone, Copy, PartialEq, Eq, Structural)]
pub enum Key {
    Z,
    S,
    Q,
    D,
    A,
    E,
    Escape,
    Other,
}

/// A mouse button.
#[derive(Debug, Clone, Copy, PartialEq, Eq, Structural)]
pub enum MouseButton {
    Left,
    Right,
    Other,
}

/// An input event delivered by the host.
#[derive(Debug, Clone, Copy, PartialEq, Eq, Structural)]
pub enum InputEvent {
    Quit,
    KeyDown(Key),
    MouseMotion { xrel: i32, yrel: i32 },
    MouseButtonDown(MouseButton),
    Other,
}

/// A camera move along its own basis.
#[derive(Debug, Clone, Copy, PartialEq, Eq, Structural)]
pub enum Movement {
    Forward,
    Backward,
    Right,
    Left,
    Up,
    Down,
}

/// What the viewer does with an event.
#[derive(Debug, Clone, Copy, PartialEq, Eq, Structural)]
pub enum InputAction {
    /// Leave the main loop.
    Quit,
    /// Move the camera one step.
    Move(Movement),
    /// Turn the camera by the mouse's relative motion.
    Look { xrel: i32, yrel: i32 },
    /// Capture (`true`) or release (`false`) the pointer.
    CapturePointer(bool),
    /// Ignore the event.
    Nothing,
}

/// The action for an event: Z, S, D, Q, A and E move forward, backward,
/// right, left, up and down; Escape and a quit request leave; mouse motion
/// turns; the left button captures the pointer and the right one releases it.
pub open spec fn action_for(event: InputEvent) -> InputAction {
    match event {
        InputEvent::Quit => InputAction::Quit,
        InputEvent::KeyDown(key) => match key {
            Key::Z => InputAction::Move(Movement::Forward),
            Key::S => InputAction::Move(Movement::Backward),
            Key::D => InputAction::Move(Movement::Right),
            Key::Q => InputAction::Move(Movement::Left),
            Key::A => InputAction::Move(Movement::Up),
            Key::E => InputAction::Move(Movement::Down),
            Key::Escape => InputAction::Quit,
            Key::Other => InputAction::Nothing,
        },
        InputEvent::MouseMotion { xrel, yrel } => InputAction::Look { xrel, yrel },
        InputEvent::MouseButtonDown(button) => match button {
            MouseButton::Left => InputAction::CapturePointer(true),
            MouseButton::Right => InputAction::CapturePointer(false),
            MouseButton::Other => InputAction::Nothing,
        },
        InputEvent::Other => InputAction::Nothing,
    }
}

/// Decides what the viewer does with an input event.
pub fn input_action(event: InputEvent) -> (r: InputAction)
    ensures
        r == action_for(event),
{
    match event {
        InputEvent::Quit => InputAction::Quit,
        InputEvent::KeyDown(key) => match key {
            Key::Z => InputAction::Move(Movement::Forward),
            Key::S => InputAction::Move(Movement::Backward),
            Key::D => InputAction::Move(Movement::Right),
            Key::Q => InputAction::Move(Movement::Left),
            Key::A => InputAction::Move(Movement::Up),
            Key::E => InputAction::Move(Movement::Down),
            Key::Escape => InputAction::Quit,
            Key::Other => InputAction::Nothing,
        },
        InputEvent::MouseMotion { xrel, yrel } => InputAction::Look { xrel, yrel },
        InputEvent::MouseButtonDown(button) => match button {
            MouseButton::Left => InputAction::CapturePointer(true),
            MouseButton::Right => InputAction::CapturePointer(false),
            MouseButton::Other => InputAction::Nothing,
        },
        InputEvent::Other => InputAction::Nothing,
    }
}

} // verus!
