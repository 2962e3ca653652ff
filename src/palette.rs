use vstd::prelude::*;

verus! {

/// The colour stored at `b[3 * i..3 * i + 3]`.
pub open spec fn color_at(b: Seq<u8>, i: int) -> (u8, u8, u8) {
    (b[3 * i], b[3 * i + 1], b[3 * i + 2])
}

/// The colours of a palette blob: one `(r, g, b)` triple per three bytes;
/// trailing bytes that do not make a whole triple are ignored.
pub open spec fn palette_colors(b: Seq<u8>) -> Seq<(u8, u8, u8)> {
    Seq::new(b.len() / 3, |i: int| color_at(b, i))
}

/// Converts a palette blob, 768 bytes for the game's 256 colours, into RGB
/// triples in order.
pub fn convert_palette(palette: &[u8]) -> (r: Vec<(u8, u8, u8)>)
    ensures
        r@ == palette_colors(palette@),
        r@.len() == palette@.len() / 3,
        forall|i: int| 0 <= i < r@.len() ==> #[trigger] r@[i] == color_at(palette@, i),
{
    let len = palette.len();
    let n = len / 3;
    let mut out: Vec<(u8, u8, u8)> = Vec::new();
    let mut i: usize = 0;
    while i < n
        invariant
            len == palette@.len(),
            n == len / 3,
            i <= n,
            out@ == palette_colors(palette@).subrange(0, i as int),
        decreases n - i,
    {
        assert(3 * i + 2 < len) by (nonlinear_arith)
            requires
                i < n,
                n == len / 3,
        ;
        out.push((palette[3 * i], palette[3 * i + 1], palette[3 * i + 2]));
        i = i + 1;
        assert(out@ =~= palette_colors(palette@).subrange(0, i as int));
    }
    assert(out@ =~= palette_colors(palette@));
    out
}

} // verus!
