//! The 3x5 pixel font of the HUD.
use vstd::prelude::*;

verus! {

/// Rows (top to bottom) of digit `d`; bit 2 is the left column.
pub open spec fn digit_rows(d: int) -> [u8; 5] {
    if d == 0 {
        [7, 5, 5, 5, 7]
    } else if d == 1 {
        [2, 2, 2, 2, 2]
    } else if d == 2 {
        [7, 1, 7, 4, 7]
    } else if d == 3 {
        [7, 1, 7, 1, 7]
    } else if d == 4 {
        [5, 5, 7, 1, 1]
    } else if d == 5 {
        [7, 4, 7, 1, 7]
    } else if d == 6 {
        [7, 4, 7, 5, 7]
    } else if d == 7 {
        [7, 1, 2, 2, 2]
    } else if d == 8 {
        [7, 5, 7, 5, 7]
    } else {
        [7, 5, 7, 1, 7]
    }
}

/// Rows of the letters the HUD knows (upper or lower case).
pub open spec fn letter_rows(ch: char) -> Option<[u8; 5]> {
    if ch == 'A' || ch == 'a' {
        Some([7, 5, 7, 5, 5])
    } else if ch == 'C' || ch == 'c' {
        Some([7, 4, 4, 4, 7])
    } else if ch == 'E' || ch == 'e' {
        Some([7, 4, 7, 4, 7])
    } else if ch == 'F' || ch == 'f' {
        Some([7, 4, 7, 4, 4])
    } else if ch == 'I' || ch == 'i' {
        Some([7, 2, 2, 2, 7])
    } else if ch == 'O' || ch == 'o' {
        Some([7, 5, 5, 5, 7])
    } else if ch == 'P' || ch == 'p' {
        Some([7, 5, 7, 4, 4])
    } else if ch == 'R' || ch == 'r' {
        Some([7, 5, 7, 5, 5])
    } else if ch == 'S' || ch == 's' {
        Some([7, 4, 7, 1, 7])
    } else {
        None
    }
}

/// Rows of `ch`: a digit, a known letter, or nothing.
pub open spec fn glyph_rows(ch: char) -> Option<[u8; 5]> {
    if '0' <= ch && ch <= '9' {
        Some(digit_rows(ch as int - '0' as int))
    } else {
        letter_rows(ch)
    }
}

/// The HUD font's digits `0` to `9`, top row first.
pub open spec fn font_digits() -> Seq<[u8; 5]> {
    seq![
        [0b111u8, 0b101, 0b101, 0b101, 0b111],
        [0b010u8, 0b010, 0b010, 0b010, 0b010],
        [0b111u8, 0b001, 0b111, 0b100, 0b111],
        [0b111u8, 0b001, 0b111, 0b001, 0b111],
        [0b101u8, 0b101, 0b111, 0b001, 0b001],
        [0b111u8, 0b100, 0b111, 0b001, 0b111],
        [0b111u8, 0b100, 0b111, 0b101, 0b111],
        [0b111u8, 0b001, 0b010, 0b010, 0b010],
        [0b111u8, 0b101, 0b111, 0b101, 0b111],
        [0b111u8, 0b101, 0b111, 0b001, 0b111],
    ]
}

/// Every digit is drawn with its own glyph from the font: the glyph of `d`
/// is the font's entry `d`, three pixels wide, and no two digits look the
/// same. `0` shares its glyph with the letter O and `5` with the letter S.
pub proof fn law_digit_glyphs(d1: int, d2: int)
    requires
        0 <= d1 < 10,
        0 <= d2 < 10,
    ensures
        digit_rows(d1) == font_digits()[d1],
        d1 != d2 ==> digit_rows(d1) != digit_rows(d2),
        forall|k: int| 0 <= k < 5 ==> #[trigger] digit_rows(d1)[k] < 8,
        glyph_rows('0') == letter_rows('O'),
        glyph_rows('5') == letter_rows('S'),
{
    assert(digit_rows(d1) =~= font_digits()[d1]);
    if d1 != d2 {
        let a = digit_rows(d1);
        let b = digit_rows(d2);
        assert(a@ != b@ ==> a != b);
        assert(a@ != b@) by {
            if a@ == b@ {
                assert(a@[0] == b@[0] && a@[1] == b@[1] && a@[2] == b@[2] && a@[3] == b@[3] && a@[4] == b@[4]);
            }
        }
    }
}

/// Glyph rows of a letter; `None` for letters the font lacks.
pub fn char_glyph(ch: char) -> (r: Option<[u8; 5]>)
    ensures
        r == letter_rows(ch),
{
    if ch == 'A' || ch == 'a' {
        Some([7, 5, 7, 5, 5])
    } else if ch == 'C' || ch == 'c' {
        Some([7, 4, 4, 4, 7])
    } else if ch == 'E' || ch == 'e' {
        Some([7, 4, 7, 4, 7])
    } else if ch == 'F' || ch == 'f' {
        Some([7, 4, 7, 4, 4])
    } else if ch == 'I' || ch == 'i' {
        Some([7, 2, 2, 2, 7])
    } else if ch == 'O' || ch == 'o' {
        Some([7, 5, 5, 5, 7])
    } else if ch == 'P' || ch == 'p' {
        Some([7, 5, 7, 4, 4])
    } else if ch == 'R' || ch == 'r' {
        Some([7, 5, 7, 5, 5])
    } else if ch == 'S' || ch == 's' {
        Some([7, 4, 7, 1, 7])
    } else {
        None
    }
}

/// Glyph rows of digit `d`.
pub fn digit_glyph(d: u32) -> (r: [u8; 5])
    requires
        d < 10,
    ensures
        r == digit_rows(d as int),
{
    if d == 0 {
        [7, 5, 5, 5, 7]
    } else if d == 1 {
        [2, 2, 2, 2, 2]
    } else if d == 2 {
        [7, 1, 7, 4, 7]
    } else if d == 3 {
        [7, 1, 7, 1, 7]
    } else if d == 4 {
        [5, 5, 7, 1, 1]
    } else if d == 5 {
        [7, 4, 7, 1, 7]
    } else if d == 6 {
        [7, 4, 7, 5, 7]
    } else if d == 7 {
        [7, 1, 2, 2, 2]
    } else if d == 8 {
        [7, 5, 7, 5, 7]
    } else {
        [7, 5, 7, 1, 7]
    }
}

/// Whether column `col` (0 = left) of a row is lit.
pub open spec fn col_lit(row: u8, col: int) -> bool {
    if col == 0 {
        (row / 4) % 2 == 1
    } else if col == 1 {
        (row / 2) % 2 == 1
    } else {
        row % 2 == 1
    }
}

/// Lit cells `(col, row)` of one row.
pub open spec fn row_cells(row: u8, r: int) -> Seq<(u32, u32)> {
    (if col_lit(row, 0) { seq![(0u32, r as u32)] } else { Seq::empty() }) + (if col_lit(row, 1) {
        seq![(1u32, r as u32)]
    } else {
        Seq::empty()
    }) + (if col_lit(row, 2) { seq![(2u32, r as u32)] } else { Seq::empty() })
}

/// Lit cells of the first `n` rows, top to bottom, left to right.
pub open spec fn rows_cells(rows: [u8; 5], n: int) -> Seq<(u32, u32)>
    decreases n,
{
    if n <= 0 {
        Seq::empty()
    } else {
        rows_cells(rows, n - 1) + row_cells(rows[n - 1], n - 1)
    }
}

/// The cells `(col, row)` of `ch` in pixel units from its top-left corner,
/// and how far the pen moves after it: a space moves 4, a colon is two dots
/// in the middle column and moves 3, a glyph moves 4 (an unknown character
/// draws nothing but still moves 4).
pub open spec fn glyph_layout(ch: char) -> (Seq<(u32, u32)>, u32) {
    if ch == ' ' {
        (Seq::empty(), 4)
    } else if ch == ':' {
        (seq![(1u32, 1u32), (1u32, 3u32)], 3)
    } else {
        match glyph_rows(ch) {
            Some(rows) => (rows_cells(rows, 5), 4),
            None => (Seq::empty(), 4),
        }
    }
}

fn push_row(cells: &mut Vec<(u32, u32)>, row: u8, r: u32)
    requires
        r < 5,
    ensures
        final(cells)@ == old(cells)@ + row_cells(row, r as int),
{
    let ghost start = cells@;
    let mut col: u32 = 0;
    while col < 3
        invariant
            0 <= col <= 3,
            r < 5,
            cells@ == start + (if col >= 1 && col_lit(row, 0) { seq![(0u32, r)] } else { Seq::empty() })
                + (if col >= 2 && col_lit(row, 1) { seq![(1u32, r)] } else { Seq::empty() }) + (if col
                >= 3 && col_lit(row, 2) { seq![(2u32, r)] } else { Seq::empty() }),
        decreases 3 - col,
    {
        let mask: u8 = if col == 0 { 4 } else if col == 1 { 2 } else { 1 };
        let lit = (row & mask) != 0;
        assert(lit == col_lit(row, col as int)) by {
            if col == 0 {
                assert(((row & 4u8) != 0) == ((row / 4) % 2 == 1)) by (bit_vector);
            } else if col == 1 {
                assert(((row & 2u8) != 0) == ((row / 2) % 2 == 1)) by (bit_vector);
            } else {
                assert(((row & 1u8) != 0) == (row % 2 == 1)) by (bit_vector);
            }
        }
        if lit {
            cells.push((col, r));
        }
        col = col + 1;
    }
    assert(cells@ =~= start + row_cells(row, r as int));
}

/// Cells and pen advance of `ch`.
pub fn glyph_cells(ch: char) -> (r: (Vec<(u32, u32)>, u32))
    ensures
        r.0@ == glyph_layout(ch).0,
        r.1 == glyph_layout(ch).1,
{
    let mut cells: Vec<(u32, u32)> = Vec::new();
    if ch == ' ' {
        return (cells, 4);
    }
    if ch == ':' {
        cells.push((1, 1));
        cells.push((1, 3));
        assert(cells@ =~= seq![(1u32, 1u32), (1u32, 3u32)]);
        return (cells, 3);
    }
    let glyph = if '0' <= ch && ch <= '9' {
        Some(digit_glyph((ch as u32) - ('0' as u32)))
    } else {
        char_glyph(ch)
    };
    match glyph {
        Some(rows) => {
            let mut r: u32 = 0;
            while r < 5
                invariant
                    0 <= r <= 5,
                    cells@ == rows_cells(rows, r as int),
                decreases 5 - r,
            {
                push_row(&mut cells, rows[r as usize], r);
                r = r + 1;
            }
        },
        None => {},
    }
    (cells, 4)
}

} // verus!
