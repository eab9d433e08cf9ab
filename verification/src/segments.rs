//! Segment patterns of the seven-, fourteen- and sixteen-segment decoders.
use vstd::prelude::*;

verus! {

/// Segments a-g lit for hex digit `d` (0 to 15) on a seven-segment display.
pub open spec fn symbols7(d: int) -> Seq<bool> {
    if d == 0 {
        seq![true, true, true, true, true, true, false]
    } else if d == 1 {
        seq![false, true, true, false, false, false, false]
    } else if d == 2 {
        seq![true, true, false, true, true, false, true]
    } else if d == 3 {
        seq![true, true, true, true, false, false, true]
    } else if d == 4 {
        seq![false, true, true, false, false, true, true]
    } else if d == 5 {
        seq![true, false, true, true, false, true, true]
    } else if d == 6 {
        seq![true, false, true, true, true, true, true]
    } else if d == 7 {
        seq![true, true, true, false, false, false, false]
    } else if d == 8 {
        seq![true, true, true, true, true, true, true]
    } else if d == 9 {
        seq![true, true, true, false, false, true, true]
    } else if d == 10 {
        seq![true, true, true, false, true, true, true]
    } else if d == 11 {
        seq![false, false, true, true, true, true, true]
    } else if d == 12 {
        seq![true, false, false, true, true, true, false]
    } else if d == 13 {
        seq![false, true, true, true, true, false, true]
    } else if d == 14 {
        seq![true, false, false, true, true, true, true]
    } else {
        seq![true, false, false, false, true, true, true]
    }
}

/// Segments lit for hex digit `d` (0 to 15) on a fourteen-segment display.
pub open spec fn symbols14(d: int) -> Seq<bool> {
    if d == 0 {
        seq![true, true, true, true, true, true, false, false, true, false, false, false, true, false]
    } else if d == 1 {
        seq![false, true, true, false, false, false, false, false, true, false, false, false, false, false]
    } else if d == 2 {
        seq![true, true, false, true, true, false, false, false, false, true, false, false, false, true]
    } else if d == 3 {
        seq![true, true, true, true, false, false, false, false, false, true, false, false, false, true]
    } else if d == 4 {
        seq![false, true, true, false, false, true, false, false, false, true, false, false, false, true]
    } else if d == 5 {
        seq![true, false, true, true, false, true, false, false, false, true, false, false, false, true]
    } else if d == 6 {
        seq![true, false, true, true, true, true, false, false, false, true, false, false, false, true]
    } else if d == 7 {
        seq![true, false, false, false, false, false, false, false, true, false, false, true, false, false]
    } else if d == 8 {
        seq![true, true, true, true, true, true, false, false, false, true, false, false, false, true]
    } else if d == 9 {
        seq![true, true, true, true, false, true, false, false, false, true, false, false, false, true]
    } else if d == 10 {
        seq![true, true, true, false, true, true, false, false, false, true, false, false, false, true]
    } else if d == 11 {
        seq![true, true, true, true, false, false, false, true, false, true, false, true, false, false]
    } else if d == 12 {
        seq![true, false, false, true, true, true, false, false, false, false, false, false, false, false]
    } else if d == 13 {
        seq![true, true, true, true, false, false, false, true, false, false, false, true, false, false]
    } else if d == 14 {
        seq![true, false, false, true, true, true, false, false, false, true, false, false, false, true]
    } else {
        seq![true, false, false, false, true, true, false, false, false, true, false, false, false, true]
    }
}

/// Segments lit for hex digit `d` (0 to 15) on a sixteen-segment display.
pub open spec fn symbols16(d: int) -> Seq<bool> {
    if d == 0 {
        seq![true, true, true, true, true, true, true, true, false, false, true, false, false, false, true, false]
    } else if d == 1 {
        seq![false, false, true, true, false, false, false, false, false, false, true, false, false, false, false, false]
    } else if d == 2 {
        seq![true, true, true, false, true, true, true, false, false, false, false, true, false, false, false, true]
    } else if d == 3 {
        seq![true, true, true, true, true, true, false, false, false, false, false, true, false, false, false, true]
    } else if d == 4 {
        seq![false, false, true, true, false, false, false, true, false, false, false, true, false, false, false, true]
    } else if d == 5 {
        seq![true, true, false, true, true, true, false, true, false, false, false, true, false, false, false, true]
    } else if d == 6 {
        seq![true, true, false, true, true, true, true, true, false, false, false, true, false, false, false, true]
    } else if d == 7 {
        seq![true, true, false, false, false, false, false, false, false, false, true, false, false, true, false, false]
    } else if d == 8 {
        seq![true, true, true, true, true, true, true, true, false, false, false, true, false, false, false, true]
    } else if d == 9 {
        seq![true, true, true, true, true, true, false, true, false, false, false, true, false, false, false, true]
    } else if d == 10 {
        seq![true, true, true, true, false, false, true, true, false, false, false, true, false, false, false, true]
    } else if d == 11 {
        seq![true, true, true, true, true, true, false, false, false, true, false, true, false, true, false, false]
    } else if d == 12 {
        seq![true, true, false, false, true, true, true, true, false, false, false, false, false, false, false, false]
    } else if d == 13 {
        seq![true, true, true, true, true, true, false, false, false, true, false, false, false, true, false, false]
    } else if d == 14 {
        seq![true, true, false, false, true, true, true, true, false, false, false, true, false, false, false, true]
    } else {
        seq![true, true, false, false, false, false, true, true, false, false, false, true, false, false, false, true]
    }
}

/// Segment pattern of digit `d` for a display with `seg_count` segments:
/// fourteen, sixteen, or else seven.
pub open spec fn segment_row(seg_count: usize, d: int) -> Seq<bool> {
    if seg_count == 14 {
        symbols14(d)
    } else if seg_count == 16 {
        symbols16(d)
    } else {
        symbols7(d)
    }
}

/// Number of segments of the table used for `seg_count`.
pub open spec fn table_width(seg_count: usize) -> int {
    if seg_count == 14 {
        14
    } else if seg_count == 16 {
        16
    } else {
        7
    }
}

/// Digits above 15 show as 15.
pub open spec fn clamp_digit(d: usize) -> int {
    if d > 15 { 15 } else { d as int }
}

fn row7(d: usize) -> (r: Vec<bool>)
    requires
        d < 16,
    ensures
        r@ == symbols7(d as int),
{
    let v = match d {
        0 => vec![true, true, true, true, true, true, false],
        1 => vec![false, true, true, false, false, false, false],
        2 => vec![true, true, false, true, true, false, true],
        3 => vec![true, true, true, true, false, false, true],
        4 => vec![false, true, true, false, false, true, true],
        5 => vec![true, false, true, true, false, true, true],
        6 => vec![true, false, true, true, true, true, true],
        7 => vec![true, true, true, false, false, false, false],
        8 => vec![true, true, true, true, true, true, true],
        9 => vec![true, true, true, false, false, true, true],
        10 => vec![true, true, true, false, true, true, true],
        11 => vec![false, false, true, true, true, true, true],
        12 => vec![true, false, false, true, true, true, false],
        13 => vec![false, true, true, true, true, false, true],
        14 => vec![true, false, false, true, true, true, true],
        _ => vec![true, false, false, false, true, true, true],
    };
    proof {
        assert(v@ =~= symbols7(d as int));
    }
    v
}

fn row14(d: usize) -> (r: Vec<bool>)
    requires
        d < 16,
    ensures
        r@ == symbols14(d as int),
{
    let v = match d {
        0 => vec![true, true, true, true, true, true, false, false, true, false, false, false, true, false],
        1 => vec![false, true, true, false, false, false, false, false, true, false, false, false, false, false],
        2 => vec![true, true, false, true, true, false, false, false, false, true, false, false, false, true],
        3 => vec![true, true, true, true, false, false, false, false, false, true, false, false, false, true],
        4 => vec![false, true, true, false, false, true, false, false, false, true, false, false, false, true],
        5 => vec![true, false, true, true, false, true, false, false, false, true, false, false, false, true],
        6 => vec![true, false, true, true, true, true, false, false, false, true, false, false, false, true],
        7 => vec![true, false, false, false, false, false, false, false, true, false, false, true, false, false],
        8 => vec![true, true, true, true, true, true, false, false, false, true, false, false, false, true],
        9 => vec![true, true, true, true, false, true, false, false, false, true, false, false, false, true],
        10 => vec![true, true, true, false, true, true, false, false, false, true, false, false, false, true],
        11 => vec![true, true, true, true, false, false, false, true, false, true, false, true, false, false],
        12 => vec![true, false, false, true, true, true, false, false, false, false, false, false, false, false],
        13 => vec![true, true, true, true, false, false, false, true, false, false, false, true, false, false],
        14 => vec![true, false, false, true, true, true, false, false, false, true, false, false, false, true],
        _ => vec![true, false, false, false, true, true, false, false, false, true, false, false, false, true],
    };
    proof {
        assert(v@ =~= symbols14(d as int));
    }
    v
}

fn row16(d: usize) -> (r: Vec<bool>)
    requires
        d < 16,
    ensures
        r@ == symbols16(d as int),
{
    let v = match d {
        0 => vec![true, true, true, true, true, true, true, true, false, false, true, false, false, false, true, false],
        1 => vec![false, false, true, true, false, false, false, false, false, false, true, false, false, false, false, false],
        2 => vec![true, true, true, false, true, true, true, false, false, false, false, true, false, false, false, true],
        3 => vec![true, true, true, true, true, true, false, false, false, false, false, true, false, false, false, true],
        4 => vec![false, false, true, true, false, false, false, true, false, false, false, true, false, false, false, true],
        5 => vec![true, true, false, true, true, true, false, true, false, false, false, true, false, false, false, true],
        6 => vec![true, true, false, true, true, true, true, true, false, false, false, true, false, false, false, true],
        7 => vec![true, true, false, false, false, false, false, false, false, false, true, false, false, true, false, false],
        8 => vec![true, true, true, true, true, true, true, true, false, false, false, true, false, false, false, true],
        9 => vec![true, true, true, true, true, true, false, true, false, false, false, true, false, false, false, true],
        10 => vec![true, true, true, true, false, false, true, true, false, false, false, true, false, false, false, true],
        11 => vec![true, true, true, true, true, true, false, false, false, true, false, true, false, true, false, false],
        12 => vec![true, true, false, false, true, true, true, true, false, false, false, false, false, false, false, false],
        13 => vec![true, true, true, true, true, true, false, false, false, true, false, false, false, true, false, false],
        14 => vec![true, true, false, false, true, true, true, true, false, false, false, true, false, false, false, true],
        _ => vec![true, true, false, false, false, false, true, true, false, false, false, true, false, false, false, true],
    };
    proof {
        assert(v@ =~= symbols16(d as int));
    }
    v
}

/// Whether segment `i` is lit for digit `digit` on a display with
/// `seg_count` segments.
pub fn decoder_segment(seg_count: usize, digit: usize, i: usize) -> (r: bool)
    requires
        i < table_width(seg_count),
    ensures
        r == segment_row(seg_count, clamp_digit(digit))[i as int],
{
    let d = if digit > 15 { 15 } else { digit };
    let row = if seg_count == 14 {
        row14(d)
    } else if seg_count == 16 {
        row16(d)
    } else {
        row7(d)
    };
    row[i]
}


/// The seven-segment glyphs, segment by segment (a top, b upper right,
/// c lower right, d bottom, e lower left, f upper left, g middle):
/// - a is dark for 1, 4, 11, 13, lit for every other digit;
/// - b is dark for 5, 6, 11, 12, 14, 15, lit for every other digit;
/// - c is dark for 2, 12, 14, 15, lit for every other digit;
/// - d is dark for 1, 4, 7, 9, 10, 15, lit for every other digit;
/// - e is dark for 1, 3, 4, 5, 7, 9, lit for every other digit;
/// - f is dark for 1, 2, 3, 7, 13, lit for every other digit;
/// - g is dark for 0, 1, 7, 12, lit for every other digit;
/// so, for instance, 2 lights exactly a, b, d, e and g.
pub proof fn lemma_seven_segment_glyphs(d: int)
    requires
        0 <= d < 16,
    ensures
        segment_row(7, d).len() == 7,
        segment_row(7, d)[0] <==> !(d == 1 || d == 4 || d == 11 || d == 13),
        segment_row(7, d)[1] <==> !(d == 5 || d == 6 || d == 11 || d == 12 || d == 14 || d == 15),
        segment_row(7, d)[2] <==> !(d == 2 || d == 12 || d == 14 || d == 15),
        segment_row(7, d)[3] <==> !(d == 1 || d == 4 || d == 7 || d == 9 || d == 10 || d == 15),
        segment_row(7, d)[4] <==> !(d == 1 || d == 3 || d == 4 || d == 5 || d == 7 || d == 9),
        segment_row(7, d)[5] <==> !(d == 1 || d == 2 || d == 3 || d == 7 || d == 13),
        segment_row(7, d)[6] <==> !(d == 0 || d == 1 || d == 7 || d == 12),
{
}

/// The fourteen-segment glyphs, segment by segment: each segment is dark
/// exactly for the digits listed.
pub proof fn lemma_fourteen_segment_glyphs(d: int)
    requires
        0 <= d < 16,
    ensures
        segment_row(14, d).len() == 14,
        segment_row(14, d)[0] <==> !(d == 1 || d == 4),
        segment_row(14, d)[1] <==> !(d == 5 || d == 6 || d == 7 || d == 12 || d == 14 || d == 15),
        segment_row(14, d)[2] <==> !(d == 2 || d == 7 || d == 12 || d == 14 || d == 15),
        segment_row(14, d)[3] <==> !(d == 1 || d == 4 || d == 7 || d == 10 || d == 15),
        segment_row(14, d)[4] <==> !(d == 1 || d == 3 || d == 4 || d == 5 || d == 7 || d == 9 || d == 11 || d == 13),
        segment_row(14, d)[5] <==> !(d == 1 || d == 2 || d == 3 || d == 7 || d == 11 || d == 13),
        segment_row(14, d)[6] <==> !(d == 0 || d == 1 || d == 2 || d == 3 || d == 4 || d == 5 || d == 6 || d == 7 || d == 8 || d == 9 || d == 10 || d == 11 || d == 12 || d == 13 || d == 14 || d == 15),
        segment_row(14, d)[7] <==> !(d == 0 || d == 1 || d == 2 || d == 3 || d == 4 || d == 5 || d == 6 || d == 7 || d == 8 || d == 9 || d == 10 || d == 12 || d == 14 || d == 15),
        segment_row(14, d)[8] <==> !(d == 2 || d == 3 || d == 4 || d == 5 || d == 6 || d == 8 || d == 9 || d == 10 || d == 11 || d == 12 || d == 13 || d == 14 || d == 15),
        segment_row(14, d)[9] <==> !(d == 0 || d == 1 || d == 7 || d == 12 || d == 13),
        segment_row(14, d)[10] <==> !(d == 0 || d == 1 || d == 2 || d == 3 || d == 4 || d == 5 || d == 6 || d == 7 || d == 8 || d == 9 || d == 10 || d == 11 || d == 12 || d == 13 || d == 14 || d == 15),
        segment_row(14, d)[11] <==> !(d == 0 || d == 1 || d == 2 || d == 3 || d == 4 || d == 5 || d == 6 || d == 8 || d == 9 || d == 10 || d == 12 || d == 14 || d == 15),
        segment_row(14, d)[12] <==> !(d == 1 || d == 2 || d == 3 || d == 4 || d == 5 || d == 6 || d == 7 || d == 8 || d == 9 || d == 10 || d == 11 || d == 12 || d == 13 || d == 14 || d == 15),
        segment_row(14, d)[13] <==> !(d == 0 || d == 1 || d == 7 || d == 11 || d == 12 || d == 13),
{
}

/// The sixteen-segment glyphs, segment by segment: each segment is dark
/// exactly for the digits listed.
pub proof fn lemma_sixteen_segment_glyphs(d: int)
    requires
        0 <= d < 16,
    ensures
        segment_row(16, d).len() == 16,
        segment_row(16, d)[0] <==> !(d == 1 || d == 4),
        segment_row(16, d)[1] <==> !(d == 1 || d == 4),
        segment_row(16, d)[2] <==> !(d == 5 || d == 6 || d == 7 || d == 12 || d == 14 || d == 15),
        segment_row(16, d)[3] <==> !(d == 2 || d == 7 || d == 12 || d == 14 || d == 15),
        segment_row(16, d)[4] <==> !(d == 1 || d == 4 || d == 7 || d == 10 || d == 15),
        segment_row(16, d)[5] <==> !(d == 1 || d == 4 || d == 7 || d == 10 || d == 15),
        segment_row(16, d)[6] <==> !(d == 1 || d == 3 || d == 4 || d == 5 || d == 7 || d == 9 || d == 11 || d == 13),
        segment_row(16, d)[7] <==> !(d == 1 || d == 2 || d == 3 || d == 7 || d == 11 || d == 13),
        segment_row(16, d)[8] <==> !(d == 0 || d == 1 || d == 2 || d == 3 || d == 4 || d == 5 || d == 6 || d == 7 || d == 8 || d == 9 || d == 10 || d == 11 || d == 12 || d == 13 || d == 14 || d == 15),
        segment_row(16, d)[9] <==> !(d == 0 || d == 1 || d == 2 || d == 3 || d == 4 || d == 5 || d == 6 || d == 7 || d == 8 || d == 9 || d == 10 || d == 12 || d == 14 || d == 15),
        segment_row(16, d)[10] <==> !(d == 2 || d == 3 || d == 4 || d == 5 || d == 6 || d == 8 || d == 9 || d == 10 || d == 11 || d == 12 || d == 13 || d == 14 || d == 15),
        segment_row(16, d)[11] <==> !(d == 0 || d == 1 || d == 7 || d == 12 || d == 13),
        segment_row(16, d)[12] <==> !(d == 0 || d == 1 || d == 2 || d == 3 || d == 4 || d == 5 || d == 6 || d == 7 || d == 8 || d == 9 || d == 10 || d == 11 || d == 12 || d == 13 || d == 14 || d == 15),
        segment_row(16, d)[13] <==> !(d == 0 || d == 1 || d == 2 || d == 3 || d == 4 || d == 5 || d == 6 || d == 8 || d == 9 || d == 10 || d == 12 || d == 14 || d == 15),
        segment_row(16, d)[14] <==> !(d == 1 || d == 2 || d == 3 || d == 4 || d == 5 || d == 6 || d == 7 || d == 8 || d == 9 || d == 10 || d == 11 || d == 12 || d == 13 || d == 14 || d == 15),
        segment_row(16, d)[15] <==> !(d == 0 || d == 1 || d == 7 || d == 11 || d == 12 || d == 13),
{
}

} // verus!
