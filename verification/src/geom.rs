//! Integer geometry of schematic posts, and text unescaping of dump fields.
use vstd::prelude::*;
use crate::union_find::Point;
use vstd::string::StringSliceAdditionalSpecFns;

verus! {

/// Sign of an integer: -1, 0 or 1.
pub open spec fn sign(v: int) -> int {
    if v > 0 { 1 } else if v < 0 { -1 } else { 0 }
}

/// Direction of the segment `p1 -> p2`: the sign of the vertical
/// displacement, or of the horizontal one when the segment is horizontal.
pub open spec fn dsign_spec(p1: (i32, i32), p2: (i32, i32)) -> int {
    let dx = p2.0 - p1.0;
    let dy = p2.1 - p1.1;
    if dy == 0 { sign(dx) } else { sign(dy) }
}

/// Direction of the segment `p1 -> p2`: -1, 0 or 1.
pub fn dsign(p1: (i32, i32), p2: (i32, i32)) -> (r: i32)
    requires
        i32::MIN <= p2.0 - p1.0 <= i32::MAX,
        i32::MIN <= p2.1 - p1.1 <= i32::MAX,
    ensures
        r == dsign_spec(p1, p2),
{
    let dx = p2.0 - p1.0;
    let dy = p2.1 - p1.1;
    if dy == 0 {
        if dx > 0 { 1 } else if dx < 0 { -1 } else { 0 }
    } else if dy > 0 {
        1
    } else {
        -1
    }
}


/// Character an escape `\c` stands for.
pub open spec fn escape_char(c: char) -> char {
    if c == 'n' {
        '\n'
    } else if c == 'r' {
        '\r'
    } else if c == 's' {
        ' '
    } else if c == 'p' {
        '+'
    } else if c == 'q' {
        '='
    } else if c == 'h' {
        '#'
    } else if c == 'a' {
        '&'
    } else {
        c
    }
}

/// Characters `s` with escapes resolved: a backslash followed by a
/// character stands for `escape_char` of that character; every other
/// character stands for itself.
pub open spec fn unescaped(s: Seq<char>) -> Seq<char>
    decreases s.len(),
{
    if s.len() == 0 {
        Seq::empty()
    } else if s[0] == '\\' && s.len() >= 2 {
        seq![escape_char(s[1])] + unescaped(s.skip(2))
    } else {
        seq![s[0]] + unescaped(s.skip(1))
    }
}

/// Unescaped text of a dump field: `\0` is the empty text.
pub open spec fn unescape_spec(s: Seq<char>) -> Seq<char> {
    if s == seq!['\\', '0'] {
        Seq::empty()
    } else {
        unescaped(s)
    }
}

/// Text without a backslash is its own unescaped text.
pub proof fn lemma_unescaped_plain(s: Seq<char>)
    requires
        !s.contains('\\'),
    ensures
        unescaped(s) == s,
        unescape_spec(s) == s,
    decreases s.len(),
{
    if s.len() > 0 {
        assert(s[0] != '\\') by {
            assert(s.contains(s[0]));
        }
        assert forall|c: char| s.skip(1).contains(c) implies c != '\\' by {
            let k = choose|k: int| 0 <= k < s.skip(1).len() && s.skip(1)[k] == c;
            assert(s[k + 1] == c);
            assert(s.contains(s[k + 1]));
        }
        lemma_unescaped_plain(s.skip(1));
        assert(seq![s[0]] + s.skip(1) =~= s);
    }
    if s == seq!['\\', '0'] {
        assert(s.contains(s[0]));
    }
}

/// How a character is written in an escaped dump field: space, `+`, `=`,
/// `#`, `&`, newline, carriage return and backslash take a backslash and a
/// letter (or a second backslash); every other character stands for
/// itself.
pub open spec fn escape_seq(c: char) -> Seq<char> {
    if c == ' ' {
        seq!['\\', 's']
    } else if c == '+' {
        seq!['\\', 'p']
    } else if c == '=' {
        seq!['\\', 'q']
    } else if c == '#' {
        seq!['\\', 'h']
    } else if c == '&' {
        seq!['\\', 'a']
    } else if c == '\n' {
        seq!['\\', 'n']
    } else if c == '\r' {
        seq!['\\', 'r']
    } else if c == '\\' {
        seq!['\\', '\\']
    } else {
        seq![c]
    }
}

/// `s` written with escapes.
pub open spec fn escaped_text(s: Seq<char>) -> Seq<char>
    decreases s.len(),
{
    if s.len() == 0 {
        Seq::empty()
    } else {
        escape_seq(s[0]) + escaped_text(s.skip(1))
    }
}

/// Unescaping escaped text gives the text back.
pub proof fn lemma_unescape_reverses_escape(s: Seq<char>)
    ensures
        unescape_spec(escaped_text(s)) == s,
        unescaped(escaped_text(s)) == s,
    decreases s.len(),
{
    if s.len() > 0 {
        lemma_unescape_reverses_escape(s.skip(1));
        let e = escape_seq(s[0]);
        let r = escaped_text(s.skip(1));
        let t = e + r;
        assert(escaped_text(s) == t);
        if e.len() == 2 {
            assert(t[0] == '\\' && t[1] == e[1]);
            assert(escape_char(e[1]) == s[0]);
            assert(t.skip(2) =~= r);
            assert(e[1] != '0');
        } else {
            assert(t[0] == s[0] && s[0] != '\\');
            assert(t.skip(1) =~= r);
        }
        assert(seq![s[0]] + s.skip(1) =~= s);
        if t == seq!['\\', '0'] {
            assert(t[1] == '0');
        }
    } else {
        assert(escaped_text(s) =~= Seq::<char>::empty());
        assert(Seq::<char>::empty() != seq!['\\', '0']) by {
            assert(seq!['\\', '0'].len() == 2);
        }
    }
}

fn escape_char_exec(c: char) -> (r: char)
    ensures
        r == escape_char(c),
{
    if c == 'n' {
        '\n'
    } else if c == 'r' {
        '\r'
    } else if c == 's' {
        ' '
    } else if c == 'p' {
        '+'
    } else if c == 'q' {
        '='
    } else if c == 'h' {
        '#'
    } else if c == 'a' {
        '&'
    } else {
        c
    }
}

/// Resolves the escapes of a text field of a dump, character by character.
pub fn unescape(s: &str) -> (r: String)
    ensures
        r@ == unescape_spec(s@),
{
    let cs = crate::text::chars_of(s);
    let n = cs.len();
    let mut r = String::new();
    if n == 2 && cs[0] == '\\' && cs[1] == '0' {
        proof {
            assert(cs@ =~= seq!['\\', '0']);
        }
        return r;
    }
    proof {
        assert(cs@.skip(0) =~= cs@);
        assert(r@ + unescaped(cs@) =~= unescaped(cs@));
    }
    let mut i: usize = 0;
    while i < n
        invariant
            n == cs@.len(),
            cs@ == s@,
            i <= n,
            r@ + unescaped(cs@.skip(i as int)) == unescaped(cs@),
        decreases n - i,
    {
        let ghost rest = cs@.skip(i as int);
        if cs[i] == '\\' && i + 1 < n {
            let c = escape_char_exec(cs[i + 1]);
            crate::text::push_char(&mut r, c);
            proof {
                assert(rest[0] == '\\' && rest.len() >= 2);
                assert(rest[1] == cs@[i + 1]);
                assert(rest.skip(2) =~= cs@.skip(i + 2));
                assert(r@ + unescaped(cs@.skip(i + 2)) =~= unescaped(cs@));
            }
            i = i + 2;
        } else {
            let c = cs[i];
            crate::text::push_char(&mut r, c);
            proof {
                assert(rest[0] == cs@[i as int]);
                assert(rest.skip(1) =~= cs@.skip(i + 1));
                assert(r@ + unescaped(cs@.skip(i + 1)) =~= unescaped(cs@));
            }
            i = i + 1;
        }
    }
    proof {
        assert(cs@.skip(n as int) =~= Seq::<char>::empty());
        assert(r@ + Seq::<char>::empty() =~= r@);
        if cs@ == seq!['\\', '0'] {
            assert(cs@.len() == 2 && cs@[0] == '\\' && cs@[1] == '0');
        }
    }
    r
}

/// Post spacing of an analog chip: half size when bit 0 of the flags is set.
pub open spec fn chip_spacing(flags: i32) -> int {
    if flags & 1 != 0 { 16 } else { 32 }
}

/// Posts of a controlled-source chip at `p1`: inputs A and B on the west
/// side, the two outputs on the east side.
pub fn analog_chip_posts(p1: Point, flags: i32) -> (r: Vec<Point>)
    requires
        p1.0 + 3 * chip_spacing(flags) <= i32::MAX,
        p1.1 + chip_spacing(flags) <= i32::MAX,
    ensures
        r@ == seq![
            p1,
            (p1.0, (p1.1 + chip_spacing(flags)) as i32),
            ((p1.0 + 3 * chip_spacing(flags)) as i32, p1.1),
            ((p1.0 + 3 * chip_spacing(flags)) as i32, (p1.1 + chip_spacing(flags)) as i32),
        ],
{
    let csize: i32 = if flags & 1 != 0 { 1 } else { 2 };
    let cspc2 = 16 * csize;
    assert(cspc2 == chip_spacing(flags));
    let x0 = p1.0 + cspc2;
    let y0 = p1.1;
    let mut v: Vec<Point> = Vec::new();
    v.push((p1.0, y0));
    v.push((p1.0, y0 + cspc2));
    v.push((x0 + 2 * cspc2, y0));
    v.push((x0 + 2 * cspc2, y0 + cspc2));
    proof {
        assert(v@ =~= seq![
            p1,
            (p1.0, (p1.1 + chip_spacing(flags)) as i32),
            ((p1.0 + 3 * chip_spacing(flags)) as i32, p1.1),
            ((p1.0 + 3 * chip_spacing(flags)) as i32, (p1.1 + chip_spacing(flags)) as i32),
        ]);
    }
    v
}


/// Absolute value.
pub open spec fn abs_int(v: int) -> int {
    if v < 0 { -v } else { v }
}

/// Perpendicular offset of a potentiometer's wiper from the middle of its
/// body: along the long axis' perpendicular, pointing away from the side
/// flag 2 flips; when that gives 0, one grid step (8), negative with flag 4.
pub open spec fn wiper_offset(p1: Point, p2: Point, flags: i32) -> int {
    let dx = p2.0 - p1.0;
    let dy = p2.1 - p1.1;
    let flip = flags & 2 != 0;
    let o = if (abs_int(dx) > abs_int(dy)) != flip {
        if dx < 0 { dy } else { -dy }
    } else if dy != 0 {
        if dy > 0 { dx } else { -dx }
    } else {
        0
    };
    if o == 0 {
        if flags & 4 != 0 { -8 } else { 8 }
    } else {
        o
    }
}

/// Offset of the wiper of a potentiometer from `p1` to `p2`.
pub fn pot_wiper_offset(p1: Point, p2: Point, flags: i32) -> (r: i32)
    requires
        i32::MIN < p2.0 - p1.0 <= i32::MAX,
        i32::MIN < p2.1 - p1.1 <= i32::MAX,
    ensures
        r == wiper_offset(p1, p2, flags),
{
    let dx = p2.0 - p1.0;
    let dy = p2.1 - p1.1;
    let flip = (flags & 2) != 0;
    let adx = if dx < 0 { -dx } else { dx };
    let ady = if dy < 0 { -dy } else { dy };
    let mut offset = if (adx > ady) != flip {
        if dx < 0 { dy } else { -dy }
    } else if dy != 0 {
        if dy > 0 { dx } else { -dx }
    } else {
        0
    };
    if offset == 0 {
        offset = if (flags & 4) != 0 { -8 } else { 8 };
    }
    offset
}

/// Coordinates within 2^20 of the origin, where the wiper arithmetic is exact.
pub open spec fn small_point(p: Point) -> bool {
    -0x100000 <= p.0 <= 0x100000 && -0x100000 <= p.1 <= 0x100000
}

/// Half of `s`, rounded half away from zero.
pub open spec fn half_round(s: int) -> int {
    if s % 2 == 0 {
        s / 2
    } else if s > 0 {
        (s + 1) / 2
    } else {
        (s - 1) / 2
    }
}

/// Sign of `v`.
pub open spec fn sgn(v: int) -> int {
    if v > 0 { 1 } else if v < 0 { -1 } else { 0 }
}

/// Wiper of a potentiometer whose body is horizontal or vertical (or a
/// single point), with small coordinates: the middle of the body, rounded
/// half away from zero, moved by the wiper offset across the body. `None`
/// for other bodies.
pub open spec fn axis_wiper(p1: Point, p2: Point, flags: i32) -> Option<Point> {
    if !small_point(p1) || !small_point(p2) || !(p1.0 == p2.0 || p1.1 == p2.1) {
        None
    } else {
        let o = wiper_offset(p1, p2, flags);
        if p1 == p2 {
            Some(p1)
        } else if p1.0 == p2.0 {
            Some(((p1.0 + sgn(p2.1 - p1.1) * o) as i32, half_round(p1.1 + p2.1) as i32))
        } else {
            Some((half_round(p1.0 + p2.0) as i32, (p1.1 - sgn(p2.0 - p1.0) * o) as i32))
        }
    }
}

fn half_round_exec(s: i64) -> (r: i64)
    requires
        -0x400000 <= s <= 0x400000,
    ensures
        r == half_round(s as int),
{
    if s % 2 == 0 {
        s / 2
    } else if s > 0 {
        (s + 1) / 2
    } else {
        (s - 1) / 2
    }
}

/// The wiper of a potentiometer whose body is horizontal or vertical, when
/// its coordinates are small; `None` otherwise.
#[verifier::spinoff_prover]
pub fn pot_wiper_axis(p1: Point, p2: Point, flags: i32) -> (r: Option<Point>)
    ensures
        r == axis_wiper(p1, p2, flags),
{
    let lim: i32 = 0x100000;
    if p1.0 < -lim || p1.0 > lim || p1.1 < -lim || p1.1 > lim || p2.0 < -lim || p2.0 > lim || p2.1 < -lim
        || p2.1 > lim {
        return None;
    }
    if p1.0 != p2.0 && p1.1 != p2.1 {
        return None;
    }
    let o = pot_wiper_offset(p1, p2, flags);
    proof {
        assert(-0x200000 <= o <= 0x200000);
    }
    if p1.0 == p2.0 && p1.1 == p2.1 {
        return Some(p1);
    }
    if p1.0 == p2.0 {
        let s: i64 = if p2.1 > p1.1 { 1 } else { -1 };
        assert(s * (o as i64) == sgn(p2.1 - p1.1) * o) by (nonlinear_arith)
            requires
                s == sgn(p2.1 - p1.1),
                s == 1 || s == -1,
        ;
        assert(-0x200000 <= s * (o as i64) <= 0x200000) by (nonlinear_arith)
            requires
                s == 1 || s == -1,
                -0x200000 <= o <= 0x200000,
        ;
        let x = p1.0 as i64 + s * (o as i64);
        let y = half_round_exec(p1.1 as i64 + p2.1 as i64);
        Some((x as i32, y as i32))
    } else {
        let s: i64 = if p2.0 > p1.0 { 1 } else { -1 };
        assert(s * (o as i64) == sgn(p2.0 - p1.0) * o) by (nonlinear_arith)
            requires
                s == sgn(p2.0 - p1.0),
                s == 1 || s == -1,
        ;
        assert(-0x200000 <= s * (o as i64) <= 0x200000) by (nonlinear_arith)
            requires
                s == 1 || s == -1,
                -0x200000 <= o <= 0x200000,
        ;
        let y = p1.1 as i64 - s * (o as i64);
        let x = half_round_exec(p1.0 as i64 + p2.0 as i64);
        Some((x as i32, y as i32))
    }
}

/// On a horizontal or vertical body with small coordinates, an even
/// coordinate sum along the body and flag 2 clear, the wiper sits one grid
/// step (8) across from the middle of the body, on the other side when flag
/// 4 is set.
pub proof fn lemma_axis_wiper_grid(p1: Point, p2: Point, flags: i32)
    requires
        flags & 2 == 0,
        p1 != p2,
        p1.0 == p2.0 || p1.1 == p2.1,
        small_point(p1),
        small_point(p2),
        p1.0 == p2.0 ==> (p1.1 + p2.1) % 2 == 0,
        p1.1 == p2.1 ==> (p1.0 + p2.0) % 2 == 0,
    ensures
        ({
            let o: int = if flags & 4 != 0 { -8 } else { 8 };
            &&& p1.0 == p2.0 ==> axis_wiper(p1, p2, flags) == Some(
                ((p1.0 + sgn(p2.1 - p1.1) * o) as i32, ((p1.1 + p2.1) / 2) as i32),
            )
            &&& p1.1 == p2.1 ==> axis_wiper(p1, p2, flags) == Some(
                (((p1.0 + p2.0) / 2) as i32, (p1.1 - sgn(p2.0 - p1.0) * o) as i32),
            )
        }),
{
}

} // verus!
