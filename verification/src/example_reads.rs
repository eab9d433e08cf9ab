//! The built-in examples read without error: each example text, line by
//! line, through the dump reader's definition.
use vstd::prelude::*;
use crate::dump::{element_count, lemma_scan_push, lemma_short_number, line_spec, parse_lines, parse_text, scan, text_lines};
use crate::examples::catalog;

verus! {

/// Reading the line `v 0 100 0 0 0 0 40 10 0 0 0.5`.
proof fn lemma_dump_line_1(p: Seq<char>)
    requires
        scan(p).1 == Seq::<Seq<char>>::empty(),
        scan(p).2 == Seq::<char>::empty(),
    ensures
        scan(p + seq!['v', ' ', '0', ' ', '1', '0', '0', ' ', '0', ' ', '0', ' ', '0', ' ', '0', ' ', '4', '0', ' ', '1', '0', ' ', '0', ' ', '0', ' ', '0', '.', '5', '\n']) =~~= (scan(p).0.push(seq![seq!['v'], seq!['0'], seq!['1', '0', '0'], seq!['0'], seq!['0'], seq!['0'], seq!['0'], seq!['4', '0'], seq!['1', '0'], seq!['0'], seq!['0'], seq!['0', '.', '5']]), Seq::<Seq<char>>::empty(), Seq::<char>::empty()),
{
    let l = scan(p).0;
    let q = p;
    lemma_scan_push(q, 'v');
    let q = q.push('v');
    assert(scan(q) =~~= (l, Seq::<Seq<char>>::empty(), seq!['v']));
    lemma_scan_push(q, ' ');
    let q = q.push(' ');
    assert(scan(q) =~~= (l, seq![seq!['v']], Seq::<char>::empty()));
    lemma_scan_push(q, '0');
    let q = q.push('0');
    assert(scan(q) =~~= (l, seq![seq!['v']], seq!['0']));
    lemma_scan_push(q, ' ');
    let q = q.push(' ');
    assert(scan(q) =~~= (l, seq![seq!['v'], seq!['0']], Seq::<char>::empty()));
    lemma_scan_push(q, '1');
    let q = q.push('1');
    assert(scan(q) =~~= (l, seq![seq!['v'], seq!['0']], seq!['1']));
    lemma_scan_push(q, '0');
    let q = q.push('0');
    assert(scan(q) =~~= (l, seq![seq!['v'], seq!['0']], seq!['1', '0']));
    lemma_scan_push(q, '0');
    let q = q.push('0');
    assert(scan(q) =~~= (l, seq![seq!['v'], seq!['0']], seq!['1', '0', '0']));
    lemma_scan_push(q, ' ');
    let q = q.push(' ');
    assert(scan(q) =~~= (l, seq![seq!['v'], seq!['0'], seq!['1', '0', '0']], Seq::<char>::empty()));
    lemma_scan_push(q, '0');
    let q = q.push('0');
    assert(scan(q) =~~= (l, seq![seq!['v'], seq!['0'], seq!['1', '0', '0']], seq!['0']));
    lemma_scan_push(q, ' ');
    let q = q.push(' ');
    assert(scan(q) =~~= (l, seq![seq!['v'], seq!['0'], seq!['1', '0', '0'], seq!['0']], Seq::<char>::empty()));
    lemma_scan_push(q, '0');
    let q = q.push('0');
    assert(scan(q) =~~= (l, seq![seq!['v'], seq!['0'], seq!['1', '0', '0'], seq!['0']], seq!['0']));
    lemma_scan_push(q, ' ');
    let q = q.push(' ');
    assert(scan(q) =~~= (l, seq![seq!['v'], seq!['0'], seq!['1', '0', '0'], seq!['0'], seq!['0']], Seq::<char>::empty()));
    lemma_scan_push(q, '0');
    let q = q.push('0');
    assert(scan(q) =~~= (l, seq![seq!['v'], seq!['0'], seq!['1', '0', '0'], seq!['0'], seq!['0']], seq!['0']));
    lemma_scan_push(q, ' ');
    let q = q.push(' ');
    assert(scan(q) =~~= (l, seq![seq!['v'], seq!['0'], seq!['1', '0', '0'], seq!['0'], seq!['0'], seq!['0']], Seq::<char>::empty()));
    lemma_scan_push(q, '0');
    let q = q.push('0');
    assert(scan(q) =~~= (l, seq![seq!['v'], seq!['0'], seq!['1', '0', '0'], seq!['0'], seq!['0'], seq!['0']], seq!['0']));
    lemma_scan_push(q, ' ');
    let q = q.push(' ');
    assert(scan(q) =~~= (l, seq![seq!['v'], seq!['0'], seq!['1', '0', '0'], seq!['0'], seq!['0'], seq!['0'], seq!['0']], Seq::<char>::empty()));
    lemma_scan_push(q, '4');
    let q = q.push('4');
    assert(scan(q) =~~= (l, seq![seq!['v'], seq!['0'], seq!['1', '0', '0'], seq!['0'], seq!['0'], seq!['0'], seq!['0']], seq!['4']));
    lemma_scan_push(q, '0');
    let q = q.push('0');
    assert(scan(q) =~~= (l, seq![seq!['v'], seq!['0'], seq!['1', '0', '0'], seq!['0'], seq!['0'], seq!['0'], seq!['0']], seq!['4', '0']));
    lemma_scan_push(q, ' ');
    let q = q.push(' ');
    assert(scan(q) =~~= (l, seq![seq!['v'], seq!['0'], seq!['1', '0', '0'], seq!['0'], seq!['0'], seq!['0'], seq!['0'], seq!['4', '0']], Seq::<char>::empty()));
    lemma_scan_push(q, '1');
    let q = q.push('1');
    assert(scan(q) =~~= (l, seq![seq!['v'], seq!['0'], seq!['1', '0', '0'], seq!['0'], seq!['0'], seq!['0'], seq!['0'], seq!['4', '0']], seq!['1']));
    lemma_scan_push(q, '0');
    let q = q.push('0');
    assert(scan(q) =~~= (l, seq![seq!['v'], seq!['0'], seq!['1', '0', '0'], seq!['0'], seq!['0'], seq!['0'], seq!['0'], seq!['4', '0']], seq!['1', '0']));
    lemma_scan_push(q, ' ');
    let q = q.push(' ');
    assert(scan(q) =~~= (l, seq![seq!['v'], seq!['0'], seq!['1', '0', '0'], seq!['0'], seq!['0'], seq!['0'], seq!['0'], seq!['4', '0'], seq!['1', '0']], Seq::<char>::empty()));
    lemma_scan_push(q, '0');
    let q = q.push('0');
    assert(scan(q) =~~= (l, seq![seq!['v'], seq!['0'], seq!['1', '0', '0'], seq!['0'], seq!['0'], seq!['0'], seq!['0'], seq!['4', '0'], seq!['1', '0']], seq!['0']));
    lemma_scan_push(q, ' ');
    let q = q.push(' ');
    assert(scan(q) =~~= (l, seq![seq!['v'], seq!['0'], seq!['1', '0', '0'], seq!['0'], seq!['0'], seq!['0'], seq!['0'], seq!['4', '0'], seq!['1', '0'], seq!['0']], Seq::<char>::empty()));
    lemma_scan_push(q, '0');
    let q = q.push('0');
    assert(scan(q) =~~= (l, seq![seq!['v'], seq!['0'], seq!['1', '0', '0'], seq!['0'], seq!['0'], seq!['0'], seq!['0'], seq!['4', '0'], seq!['1', '0'], seq!['0']], seq!['0']));
    lemma_scan_push(q, ' ');
    let q = q.push(' ');
    assert(scan(q) =~~= (l, seq![seq!['v'], seq!['0'], seq!['1', '0', '0'], seq!['0'], seq!['0'], seq!['0'], seq!['0'], seq!['4', '0'], seq!['1', '0'], seq!['0'], seq!['0']], Seq::<char>::empty()));
    lemma_scan_push(q, '0');
    let q = q.push('0');
    assert(scan(q) =~~= (l, seq![seq!['v'], seq!['0'], seq!['1', '0', '0'], seq!['0'], seq!['0'], seq!['0'], seq!['0'], seq!['4', '0'], seq!['1', '0'], seq!['0'], seq!['0']], seq!['0']));
    lemma_scan_push(q, '.');
    let q = q.push('.');
    assert(scan(q) =~~= (l, seq![seq!['v'], seq!['0'], seq!['1', '0', '0'], seq!['0'], seq!['0'], seq!['0'], seq!['0'], seq!['4', '0'], seq!['1', '0'], seq!['0'], seq!['0']], seq!['0', '.']));
    lemma_scan_push(q, '5');
    let q = q.push('5');
    assert(scan(q) =~~= (l, seq![seq!['v'], seq!['0'], seq!['1', '0', '0'], seq!['0'], seq!['0'], seq!['0'], seq!['0'], seq!['4', '0'], seq!['1', '0'], seq!['0'], seq!['0']], seq!['0', '.', '5']));
    lemma_scan_push(q, '\n');
    let q = q.push('\n');
    assert(scan(q) =~~= (l.push(seq![seq!['v'], seq!['0'], seq!['1', '0', '0'], seq!['0'], seq!['0'], seq!['0'], seq!['0'], seq!['4', '0'], seq!['1', '0'], seq!['0'], seq!['0'], seq!['0', '.', '5']]), Seq::<Seq<char>>::empty(), Seq::<char>::empty()));
    assert(q =~= p + seq!['v', ' ', '0', ' ', '1', '0', '0', ' ', '0', ' ', '0', ' ', '0', ' ', '0', ' ', '4', '0', ' ', '1', '0', ' ', '0', ' ', '0', ' ', '0', '.', '5', '\n']);
}

/// Reading the line `r 0 0 100 0 0 1000`.
proof fn lemma_dump_line_2(p: Seq<char>)
    requires
        scan(p).1 == Seq::<Seq<char>>::empty(),
        scan(p).2 == Seq::<char>::empty(),
    ensures
        scan(p + seq!['r', ' ', '0', ' ', '0', ' ', '1', '0', '0', ' ', '0', ' ', '0', ' ', '1', '0', '0', '0', '\n']) =~~= (scan(p).0.push(seq![seq!['r'], seq!['0'], seq!['0'], seq!['1', '0', '0'], seq!['0'], seq!['0'], seq!['1', '0', '0', '0']]), Seq::<Seq<char>>::empty(), Seq::<char>::empty()),
{
    let l = scan(p).0;
    let q = p;
    lemma_scan_push(q, 'r');
    let q = q.push('r');
    assert(scan(q) =~~= (l, Seq::<Seq<char>>::empty(), seq!['r']));
    lemma_scan_push(q, ' ');
    let q = q.push(' ');
    assert(scan(q) =~~= (l, seq![seq!['r']], Seq::<char>::empty()));
    lemma_scan_push(q, '0');
    let q = q.push('0');
    assert(scan(q) =~~= (l, seq![seq!['r']], seq!['0']));
    lemma_scan_push(q, ' ');
    let q = q.push(' ');
    assert(scan(q) =~~= (l, seq![seq!['r'], seq!['0']], Seq::<char>::empty()));
    lemma_scan_push(q, '0');
    let q = q.push('0');
    assert(scan(q) =~~= (l, seq![seq!['r'], seq!['0']], seq!['0']));
    lemma_scan_push(q, ' ');
    let q = q.push(' ');
    assert(scan(q) =~~= (l, seq![seq!['r'], seq!['0'], seq!['0']], Seq::<char>::empty()));
    lemma_scan_push(q, '1');
    let q = q.push('1');
    assert(scan(q) =~~= (l, seq![seq!['r'], seq!['0'], seq!['0']], seq!['1']));
    lemma_scan_push(q, '0');
    let q = q.push('0');
    assert(scan(q) =~~= (l, seq![seq!['r'], seq!['0'], seq!['0']], seq!['1', '0']));
    lemma_scan_push(q, '0');
    let q = q.push('0');
    assert(scan(q) =~~= (l, seq![seq!['r'], seq!['0'], seq!['0']], seq!['1', '0', '0']));
    lemma_scan_push(q, ' ');
    let q = q.push(' ');
    assert(scan(q) =~~= (l, seq![seq!['r'], seq!['0'], seq!['0'], seq!['1', '0', '0']], Seq::<char>::empty()));
    lemma_scan_push(q, '0');
    let q = q.push('0');
    assert(scan(q) =~~= (l, seq![seq!['r'], seq!['0'], seq!['0'], seq!['1', '0', '0']], seq!['0']));
    lemma_scan_push(q, ' ');
    let q = q.push(' ');
    assert(scan(q) =~~= (l, seq![seq!['r'], seq!['0'], seq!['0'], seq!['1', '0', '0'], seq!['0']], Seq::<char>::empty()));
    lemma_scan_push(q, '0');
    let q = q.push('0');
    assert(scan(q) =~~= (l, seq![seq!['r'], seq!['0'], seq!['0'], seq!['1', '0', '0'], seq!['0']], seq!['0']));
    lemma_scan_push(q, ' ');
    let q = q.push(' ');
    assert(scan(q) =~~= (l, seq![seq!['r'], seq!['0'], seq!['0'], seq!['1', '0', '0'], seq!['0'], seq!['0']], Seq::<char>::empty()));
    lemma_scan_push(q, '1');
    let q = q.push('1');
    assert(scan(q) =~~= (l, seq![seq!['r'], seq!['0'], seq!['0'], seq!['1', '0', '0'], seq!['0'], seq!['0']], seq!['1']));
    lemma_scan_push(q, '0');
    let q = q.push('0');
    assert(scan(q) =~~= (l, seq![seq!['r'], seq!['0'], seq!['0'], seq!['1', '0', '0'], seq!['0'], seq!['0']], seq!['1', '0']));
    lemma_scan_push(q, '0');
    let q = q.push('0');
    assert(scan(q) =~~= (l, seq![seq!['r'], seq!['0'], seq!['0'], seq!['1', '0', '0'], seq!['0'], seq!['0']], seq!['1', '0', '0']));
    lemma_scan_push(q, '0');
    let q = q.push('0');
    assert(scan(q) =~~= (l, seq![seq!['r'], seq!['0'], seq!['0'], seq!['1', '0', '0'], seq!['0'], seq!['0']], seq!['1', '0', '0', '0']));
    lemma_scan_push(q, '\n');
    let q = q.push('\n');
    assert(scan(q) =~~= (l.push(seq![seq!['r'], seq!['0'], seq!['0'], seq!['1', '0', '0'], seq!['0'], seq!['0'], seq!['1', '0', '0', '0']]), Seq::<Seq<char>>::empty(), Seq::<char>::empty()));
    assert(q =~= p + seq!['r', ' ', '0', ' ', '0', ' ', '1', '0', '0', ' ', '0', ' ', '0', ' ', '1', '0', '0', '0', '\n']);
}

/// Reading the line `r 100 0 100 100 0 1000`.
proof fn lemma_dump_line_3(p: Seq<char>)
    requires
        scan(p).1 == Seq::<Seq<char>>::empty(),
        scan(p).2 == Seq::<char>::empty(),
    ensures
        scan(p + seq!['r', ' ', '1', '0', '0', ' ', '0', ' ', '1', '0', '0', ' ', '1', '0', '0', ' ', '0', ' ', '1', '0', '0', '0', '\n']) =~~= (scan(p).0.push(seq![seq!['r'], seq!['1', '0', '0'], seq!['0'], seq!['1', '0', '0'], seq!['1', '0', '0'], seq!['0'], seq!['1', '0', '0', '0']]), Seq::<Seq<char>>::empty(), Seq::<char>::empty()),
{
    let l = scan(p).0;
    let q = p;
    lemma_scan_push(q, 'r');
    let q = q.push('r');
    assert(scan(q) =~~= (l, Seq::<Seq<char>>::empty(), seq!['r']));
    lemma_scan_push(q, ' ');
    let q = q.push(' ');
    assert(scan(q) =~~= (l, seq![seq!['r']], Seq::<char>::empty()));
    lemma_scan_push(q, '1');
    let q = q.push('1');
    assert(scan(q) =~~= (l, seq![seq!['r']], seq!['1']));
    lemma_scan_push(q, '0');
    let q = q.push('0');
    assert(scan(q) =~~= (l, seq![seq!['r']], seq!['1', '0']));
    lemma_scan_push(q, '0');
    let q = q.push('0');
    assert(scan(q) =~~= (l, seq![seq!['r']], seq!['1', '0', '0']));
    lemma_scan_push(q, ' ');
    let q = q.push(' ');
    assert(scan(q) =~~= (l, seq![seq!['r'], seq!['1', '0', '0']], Seq::<char>::empty()));
    lemma_scan_push(q, '0');
    let q = q.push('0');
    assert(scan(q) =~~= (l, seq![seq!['r'], seq!['1', '0', '0']], seq!['0']));
    lemma_scan_push(q, ' ');
    let q = q.push(' ');
    assert(scan(q) =~~= (l, seq![seq!['r'], seq!['1', '0', '0'], seq!['0']], Seq::<char>::empty()));
    lemma_scan_push(q, '1');
    let q = q.push('1');
    assert(scan(q) =~~= (l, seq![seq!['r'], seq!['1', '0', '0'], seq!['0']], seq!['1']));
    lemma_scan_push(q, '0');
    let q = q.push('0');
    assert(scan(q) =~~= (l, seq![seq!['r'], seq!['1', '0', '0'], seq!['0']], seq!['1', '0']));
    lemma_scan_push(q, '0');
    let q = q.push('0');
    assert(scan(q) =~~= (l, seq![seq!['r'], seq!['1', '0', '0'], seq!['0']], seq!['1', '0', '0']));
    lemma_scan_push(q, ' ');
    let q = q.push(' ');
    assert(scan(q) =~~= (l, seq![seq!['r'], seq!['1', '0', '0'], seq!['0'], seq!['1', '0', '0']], Seq::<char>::empty()));
    lemma_scan_push(q, '1');
    let q = q.push('1');
    assert(scan(q) =~~= (l, seq![seq!['r'], seq!['1', '0', '0'], seq!['0'], seq!['1', '0', '0']], seq!['1']));
    lemma_scan_push(q, '0');
    let q = q.push('0');
    assert(scan(q) =~~= (l, seq![seq!['r'], seq!['1', '0', '0'], seq!['0'], seq!['1', '0', '0']], seq!['1', '0']));
    lemma_scan_push(q, '0');
    let q = q.push('0');
    assert(scan(q) =~~= (l, seq![seq!['r'], seq!['1', '0', '0'], seq!['0'], seq!['1', '0', '0']], seq!['1', '0', '0']));
    lemma_scan_push(q, ' ');
    let q = q.push(' ');
    assert(scan(q) =~~= (l, seq![seq!['r'], seq!['1', '0', '0'], seq!['0'], seq!['1', '0', '0'], seq!['1', '0', '0']], Seq::<char>::empty()));
    lemma_scan_push(q, '0');
    let q = q.push('0');
    assert(scan(q) =~~= (l, seq![seq!['r'], seq!['1', '0', '0'], seq!['0'], seq!['1', '0', '0'], seq!['1', '0', '0']], seq!['0']));
    lemma_scan_push(q, ' ');
    let q = q.push(' ');
    assert(scan(q) =~~= (l, seq![seq!['r'], seq!['1', '0', '0'], seq!['0'], seq!['1', '0', '0'], seq!['1', '0', '0'], seq!['0']], Seq::<char>::empty()));
    lemma_scan_push(q, '1');
    let q = q.push('1');
    assert(scan(q) =~~= (l, seq![seq!['r'], seq!['1', '0', '0'], seq!['0'], seq!['1', '0', '0'], seq!['1', '0', '0'], seq!['0']], seq!['1']));
    lemma_scan_push(q, '0');
    let q = q.push('0');
    assert(scan(q) =~~= (l, seq![seq!['r'], seq!['1', '0', '0'], seq!['0'], seq!['1', '0', '0'], seq!['1', '0', '0'], seq!['0']], seq!['1', '0']));
    lemma_scan_push(q, '0');
    let q = q.push('0');
    assert(scan(q) =~~= (l, seq![seq!['r'], seq!['1', '0', '0'], seq!['0'], seq!['1', '0', '0'], seq!['1', '0', '0'], seq!['0']], seq!['1', '0', '0']));
    lemma_scan_push(q, '0');
    let q = q.push('0');
    assert(scan(q) =~~= (l, seq![seq!['r'], seq!['1', '0', '0'], seq!['0'], seq!['1', '0', '0'], seq!['1', '0', '0'], seq!['0']], seq!['1', '0', '0', '0']));
    lemma_scan_push(q, '\n');
    let q = q.push('\n');
    assert(scan(q) =~~= (l.push(seq![seq!['r'], seq!['1', '0', '0'], seq!['0'], seq!['1', '0', '0'], seq!['1', '0', '0'], seq!['0'], seq!['1', '0', '0', '0']]), Seq::<Seq<char>>::empty(), Seq::<char>::empty()));
    assert(q =~= p + seq!['r', ' ', '1', '0', '0', ' ', '0', ' ', '1', '0', '0', ' ', '1', '0', '0', ' ', '0', ' ', '1', '0', '0', '0', '\n']);
}

/// Reading the line `w 100 100 0 100 0`.
proof fn lemma_dump_line_4(p: Seq<char>)
    requires
        scan(p).1 == Seq::<Seq<char>>::empty(),
        scan(p).2 == Seq::<char>::empty(),
    ensures
        scan(p + seq!['w', ' ', '1', '0', '0', ' ', '1', '0', '0', ' ', '0', ' ', '1', '0', '0', ' ', '0', '\n']) =~~= (scan(p).0.push(seq![seq!['w'], seq!['1', '0', '0'], seq!['1', '0', '0'], seq!['0'], seq!['1', '0', '0'], seq!['0']]), Seq::<Seq<char>>::empty(), Seq::<char>::empty()),
{
    let l = scan(p).0;
    let q = p;
    lemma_scan_push(q, 'w');
    let q = q.push('w');
    assert(scan(q) =~~= (l, Seq::<Seq<char>>::empty(), seq!['w']));
    lemma_scan_push(q, ' ');
    let q = q.push(' ');
    assert(scan(q) =~~= (l, seq![seq!['w']], Seq::<char>::empty()));
    lemma_scan_push(q, '1');
    let q = q.push('1');
    assert(scan(q) =~~= (l, seq![seq!['w']], seq!['1']));
    lemma_scan_push(q, '0');
    let q = q.push('0');
    assert(scan(q) =~~= (l, seq![seq!['w']], seq!['1', '0']));
    lemma_scan_push(q, '0');
    let q = q.push('0');
    assert(scan(q) =~~= (l, seq![seq!['w']], seq!['1', '0', '0']));
    lemma_scan_push(q, ' ');
    let q = q.push(' ');
    assert(scan(q) =~~= (l, seq![seq!['w'], seq!['1', '0', '0']], Seq::<char>::empty()));
    lemma_scan_push(q, '1');
    let q = q.push('1');
    assert(scan(q) =~~= (l, seq![seq!['w'], seq!['1', '0', '0']], seq!['1']));
    lemma_scan_push(q, '0');
    let q = q.push('0');
    assert(scan(q) =~~= (l, seq![seq!['w'], seq!['1', '0', '0']], seq!['1', '0']));
    lemma_scan_push(q, '0');
    let q = q.push('0');
    assert(scan(q) =~~= (l, seq![seq!['w'], seq!['1', '0', '0']], seq!['1', '0', '0']));
    lemma_scan_push(q, ' ');
    let q = q.push(' ');
    assert(scan(q) =~~= (l, seq![seq!['w'], seq!['1', '0', '0'], seq!['1', '0', '0']], Seq::<char>::empty()));
    lemma_scan_push(q, '0');
    let q = q.push('0');
    assert(scan(q) =~~= (l, seq![seq!['w'], seq!['1', '0', '0'], seq!['1', '0', '0']], seq!['0']));
    lemma_scan_push(q, ' ');
    let q = q.push(' ');
    assert(scan(q) =~~= (l, seq![seq!['w'], seq!['1', '0', '0'], seq!['1', '0', '0'], seq!['0']], Seq::<char>::empty()));
    lemma_scan_push(q, '1');
    let q = q.push('1');
    assert(scan(q) =~~= (l, seq![seq!['w'], seq!['1', '0', '0'], seq!['1', '0', '0'], seq!['0']], seq!['1']));
    lemma_scan_push(q, '0');
    let q = q.push('0');
    assert(scan(q) =~~= (l, seq![seq!['w'], seq!['1', '0', '0'], seq!['1', '0', '0'], seq!['0']], seq!['1', '0']));
    lemma_scan_push(q, '0');
    let q = q.push('0');
    assert(scan(q) =~~= (l, seq![seq!['w'], seq!['1', '0', '0'], seq!['1', '0', '0'], seq!['0']], seq!['1', '0', '0']));
    lemma_scan_push(q, ' ');
    let q = q.push(' ');
    assert(scan(q) =~~= (l, seq![seq!['w'], seq!['1', '0', '0'], seq!['1', '0', '0'], seq!['0'], seq!['1', '0', '0']], Seq::<char>::empty()));
    lemma_scan_push(q, '0');
    let q = q.push('0');
    assert(scan(q) =~~= (l, seq![seq!['w'], seq!['1', '0', '0'], seq!['1', '0', '0'], seq!['0'], seq!['1', '0', '0']], seq!['0']));
    lemma_scan_push(q, '\n');
    let q = q.push('\n');
    assert(scan(q) =~~= (l.push(seq![seq!['w'], seq!['1', '0', '0'], seq!['1', '0', '0'], seq!['0'], seq!['1', '0', '0'], seq!['0']]), Seq::<Seq<char>>::empty(), Seq::<char>::empty()));
    assert(q =~= p + seq!['w', ' ', '1', '0', '0', ' ', '1', '0', '0', ' ', '0', ' ', '1', '0', '0', ' ', '0', '\n']);
}

/// Reading the line `$ 0 0.000001`.
proof fn lemma_dump_line_5(p: Seq<char>)
    requires
        scan(p).1 == Seq::<Seq<char>>::empty(),
        scan(p).2 == Seq::<char>::empty(),
    ensures
        scan(p + seq!['$', ' ', '0', ' ', '0', '.', '0', '0', '0', '0', '0', '1', '\n']) =~~= (scan(p).0.push(seq![seq!['$'], seq!['0'], seq!['0', '.', '0', '0', '0', '0', '0', '1']]), Seq::<Seq<char>>::empty(), Seq::<char>::empty()),
{
    let l = scan(p).0;
    let q = p;
    lemma_scan_push(q, '$');
    let q = q.push('$');
    assert(scan(q) =~~= (l, Seq::<Seq<char>>::empty(), seq!['$']));
    lemma_scan_push(q, ' ');
    let q = q.push(' ');
    assert(scan(q) =~~= (l, seq![seq!['$']], Seq::<char>::empty()));
    lemma_scan_push(q, '0');
    let q = q.push('0');
    assert(scan(q) =~~= (l, seq![seq!['$']], seq!['0']));
    lemma_scan_push(q, ' ');
    let q = q.push(' ');
    assert(scan(q) =~~= (l, seq![seq!['$'], seq!['0']], Seq::<char>::empty()));
    lemma_scan_push(q, '0');
    let q = q.push('0');
    assert(scan(q) =~~= (l, seq![seq!['$'], seq!['0']], seq!['0']));
    lemma_scan_push(q, '.');
    let q = q.push('.');
    assert(scan(q) =~~= (l, seq![seq!['$'], seq!['0']], seq!['0', '.']));
    lemma_scan_push(q, '0');
    let q = q.push('0');
    assert(scan(q) =~~= (l, seq![seq!['$'], seq!['0']], seq!['0', '.', '0']));
    lemma_scan_push(q, '0');
    let q = q.push('0');
    assert(scan(q) =~~= (l, seq![seq!['$'], seq!['0']], seq!['0', '.', '0', '0']));
    lemma_scan_push(q, '0');
    let q = q.push('0');
    assert(scan(q) =~~= (l, seq![seq!['$'], seq!['0']], seq!['0', '.', '0', '0', '0']));
    lemma_scan_push(q, '0');
    let q = q.push('0');
    assert(scan(q) =~~= (l, seq![seq!['$'], seq!['0']], seq!['0', '.', '0', '0', '0', '0']));
    lemma_scan_push(q, '0');
    let q = q.push('0');
    assert(scan(q) =~~= (l, seq![seq!['$'], seq!['0']], seq!['0', '.', '0', '0', '0', '0', '0']));
    lemma_scan_push(q, '1');
    let q = q.push('1');
    assert(scan(q) =~~= (l, seq![seq!['$'], seq!['0']], seq!['0', '.', '0', '0', '0', '0', '0', '1']));
    lemma_scan_push(q, '\n');
    let q = q.push('\n');
    assert(scan(q) =~~= (l.push(seq![seq!['$'], seq!['0'], seq!['0', '.', '0', '0', '0', '0', '0', '1']]), Seq::<Seq<char>>::empty(), Seq::<char>::empty()));
    assert(q =~= p + seq!['$', ' ', '0', ' ', '0', '.', '0', '0', '0', '0', '0', '1', '\n']);
}

/// Reading the line `v 0 100 0 0 0 0 40 1 0 0 0.5`.
proof fn lemma_dump_line_6(p: Seq<char>)
    requires
        scan(p).1 == Seq::<Seq<char>>::empty(),
        scan(p).2 == Seq::<char>::empty(),
    ensures
        scan(p + seq!['v', ' ', '0', ' ', '1', '0', '0', ' ', '0', ' ', '0', ' ', '0', ' ', '0', ' ', '4', '0', ' ', '1', ' ', '0', ' ', '0', ' ', '0', '.', '5', '\n']) =~~= (scan(p).0.push(seq![seq!['v'], seq!['0'], seq!['1', '0', '0'], seq!['0'], seq!['0'], seq!['0'], seq!['0'], seq!['4', '0'], seq!['1'], seq!['0'], seq!['0'], seq!['0', '.', '5']]), Seq::<Seq<char>>::empty(), Seq::<char>::empty()),
{
    let l = scan(p).0;
    let q = p;
    lemma_scan_push(q, 'v');
    let q = q.push('v');
    assert(scan(q) =~~= (l, Seq::<Seq<char>>::empty(), seq!['v']));
    lemma_scan_push(q, ' ');
    let q = q.push(' ');
    assert(scan(q) =~~= (l, seq![seq!['v']], Seq::<char>::empty()));
    lemma_scan_push(q, '0');
    let q = q.push('0');
    assert(scan(q) =~~= (l, seq![seq!['v']], seq!['0']));
    lemma_scan_push(q, ' ');
    let q = q.push(' ');
    assert(scan(q) =~~= (l, seq![seq!['v'], seq!['0']], Seq::<char>::empty()));
    lemma_scan_push(q, '1');
    let q = q.push('1');
    assert(scan(q) =~~= (l, seq![seq!['v'], seq!['0']], seq!['1']));
    lemma_scan_push(q, '0');
    let q = q.push('0');
    assert(scan(q) =~~= (l, seq![seq!['v'], seq!['0']], seq!['1', '0']));
    lemma_scan_push(q, '0');
    let q = q.push('0');
    assert(scan(q) =~~= (l, seq![seq!['v'], seq!['0']], seq!['1', '0', '0']));
    lemma_scan_push(q, ' ');
    let q = q.push(' ');
    assert(scan(q) =~~= (l, seq![seq!['v'], seq!['0'], seq!['1', '0', '0']], Seq::<char>::empty()));
    lemma_scan_push(q, '0');
    let q = q.push('0');
    assert(scan(q) =~~= (l, seq![seq!['v'], seq!['0'], seq!['1', '0', '0']], seq!['0']));
    lemma_scan_push(q, ' ');
    let q = q.push(' ');
    assert(scan(q) =~~= (l, seq![seq!['v'], seq!['0'], seq!['1', '0', '0'], seq!['0']], Seq::<char>::empty()));
    lemma_scan_push(q, '0');
    let q = q.push('0');
    assert(scan(q) =~~= (l, seq![seq!['v'], seq!['0'], seq!['1', '0', '0'], seq!['0']], seq!['0']));
    lemma_scan_push(q, ' ');
    let q = q.push(' ');
    assert(scan(q) =~~= (l, seq![seq!['v'], seq!['0'], seq!['1', '0', '0'], seq!['0'], seq!['0']], Seq::<char>::empty()));
    lemma_scan_push(q, '0');
    let q = q.push('0');
    assert(scan(q) =~~= (l, seq![seq!['v'], seq!['0'], seq!['1', '0', '0'], seq!['0'], seq!['0']], seq!['0']));
    lemma_scan_push(q, ' ');
    let q = q.push(' ');
    assert(scan(q) =~~= (l, seq![seq!['v'], seq!['0'], seq!['1', '0', '0'], seq!['0'], seq!['0'], seq!['0']], Seq::<char>::empty()));
    lemma_scan_push(q, '0');
    let q = q.push('0');
    assert(scan(q) =~~= (l, seq![seq!['v'], seq!['0'], seq!['1', '0', '0'], seq!['0'], seq!['0'], seq!['0']], seq!['0']));
    lemma_scan_push(q, ' ');
    let q = q.push(' ');
    assert(scan(q) =~~= (l, seq![seq!['v'], seq!['0'], seq!['1', '0', '0'], seq!['0'], seq!['0'], seq!['0'], seq!['0']], Seq::<char>::empty()));
    lemma_scan_push(q, '4');
    let q = q.push('4');
    assert(scan(q) =~~= (l, seq![seq!['v'], seq!['0'], seq!['1', '0', '0'], seq!['0'], seq!['0'], seq!['0'], seq!['0']], seq!['4']));
    lemma_scan_push(q, '0');
    let q = q.push('0');
    assert(scan(q) =~~= (l, seq![seq!['v'], seq!['0'], seq!['1', '0', '0'], seq!['0'], seq!['0'], seq!['0'], seq!['0']], seq!['4', '0']));
    lemma_scan_push(q, ' ');
    let q = q.push(' ');
    assert(scan(q) =~~= (l, seq![seq!['v'], seq!['0'], seq!['1', '0', '0'], seq!['0'], seq!['0'], seq!['0'], seq!['0'], seq!['4', '0']], Seq::<char>::empty()));
    lemma_scan_push(q, '1');
    let q = q.push('1');
    assert(scan(q) =~~= (l, seq![seq!['v'], seq!['0'], seq!['1', '0', '0'], seq!['0'], seq!['0'], seq!['0'], seq!['0'], seq!['4', '0']], seq!['1']));
    lemma_scan_push(q, ' ');
    let q = q.push(' ');
    assert(scan(q) =~~= (l, seq![seq!['v'], seq!['0'], seq!['1', '0', '0'], seq!['0'], seq!['0'], seq!['0'], seq!['0'], seq!['4', '0'], seq!['1']], Seq::<char>::empty()));
    lemma_scan_push(q, '0');
    let q = q.push('0');
    assert(scan(q) =~~= (l, seq![seq!['v'], seq!['0'], seq!['1', '0', '0'], seq!['0'], seq!['0'], seq!['0'], seq!['0'], seq!['4', '0'], seq!['1']], seq!['0']));
    lemma_scan_push(q, ' ');
    let q = q.push(' ');
    assert(scan(q) =~~= (l, seq![seq!['v'], seq!['0'], seq!['1', '0', '0'], seq!['0'], seq!['0'], seq!['0'], seq!['0'], seq!['4', '0'], seq!['1'], seq!['0']], Seq::<char>::empty()));
    lemma_scan_push(q, '0');
    let q = q.push('0');
    assert(scan(q) =~~= (l, seq![seq!['v'], seq!['0'], seq!['1', '0', '0'], seq!['0'], seq!['0'], seq!['0'], seq!['0'], seq!['4', '0'], seq!['1'], seq!['0']], seq!['0']));
    lemma_scan_push(q, ' ');
    let q = q.push(' ');
    assert(scan(q) =~~= (l, seq![seq!['v'], seq!['0'], seq!['1', '0', '0'], seq!['0'], seq!['0'], seq!['0'], seq!['0'], seq!['4', '0'], seq!['1'], seq!['0'], seq!['0']], Seq::<char>::empty()));
    lemma_scan_push(q, '0');
    let q = q.push('0');
    assert(scan(q) =~~= (l, seq![seq!['v'], seq!['0'], seq!['1', '0', '0'], seq!['0'], seq!['0'], seq!['0'], seq!['0'], seq!['4', '0'], seq!['1'], seq!['0'], seq!['0']], seq!['0']));
    lemma_scan_push(q, '.');
    let q = q.push('.');
    assert(scan(q) =~~= (l, seq![seq!['v'], seq!['0'], seq!['1', '0', '0'], seq!['0'], seq!['0'], seq!['0'], seq!['0'], seq!['4', '0'], seq!['1'], seq!['0'], seq!['0']], seq!['0', '.']));
    lemma_scan_push(q, '5');
    let q = q.push('5');
    assert(scan(q) =~~= (l, seq![seq!['v'], seq!['0'], seq!['1', '0', '0'], seq!['0'], seq!['0'], seq!['0'], seq!['0'], seq!['4', '0'], seq!['1'], seq!['0'], seq!['0']], seq!['0', '.', '5']));
    lemma_scan_push(q, '\n');
    let q = q.push('\n');
    assert(scan(q) =~~= (l.push(seq![seq!['v'], seq!['0'], seq!['1', '0', '0'], seq!['0'], seq!['0'], seq!['0'], seq!['0'], seq!['4', '0'], seq!['1'], seq!['0'], seq!['0'], seq!['0', '.', '5']]), Seq::<Seq<char>>::empty(), Seq::<char>::empty()));
    assert(q =~= p + seq!['v', ' ', '0', ' ', '1', '0', '0', ' ', '0', ' ', '0', ' ', '0', ' ', '0', ' ', '4', '0', ' ', '1', ' ', '0', ' ', '0', ' ', '0', '.', '5', '\n']);
}

/// Reading the line `c 100 0 100 100 0 0.000001 0 0 0`.
proof fn lemma_dump_line_7(p: Seq<char>)
    requires
        scan(p).1 == Seq::<Seq<char>>::empty(),
        scan(p).2 == Seq::<char>::empty(),
    ensures
        scan(p + seq!['c', ' ', '1', '0', '0', ' ', '0', ' ', '1', '0', '0', ' ', '1', '0', '0', ' ', '0', ' ', '0', '.', '0', '0', '0', '0', '0', '1', ' ', '0', ' ', '0', ' ', '0', '\n']) =~~= (scan(p).0.push(seq![seq!['c'], seq!['1', '0', '0'], seq!['0'], seq!['1', '0', '0'], seq!['1', '0', '0'], seq!['0'], seq!['0', '.', '0', '0', '0', '0', '0', '1'], seq!['0'], seq!['0'], seq!['0']]), Seq::<Seq<char>>::empty(), Seq::<char>::empty()),
{
    let l = scan(p).0;
    let q = p;
    lemma_scan_push(q, 'c');
    let q = q.push('c');
    assert(scan(q) =~~= (l, Seq::<Seq<char>>::empty(), seq!['c']));
    lemma_scan_push(q, ' ');
    let q = q.push(' ');
    assert(scan(q) =~~= (l, seq![seq!['c']], Seq::<char>::empty()));
    lemma_scan_push(q, '1');
    let q = q.push('1');
    assert(scan(q) =~~= (l, seq![seq!['c']], seq!['1']));
    lemma_scan_push(q, '0');
    let q = q.push('0');
    assert(scan(q) =~~= (l, seq![seq!['c']], seq!['1', '0']));
    lemma_scan_push(q, '0');
    let q = q.push('0');
    assert(scan(q) =~~= (l, seq![seq!['c']], seq!['1', '0', '0']));
    lemma_scan_push(q, ' ');
    let q = q.push(' ');
    assert(scan(q) =~~= (l, seq![seq!['c'], seq!['1', '0', '0']], Seq::<char>::empty()));
    lemma_scan_push(q, '0');
    let q = q.push('0');
    assert(scan(q) =~~= (l, seq![seq!['c'], seq!['1', '0', '0']], seq!['0']));
    lemma_scan_push(q, ' ');
    let q = q.push(' ');
    assert(scan(q) =~~= (l, seq![seq!['c'], seq!['1', '0', '0'], seq!['0']], Seq::<char>::empty()));
    lemma_scan_push(q, '1');
    let q = q.push('1');
    assert(scan(q) =~~= (l, seq![seq!['c'], seq!['1', '0', '0'], seq!['0']], seq!['1']));
    lemma_scan_push(q, '0');
    let q = q.push('0');
    assert(scan(q) =~~= (l, seq![seq!['c'], seq!['1', '0', '0'], seq!['0']], seq!['1', '0']));
    lemma_scan_push(q, '0');
    let q = q.push('0');
    assert(scan(q) =~~= (l, seq![seq!['c'], seq!['1', '0', '0'], seq!['0']], seq!['1', '0', '0']));
    lemma_scan_push(q, ' ');
    let q = q.push(' ');
    assert(scan(q) =~~= (l, seq![seq!['c'], seq!['1', '0', '0'], seq!['0'], seq!['1', '0', '0']], Seq::<char>::empty()));
    lemma_scan_push(q, '1');
    let q = q.push('1');
    assert(scan(q) =~~= (l, seq![seq!['c'], seq!['1', '0', '0'], seq!['0'], seq!['1', '0', '0']], seq!['1']));
    lemma_scan_push(q, '0');
    let q = q.push('0');
    assert(scan(q) =~~= (l, seq![seq!['c'], seq!['1', '0', '0'], seq!['0'], seq!['1', '0', '0']], seq!['1', '0']));
    lemma_scan_push(q, '0');
    let q = q.push('0');
    assert(scan(q) =~~= (l, seq![seq!['c'], seq!['1', '0', '0'], seq!['0'], seq!['1', '0', '0']], seq!['1', '0', '0']));
    lemma_scan_push(q, ' ');
    let q = q.push(' ');
    assert(scan(q) =~~= (l, seq![seq!['c'], seq!['1', '0', '0'], seq!['0'], seq!['1', '0', '0'], seq!['1', '0', '0']], Seq::<char>::empty()));
    lemma_scan_push(q, '0');
    let q = q.push('0');
    assert(scan(q) =~~= (l, seq![seq!['c'], seq!['1', '0', '0'], seq!['0'], seq!['1', '0', '0'], seq!['1', '0', '0']], seq!['0']));
    lemma_scan_push(q, ' ');
    let q = q.push(' ');
    assert(scan(q) =~~= (l, seq![seq!['c'], seq!['1', '0', '0'], seq!['0'], seq!['1', '0', '0'], seq!['1', '0', '0'], seq!['0']], Seq::<char>::empty()));
    lemma_scan_push(q, '0');
    let q = q.push('0');
    assert(scan(q) =~~= (l, seq![seq!['c'], seq!['1', '0', '0'], seq!['0'], seq!['1', '0', '0'], seq!['1', '0', '0'], seq!['0']], seq!['0']));
    lemma_scan_push(q, '.');
    let q = q.push('.');
    assert(scan(q) =~~= (l, seq![seq!['c'], seq!['1', '0', '0'], seq!['0'], seq!['1', '0', '0'], seq!['1', '0', '0'], seq!['0']], seq!['0', '.']));
    lemma_scan_push(q, '0');
    let q = q.push('0');
    assert(scan(q) =~~= (l, seq![seq!['c'], seq!['1', '0', '0'], seq!['0'], seq!['1', '0', '0'], seq!['1', '0', '0'], seq!['0']], seq!['0', '.', '0']));
    lemma_scan_push(q, '0');
    let q = q.push('0');
    assert(scan(q) =~~= (l, seq![seq!['c'], seq!['1', '0', '0'], seq!['0'], seq!['1', '0', '0'], seq!['1', '0', '0'], seq!['0']], seq!['0', '.', '0', '0']));
    lemma_scan_push(q, '0');
    let q = q.push('0');
    assert(scan(q) =~~= (l, seq![seq!['c'], seq!['1', '0', '0'], seq!['0'], seq!['1', '0', '0'], seq!['1', '0', '0'], seq!['0']], seq!['0', '.', '0', '0', '0']));
    lemma_scan_push(q, '0');
    let q = q.push('0');
    assert(scan(q) =~~= (l, seq![seq!['c'], seq!['1', '0', '0'], seq!['0'], seq!['1', '0', '0'], seq!['1', '0', '0'], seq!['0']], seq!['0', '.', '0', '0', '0', '0']));
    lemma_scan_push(q, '0');
    let q = q.push('0');
    assert(scan(q) =~~= (l, seq![seq!['c'], seq!['1', '0', '0'], seq!['0'], seq!['1', '0', '0'], seq!['1', '0', '0'], seq!['0']], seq!['0', '.', '0', '0', '0', '0', '0']));
    lemma_scan_push(q, '1');
    let q = q.push('1');
    assert(scan(q) =~~= (l, seq![seq!['c'], seq!['1', '0', '0'], seq!['0'], seq!['1', '0', '0'], seq!['1', '0', '0'], seq!['0']], seq!['0', '.', '0', '0', '0', '0', '0', '1']));
    lemma_scan_push(q, ' ');
    let q = q.push(' ');
    assert(scan(q) =~~= (l, seq![seq!['c'], seq!['1', '0', '0'], seq!['0'], seq!['1', '0', '0'], seq!['1', '0', '0'], seq!['0'], seq!['0', '.', '0', '0', '0', '0', '0', '1']], Seq::<char>::empty()));
    lemma_scan_push(q, '0');
    let q = q.push('0');
    assert(scan(q) =~~= (l, seq![seq!['c'], seq!['1', '0', '0'], seq!['0'], seq!['1', '0', '0'], seq!['1', '0', '0'], seq!['0'], seq!['0', '.', '0', '0', '0', '0', '0', '1']], seq!['0']));
    lemma_scan_push(q, ' ');
    let q = q.push(' ');
    assert(scan(q) =~~= (l, seq![seq!['c'], seq!['1', '0', '0'], seq!['0'], seq!['1', '0', '0'], seq!['1', '0', '0'], seq!['0'], seq!['0', '.', '0', '0', '0', '0', '0', '1'], seq!['0']], Seq::<char>::empty()));
    lemma_scan_push(q, '0');
    let q = q.push('0');
    assert(scan(q) =~~= (l, seq![seq!['c'], seq!['1', '0', '0'], seq!['0'], seq!['1', '0', '0'], seq!['1', '0', '0'], seq!['0'], seq!['0', '.', '0', '0', '0', '0', '0', '1'], seq!['0']], seq!['0']));
    lemma_scan_push(q, ' ');
    let q = q.push(' ');
    assert(scan(q) =~~= (l, seq![seq!['c'], seq!['1', '0', '0'], seq!['0'], seq!['1', '0', '0'], seq!['1', '0', '0'], seq!['0'], seq!['0', '.', '0', '0', '0', '0', '0', '1'], seq!['0'], seq!['0']], Seq::<char>::empty()));
    lemma_scan_push(q, '0');
    let q = q.push('0');
    assert(scan(q) =~~= (l, seq![seq!['c'], seq!['1', '0', '0'], seq!['0'], seq!['1', '0', '0'], seq!['1', '0', '0'], seq!['0'], seq!['0', '.', '0', '0', '0', '0', '0', '1'], seq!['0'], seq!['0']], seq!['0']));
    lemma_scan_push(q, '\n');
    let q = q.push('\n');
    assert(scan(q) =~~= (l.push(seq![seq!['c'], seq!['1', '0', '0'], seq!['0'], seq!['1', '0', '0'], seq!['1', '0', '0'], seq!['0'], seq!['0', '.', '0', '0', '0', '0', '0', '1'], seq!['0'], seq!['0'], seq!['0']]), Seq::<Seq<char>>::empty(), Seq::<char>::empty()));
    assert(q =~= p + seq!['c', ' ', '1', '0', '0', ' ', '0', ' ', '1', '0', '0', ' ', '1', '0', '0', ' ', '0', ' ', '0', '.', '0', '0', '0', '0', '0', '1', ' ', '0', ' ', '0', ' ', '0', '\n']);
}

/// Reading the line `$ 0 0.0000001`.
proof fn lemma_dump_line_8(p: Seq<char>)
    requires
        scan(p).1 == Seq::<Seq<char>>::empty(),
        scan(p).2 == Seq::<char>::empty(),
    ensures
        scan(p + seq!['$', ' ', '0', ' ', '0', '.', '0', '0', '0', '0', '0', '0', '1', '\n']) =~~= (scan(p).0.push(seq![seq!['$'], seq!['0'], seq!['0', '.', '0', '0', '0', '0', '0', '0', '1']]), Seq::<Seq<char>>::empty(), Seq::<char>::empty()),
{
    let l = scan(p).0;
    let q = p;
    lemma_scan_push(q, '$');
    let q = q.push('$');
    assert(scan(q) =~~= (l, Seq::<Seq<char>>::empty(), seq!['$']));
    lemma_scan_push(q, ' ');
    let q = q.push(' ');
    assert(scan(q) =~~= (l, seq![seq!['$']], Seq::<char>::empty()));
    lemma_scan_push(q, '0');
    let q = q.push('0');
    assert(scan(q) =~~= (l, seq![seq!['$']], seq!['0']));
    lemma_scan_push(q, ' ');
    let q = q.push(' ');
    assert(scan(q) =~~= (l, seq![seq!['$'], seq!['0']], Seq::<char>::empty()));
    lemma_scan_push(q, '0');
    let q = q.push('0');
    assert(scan(q) =~~= (l, seq![seq!['$'], seq!['0']], seq!['0']));
    lemma_scan_push(q, '.');
    let q = q.push('.');
    assert(scan(q) =~~= (l, seq![seq!['$'], seq!['0']], seq!['0', '.']));
    lemma_scan_push(q, '0');
    let q = q.push('0');
    assert(scan(q) =~~= (l, seq![seq!['$'], seq!['0']], seq!['0', '.', '0']));
    lemma_scan_push(q, '0');
    let q = q.push('0');
    assert(scan(q) =~~= (l, seq![seq!['$'], seq!['0']], seq!['0', '.', '0', '0']));
    lemma_scan_push(q, '0');
    let q = q.push('0');
    assert(scan(q) =~~= (l, seq![seq!['$'], seq!['0']], seq!['0', '.', '0', '0', '0']));
    lemma_scan_push(q, '0');
    let q = q.push('0');
    assert(scan(q) =~~= (l, seq![seq!['$'], seq!['0']], seq!['0', '.', '0', '0', '0', '0']));
    lemma_scan_push(q, '0');
    let q = q.push('0');
    assert(scan(q) =~~= (l, seq![seq!['$'], seq!['0']], seq!['0', '.', '0', '0', '0', '0', '0']));
    lemma_scan_push(q, '0');
    let q = q.push('0');
    assert(scan(q) =~~= (l, seq![seq!['$'], seq!['0']], seq!['0', '.', '0', '0', '0', '0', '0', '0']));
    lemma_scan_push(q, '1');
    let q = q.push('1');
    assert(scan(q) =~~= (l, seq![seq!['$'], seq!['0']], seq!['0', '.', '0', '0', '0', '0', '0', '0', '1']));
    lemma_scan_push(q, '\n');
    let q = q.push('\n');
    assert(scan(q) =~~= (l.push(seq![seq!['$'], seq!['0'], seq!['0', '.', '0', '0', '0', '0', '0', '0', '1']]), Seq::<Seq<char>>::empty(), Seq::<char>::empty()));
    assert(q =~= p + seq!['$', ' ', '0', ' ', '0', '.', '0', '0', '0', '0', '0', '0', '1', '\n']);
}

/// Reading the line `g 0 0 0 16 0`.
proof fn lemma_dump_line_9(p: Seq<char>)
    requires
        scan(p).1 == Seq::<Seq<char>>::empty(),
        scan(p).2 == Seq::<char>::empty(),
    ensures
        scan(p + seq!['g', ' ', '0', ' ', '0', ' ', '0', ' ', '1', '6', ' ', '0', '\n']) =~~= (scan(p).0.push(seq![seq!['g'], seq!['0'], seq!['0'], seq!['0'], seq!['1', '6'], seq!['0']]), Seq::<Seq<char>>::empty(), Seq::<char>::empty()),
{
    let l = scan(p).0;
    let q = p;
    lemma_scan_push(q, 'g');
    let q = q.push('g');
    assert(scan(q) =~~= (l, Seq::<Seq<char>>::empty(), seq!['g']));
    lemma_scan_push(q, ' ');
    let q = q.push(' ');
    assert(scan(q) =~~= (l, seq![seq!['g']], Seq::<char>::empty()));
    lemma_scan_push(q, '0');
    let q = q.push('0');
    assert(scan(q) =~~= (l, seq![seq!['g']], seq!['0']));
    lemma_scan_push(q, ' ');
    let q = q.push(' ');
    assert(scan(q) =~~= (l, seq![seq!['g'], seq!['0']], Seq::<char>::empty()));
    lemma_scan_push(q, '0');
    let q = q.push('0');
    assert(scan(q) =~~= (l, seq![seq!['g'], seq!['0']], seq!['0']));
    lemma_scan_push(q, ' ');
    let q = q.push(' ');
    assert(scan(q) =~~= (l, seq![seq!['g'], seq!['0'], seq!['0']], Seq::<char>::empty()));
    lemma_scan_push(q, '0');
    let q = q.push('0');
    assert(scan(q) =~~= (l, seq![seq!['g'], seq!['0'], seq!['0']], seq!['0']));
    lemma_scan_push(q, ' ');
    let q = q.push(' ');
    assert(scan(q) =~~= (l, seq![seq!['g'], seq!['0'], seq!['0'], seq!['0']], Seq::<char>::empty()));
    lemma_scan_push(q, '1');
    let q = q.push('1');
    assert(scan(q) =~~= (l, seq![seq!['g'], seq!['0'], seq!['0'], seq!['0']], seq!['1']));
    lemma_scan_push(q, '6');
    let q = q.push('6');
    assert(scan(q) =~~= (l, seq![seq!['g'], seq!['0'], seq!['0'], seq!['0']], seq!['1', '6']));
    lemma_scan_push(q, ' ');
    let q = q.push(' ');
    assert(scan(q) =~~= (l, seq![seq!['g'], seq!['0'], seq!['0'], seq!['0'], seq!['1', '6']], Seq::<char>::empty()));
    lemma_scan_push(q, '0');
    let q = q.push('0');
    assert(scan(q) =~~= (l, seq![seq!['g'], seq!['0'], seq!['0'], seq!['0'], seq!['1', '6']], seq!['0']));
    lemma_scan_push(q, '\n');
    let q = q.push('\n');
    assert(scan(q) =~~= (l.push(seq![seq!['g'], seq!['0'], seq!['0'], seq!['0'], seq!['1', '6'], seq!['0']]), Seq::<Seq<char>>::empty(), Seq::<char>::empty()));
    assert(q =~= p + seq!['g', ' ', '0', ' ', '0', ' ', '0', ' ', '1', '6', ' ', '0', '\n']);
}

/// Reading the line `c 0 0 100 0 0 0.000001 1 1 0`.
proof fn lemma_dump_line_10(p: Seq<char>)
    requires
        scan(p).1 == Seq::<Seq<char>>::empty(),
        scan(p).2 == Seq::<char>::empty(),
    ensures
        scan(p + seq!['c', ' ', '0', ' ', '0', ' ', '1', '0', '0', ' ', '0', ' ', '0', ' ', '0', '.', '0', '0', '0', '0', '0', '1', ' ', '1', ' ', '1', ' ', '0', '\n']) =~~= (scan(p).0.push(seq![seq!['c'], seq!['0'], seq!['0'], seq!['1', '0', '0'], seq!['0'], seq!['0'], seq!['0', '.', '0', '0', '0', '0', '0', '1'], seq!['1'], seq!['1'], seq!['0']]), Seq::<Seq<char>>::empty(), Seq::<char>::empty()),
{
    let l = scan(p).0;
    let q = p;
    lemma_scan_push(q, 'c');
    let q = q.push('c');
    assert(scan(q) =~~= (l, Seq::<Seq<char>>::empty(), seq!['c']));
    lemma_scan_push(q, ' ');
    let q = q.push(' ');
    assert(scan(q) =~~= (l, seq![seq!['c']], Seq::<char>::empty()));
    lemma_scan_push(q, '0');
    let q = q.push('0');
    assert(scan(q) =~~= (l, seq![seq!['c']], seq!['0']));
    lemma_scan_push(q, ' ');
    let q = q.push(' ');
    assert(scan(q) =~~= (l, seq![seq!['c'], seq!['0']], Seq::<char>::empty()));
    lemma_scan_push(q, '0');
    let q = q.push('0');
    assert(scan(q) =~~= (l, seq![seq!['c'], seq!['0']], seq!['0']));
    lemma_scan_push(q, ' ');
    let q = q.push(' ');
    assert(scan(q) =~~= (l, seq![seq!['c'], seq!['0'], seq!['0']], Seq::<char>::empty()));
    lemma_scan_push(q, '1');
    let q = q.push('1');
    assert(scan(q) =~~= (l, seq![seq!['c'], seq!['0'], seq!['0']], seq!['1']));
    lemma_scan_push(q, '0');
    let q = q.push('0');
    assert(scan(q) =~~= (l, seq![seq!['c'], seq!['0'], seq!['0']], seq!['1', '0']));
    lemma_scan_push(q, '0');
    let q = q.push('0');
    assert(scan(q) =~~= (l, seq![seq!['c'], seq!['0'], seq!['0']], seq!['1', '0', '0']));
    lemma_scan_push(q, ' ');
    let q = q.push(' ');
    assert(scan(q) =~~= (l, seq![seq!['c'], seq!['0'], seq!['0'], seq!['1', '0', '0']], Seq::<char>::empty()));
    lemma_scan_push(q, '0');
    let q = q.push('0');
    assert(scan(q) =~~= (l, seq![seq!['c'], seq!['0'], seq!['0'], seq!['1', '0', '0']], seq!['0']));
    lemma_scan_push(q, ' ');
    let q = q.push(' ');
    assert(scan(q) =~~= (l, seq![seq!['c'], seq!['0'], seq!['0'], seq!['1', '0', '0'], seq!['0']], Seq::<char>::empty()));
    lemma_scan_push(q, '0');
    let q = q.push('0');
    assert(scan(q) =~~= (l, seq![seq!['c'], seq!['0'], seq!['0'], seq!['1', '0', '0'], seq!['0']], seq!['0']));
    lemma_scan_push(q, ' ');
    let q = q.push(' ');
    assert(scan(q) =~~= (l, seq![seq!['c'], seq!['0'], seq!['0'], seq!['1', '0', '0'], seq!['0'], seq!['0']], Seq::<char>::empty()));
    lemma_scan_push(q, '0');
    let q = q.push('0');
    assert(scan(q) =~~= (l, seq![seq!['c'], seq!['0'], seq!['0'], seq!['1', '0', '0'], seq!['0'], seq!['0']], seq!['0']));
    lemma_scan_push(q, '.');
    let q = q.push('.');
    assert(scan(q) =~~= (l, seq![seq!['c'], seq!['0'], seq!['0'], seq!['1', '0', '0'], seq!['0'], seq!['0']], seq!['0', '.']));
    lemma_scan_push(q, '0');
    let q = q.push('0');
    assert(scan(q) =~~= (l, seq![seq!['c'], seq!['0'], seq!['0'], seq!['1', '0', '0'], seq!['0'], seq!['0']], seq!['0', '.', '0']));
    lemma_scan_push(q, '0');
    let q = q.push('0');
    assert(scan(q) =~~= (l, seq![seq!['c'], seq!['0'], seq!['0'], seq!['1', '0', '0'], seq!['0'], seq!['0']], seq!['0', '.', '0', '0']));
    lemma_scan_push(q, '0');
    let q = q.push('0');
    assert(scan(q) =~~= (l, seq![seq!['c'], seq!['0'], seq!['0'], seq!['1', '0', '0'], seq!['0'], seq!['0']], seq!['0', '.', '0', '0', '0']));
    lemma_scan_push(q, '0');
    let q = q.push('0');
    assert(scan(q) =~~= (l, seq![seq!['c'], seq!['0'], seq!['0'], seq!['1', '0', '0'], seq!['0'], seq!['0']], seq!['0', '.', '0', '0', '0', '0']));
    lemma_scan_push(q, '0');
    let q = q.push('0');
    assert(scan(q) =~~= (l, seq![seq!['c'], seq!['0'], seq!['0'], seq!['1', '0', '0'], seq!['0'], seq!['0']], seq!['0', '.', '0', '0', '0', '0', '0']));
    lemma_scan_push(q, '1');
    let q = q.push('1');
    assert(scan(q) =~~= (l, seq![seq!['c'], seq!['0'], seq!['0'], seq!['1', '0', '0'], seq!['0'], seq!['0']], seq!['0', '.', '0', '0', '0', '0', '0', '1']));
    lemma_scan_push(q, ' ');
    let q = q.push(' ');
    assert(scan(q) =~~= (l, seq![seq!['c'], seq!['0'], seq!['0'], seq!['1', '0', '0'], seq!['0'], seq!['0'], seq!['0', '.', '0', '0', '0', '0', '0', '1']], Seq::<char>::empty()));
    lemma_scan_push(q, '1');
    let q = q.push('1');
    assert(scan(q) =~~= (l, seq![seq!['c'], seq!['0'], seq!['0'], seq!['1', '0', '0'], seq!['0'], seq!['0'], seq!['0', '.', '0', '0', '0', '0', '0', '1']], seq!['1']));
    lemma_scan_push(q, ' ');
    let q = q.push(' ');
    assert(scan(q) =~~= (l, seq![seq!['c'], seq!['0'], seq!['0'], seq!['1', '0', '0'], seq!['0'], seq!['0'], seq!['0', '.', '0', '0', '0', '0', '0', '1'], seq!['1']], Seq::<char>::empty()));
    lemma_scan_push(q, '1');
    let q = q.push('1');
    assert(scan(q) =~~= (l, seq![seq!['c'], seq!['0'], seq!['0'], seq!['1', '0', '0'], seq!['0'], seq!['0'], seq!['0', '.', '0', '0', '0', '0', '0', '1'], seq!['1']], seq!['1']));
    lemma_scan_push(q, ' ');
    let q = q.push(' ');
    assert(scan(q) =~~= (l, seq![seq!['c'], seq!['0'], seq!['0'], seq!['1', '0', '0'], seq!['0'], seq!['0'], seq!['0', '.', '0', '0', '0', '0', '0', '1'], seq!['1'], seq!['1']], Seq::<char>::empty()));
    lemma_scan_push(q, '0');
    let q = q.push('0');
    assert(scan(q) =~~= (l, seq![seq!['c'], seq!['0'], seq!['0'], seq!['1', '0', '0'], seq!['0'], seq!['0'], seq!['0', '.', '0', '0', '0', '0', '0', '1'], seq!['1'], seq!['1']], seq!['0']));
    lemma_scan_push(q, '\n');
    let q = q.push('\n');
    assert(scan(q) =~~= (l.push(seq![seq!['c'], seq!['0'], seq!['0'], seq!['1', '0', '0'], seq!['0'], seq!['0'], seq!['0', '.', '0', '0', '0', '0', '0', '1'], seq!['1'], seq!['1'], seq!['0']]), Seq::<Seq<char>>::empty(), Seq::<char>::empty()));
    assert(q =~= p + seq!['c', ' ', '0', ' ', '0', ' ', '1', '0', '0', ' ', '0', ' ', '0', ' ', '0', '.', '0', '0', '0', '0', '0', '1', ' ', '1', ' ', '1', ' ', '0', '\n']);
}

/// Reading the line `l 100 0 0 0 0 0.001 0 0`.
proof fn lemma_dump_line_11(p: Seq<char>)
    requires
        scan(p).1 == Seq::<Seq<char>>::empty(),
        scan(p).2 == Seq::<char>::empty(),
    ensures
        scan(p + seq!['l', ' ', '1', '0', '0', ' ', '0', ' ', '0', ' ', '0', ' ', '0', ' ', '0', '.', '0', '0', '1', ' ', '0', ' ', '0', '\n']) =~~= (scan(p).0.push(seq![seq!['l'], seq!['1', '0', '0'], seq!['0'], seq!['0'], seq!['0'], seq!['0'], seq!['0', '.', '0', '0', '1'], seq!['0'], seq!['0']]), Seq::<Seq<char>>::empty(), Seq::<char>::empty()),
{
    let l = scan(p).0;
    let q = p;
    lemma_scan_push(q, 'l');
    let q = q.push('l');
    assert(scan(q) =~~= (l, Seq::<Seq<char>>::empty(), seq!['l']));
    lemma_scan_push(q, ' ');
    let q = q.push(' ');
    assert(scan(q) =~~= (l, seq![seq!['l']], Seq::<char>::empty()));
    lemma_scan_push(q, '1');
    let q = q.push('1');
    assert(scan(q) =~~= (l, seq![seq!['l']], seq!['1']));
    lemma_scan_push(q, '0');
    let q = q.push('0');
    assert(scan(q) =~~= (l, seq![seq!['l']], seq!['1', '0']));
    lemma_scan_push(q, '0');
    let q = q.push('0');
    assert(scan(q) =~~= (l, seq![seq!['l']], seq!['1', '0', '0']));
    lemma_scan_push(q, ' ');
    let q = q.push(' ');
    assert(scan(q) =~~= (l, seq![seq!['l'], seq!['1', '0', '0']], Seq::<char>::empty()));
    lemma_scan_push(q, '0');
    let q = q.push('0');
    assert(scan(q) =~~= (l, seq![seq!['l'], seq!['1', '0', '0']], seq!['0']));
    lemma_scan_push(q, ' ');
    let q = q.push(' ');
    assert(scan(q) =~~= (l, seq![seq!['l'], seq!['1', '0', '0'], seq!['0']], Seq::<char>::empty()));
    lemma_scan_push(q, '0');
    let q = q.push('0');
    assert(scan(q) =~~= (l, seq![seq!['l'], seq!['1', '0', '0'], seq!['0']], seq!['0']));
    lemma_scan_push(q, ' ');
    let q = q.push(' ');
    assert(scan(q) =~~= (l, seq![seq!['l'], seq!['1', '0', '0'], seq!['0'], seq!['0']], Seq::<char>::empty()));
    lemma_scan_push(q, '0');
    let q = q.push('0');
    assert(scan(q) =~~= (l, seq![seq!['l'], seq!['1', '0', '0'], seq!['0'], seq!['0']], seq!['0']));
    lemma_scan_push(q, ' ');
    let q = q.push(' ');
    assert(scan(q) =~~= (l, seq![seq!['l'], seq!['1', '0', '0'], seq!['0'], seq!['0'], seq!['0']], Seq::<char>::empty()));
    lemma_scan_push(q, '0');
    let q = q.push('0');
    assert(scan(q) =~~= (l, seq![seq!['l'], seq!['1', '0', '0'], seq!['0'], seq!['0'], seq!['0']], seq!['0']));
    lemma_scan_push(q, ' ');
    let q = q.push(' ');
    assert(scan(q) =~~= (l, seq![seq!['l'], seq!['1', '0', '0'], seq!['0'], seq!['0'], seq!['0'], seq!['0']], Seq::<char>::empty()));
    lemma_scan_push(q, '0');
    let q = q.push('0');
    assert(scan(q) =~~= (l, seq![seq!['l'], seq!['1', '0', '0'], seq!['0'], seq!['0'], seq!['0'], seq!['0']], seq!['0']));
    lemma_scan_push(q, '.');
    let q = q.push('.');
    assert(scan(q) =~~= (l, seq![seq!['l'], seq!['1', '0', '0'], seq!['0'], seq!['0'], seq!['0'], seq!['0']], seq!['0', '.']));
    lemma_scan_push(q, '0');
    let q = q.push('0');
    assert(scan(q) =~~= (l, seq![seq!['l'], seq!['1', '0', '0'], seq!['0'], seq!['0'], seq!['0'], seq!['0']], seq!['0', '.', '0']));
    lemma_scan_push(q, '0');
    let q = q.push('0');
    assert(scan(q) =~~= (l, seq![seq!['l'], seq!['1', '0', '0'], seq!['0'], seq!['0'], seq!['0'], seq!['0']], seq!['0', '.', '0', '0']));
    lemma_scan_push(q, '1');
    let q = q.push('1');
    assert(scan(q) =~~= (l, seq![seq!['l'], seq!['1', '0', '0'], seq!['0'], seq!['0'], seq!['0'], seq!['0']], seq!['0', '.', '0', '0', '1']));
    lemma_scan_push(q, ' ');
    let q = q.push(' ');
    assert(scan(q) =~~= (l, seq![seq!['l'], seq!['1', '0', '0'], seq!['0'], seq!['0'], seq!['0'], seq!['0'], seq!['0', '.', '0', '0', '1']], Seq::<char>::empty()));
    lemma_scan_push(q, '0');
    let q = q.push('0');
    assert(scan(q) =~~= (l, seq![seq!['l'], seq!['1', '0', '0'], seq!['0'], seq!['0'], seq!['0'], seq!['0'], seq!['0', '.', '0', '0', '1']], seq!['0']));
    lemma_scan_push(q, ' ');
    let q = q.push(' ');
    assert(scan(q) =~~= (l, seq![seq!['l'], seq!['1', '0', '0'], seq!['0'], seq!['0'], seq!['0'], seq!['0'], seq!['0', '.', '0', '0', '1'], seq!['0']], Seq::<char>::empty()));
    lemma_scan_push(q, '0');
    let q = q.push('0');
    assert(scan(q) =~~= (l, seq![seq!['l'], seq!['1', '0', '0'], seq!['0'], seq!['0'], seq!['0'], seq!['0'], seq!['0', '.', '0', '0', '1'], seq!['0']], seq!['0']));
    lemma_scan_push(q, '\n');
    let q = q.push('\n');
    assert(scan(q) =~~= (l.push(seq![seq!['l'], seq!['1', '0', '0'], seq!['0'], seq!['0'], seq!['0'], seq!['0'], seq!['0', '.', '0', '0', '1'], seq!['0'], seq!['0']]), Seq::<Seq<char>>::empty(), Seq::<char>::empty()));
    assert(q =~= p + seq!['l', ' ', '1', '0', '0', ' ', '0', ' ', '0', ' ', '0', ' ', '0', ' ', '0', '.', '0', '0', '1', ' ', '0', ' ', '0', '\n']);
}

/// Reading the line `v 0 100 0 0 0 0 40 5 0 0 0.5`.
proof fn lemma_dump_line_12(p: Seq<char>)
    requires
        scan(p).1 == Seq::<Seq<char>>::empty(),
        scan(p).2 == Seq::<char>::empty(),
    ensures
        scan(p + seq!['v', ' ', '0', ' ', '1', '0', '0', ' ', '0', ' ', '0', ' ', '0', ' ', '0', ' ', '4', '0', ' ', '5', ' ', '0', ' ', '0', ' ', '0', '.', '5', '\n']) =~~= (scan(p).0.push(seq![seq!['v'], seq!['0'], seq!['1', '0', '0'], seq!['0'], seq!['0'], seq!['0'], seq!['0'], seq!['4', '0'], seq!['5'], seq!['0'], seq!['0'], seq!['0', '.', '5']]), Seq::<Seq<char>>::empty(), Seq::<char>::empty()),
{
    let l = scan(p).0;
    let q = p;
    lemma_scan_push(q, 'v');
    let q = q.push('v');
    assert(scan(q) =~~= (l, Seq::<Seq<char>>::empty(), seq!['v']));
    lemma_scan_push(q, ' ');
    let q = q.push(' ');
    assert(scan(q) =~~= (l, seq![seq!['v']], Seq::<char>::empty()));
    lemma_scan_push(q, '0');
    let q = q.push('0');
    assert(scan(q) =~~= (l, seq![seq!['v']], seq!['0']));
    lemma_scan_push(q, ' ');
    let q = q.push(' ');
    assert(scan(q) =~~= (l, seq![seq!['v'], seq!['0']], Seq::<char>::empty()));
    lemma_scan_push(q, '1');
    let q = q.push('1');
    assert(scan(q) =~~= (l, seq![seq!['v'], seq!['0']], seq!['1']));
    lemma_scan_push(q, '0');
    let q = q.push('0');
    assert(scan(q) =~~= (l, seq![seq!['v'], seq!['0']], seq!['1', '0']));
    lemma_scan_push(q, '0');
    let q = q.push('0');
    assert(scan(q) =~~= (l, seq![seq!['v'], seq!['0']], seq!['1', '0', '0']));
    lemma_scan_push(q, ' ');
    let q = q.push(' ');
    assert(scan(q) =~~= (l, seq![seq!['v'], seq!['0'], seq!['1', '0', '0']], Seq::<char>::empty()));
    lemma_scan_push(q, '0');
    let q = q.push('0');
    assert(scan(q) =~~= (l, seq![seq!['v'], seq!['0'], seq!['1', '0', '0']], seq!['0']));
    lemma_scan_push(q, ' ');
    let q = q.push(' ');
    assert(scan(q) =~~= (l, seq![seq!['v'], seq!['0'], seq!['1', '0', '0'], seq!['0']], Seq::<char>::empty()));
    lemma_scan_push(q, '0');
    let q = q.push('0');
    assert(scan(q) =~~= (l, seq![seq!['v'], seq!['0'], seq!['1', '0', '0'], seq!['0']], seq!['0']));
    lemma_scan_push(q, ' ');
    let q = q.push(' ');
    assert(scan(q) =~~= (l, seq![seq!['v'], seq!['0'], seq!['1', '0', '0'], seq!['0'], seq!['0']], Seq::<char>::empty()));
    lemma_scan_push(q, '0');
    let q = q.push('0');
    assert(scan(q) =~~= (l, seq![seq!['v'], seq!['0'], seq!['1', '0', '0'], seq!['0'], seq!['0']], seq!['0']));
    lemma_scan_push(q, ' ');
    let q = q.push(' ');
    assert(scan(q) =~~= (l, seq![seq!['v'], seq!['0'], seq!['1', '0', '0'], seq!['0'], seq!['0'], seq!['0']], Seq::<char>::empty()));
    lemma_scan_push(q, '0');
    let q = q.push('0');
    assert(scan(q) =~~= (l, seq![seq!['v'], seq!['0'], seq!['1', '0', '0'], seq!['0'], seq!['0'], seq!['0']], seq!['0']));
    lemma_scan_push(q, ' ');
    let q = q.push(' ');
    assert(scan(q) =~~= (l, seq![seq!['v'], seq!['0'], seq!['1', '0', '0'], seq!['0'], seq!['0'], seq!['0'], seq!['0']], Seq::<char>::empty()));
    lemma_scan_push(q, '4');
    let q = q.push('4');
    assert(scan(q) =~~= (l, seq![seq!['v'], seq!['0'], seq!['1', '0', '0'], seq!['0'], seq!['0'], seq!['0'], seq!['0']], seq!['4']));
    lemma_scan_push(q, '0');
    let q = q.push('0');
    assert(scan(q) =~~= (l, seq![seq!['v'], seq!['0'], seq!['1', '0', '0'], seq!['0'], seq!['0'], seq!['0'], seq!['0']], seq!['4', '0']));
    lemma_scan_push(q, ' ');
    let q = q.push(' ');
    assert(scan(q) =~~= (l, seq![seq!['v'], seq!['0'], seq!['1', '0', '0'], seq!['0'], seq!['0'], seq!['0'], seq!['0'], seq!['4', '0']], Seq::<char>::empty()));
    lemma_scan_push(q, '5');
    let q = q.push('5');
    assert(scan(q) =~~= (l, seq![seq!['v'], seq!['0'], seq!['1', '0', '0'], seq!['0'], seq!['0'], seq!['0'], seq!['0'], seq!['4', '0']], seq!['5']));
    lemma_scan_push(q, ' ');
    let q = q.push(' ');
    assert(scan(q) =~~= (l, seq![seq!['v'], seq!['0'], seq!['1', '0', '0'], seq!['0'], seq!['0'], seq!['0'], seq!['0'], seq!['4', '0'], seq!['5']], Seq::<char>::empty()));
    lemma_scan_push(q, '0');
    let q = q.push('0');
    assert(scan(q) =~~= (l, seq![seq!['v'], seq!['0'], seq!['1', '0', '0'], seq!['0'], seq!['0'], seq!['0'], seq!['0'], seq!['4', '0'], seq!['5']], seq!['0']));
    lemma_scan_push(q, ' ');
    let q = q.push(' ');
    assert(scan(q) =~~= (l, seq![seq!['v'], seq!['0'], seq!['1', '0', '0'], seq!['0'], seq!['0'], seq!['0'], seq!['0'], seq!['4', '0'], seq!['5'], seq!['0']], Seq::<char>::empty()));
    lemma_scan_push(q, '0');
    let q = q.push('0');
    assert(scan(q) =~~= (l, seq![seq!['v'], seq!['0'], seq!['1', '0', '0'], seq!['0'], seq!['0'], seq!['0'], seq!['0'], seq!['4', '0'], seq!['5'], seq!['0']], seq!['0']));
    lemma_scan_push(q, ' ');
    let q = q.push(' ');
    assert(scan(q) =~~= (l, seq![seq!['v'], seq!['0'], seq!['1', '0', '0'], seq!['0'], seq!['0'], seq!['0'], seq!['0'], seq!['4', '0'], seq!['5'], seq!['0'], seq!['0']], Seq::<char>::empty()));
    lemma_scan_push(q, '0');
    let q = q.push('0');
    assert(scan(q) =~~= (l, seq![seq!['v'], seq!['0'], seq!['1', '0', '0'], seq!['0'], seq!['0'], seq!['0'], seq!['0'], seq!['4', '0'], seq!['5'], seq!['0'], seq!['0']], seq!['0']));
    lemma_scan_push(q, '.');
    let q = q.push('.');
    assert(scan(q) =~~= (l, seq![seq!['v'], seq!['0'], seq!['1', '0', '0'], seq!['0'], seq!['0'], seq!['0'], seq!['0'], seq!['4', '0'], seq!['5'], seq!['0'], seq!['0']], seq!['0', '.']));
    lemma_scan_push(q, '5');
    let q = q.push('5');
    assert(scan(q) =~~= (l, seq![seq!['v'], seq!['0'], seq!['1', '0', '0'], seq!['0'], seq!['0'], seq!['0'], seq!['0'], seq!['4', '0'], seq!['5'], seq!['0'], seq!['0']], seq!['0', '.', '5']));
    lemma_scan_push(q, '\n');
    let q = q.push('\n');
    assert(scan(q) =~~= (l.push(seq![seq!['v'], seq!['0'], seq!['1', '0', '0'], seq!['0'], seq!['0'], seq!['0'], seq!['0'], seq!['4', '0'], seq!['5'], seq!['0'], seq!['0'], seq!['0', '.', '5']]), Seq::<Seq<char>>::empty(), Seq::<char>::empty()));
    assert(q =~= p + seq!['v', ' ', '0', ' ', '1', '0', '0', ' ', '0', ' ', '0', ' ', '0', ' ', '0', ' ', '4', '0', ' ', '5', ' ', '0', ' ', '0', ' ', '0', '.', '5', '\n']);
}

/// Reading the line `d 100 0 100 100 0`.
proof fn lemma_dump_line_13(p: Seq<char>)
    requires
        scan(p).1 == Seq::<Seq<char>>::empty(),
        scan(p).2 == Seq::<char>::empty(),
    ensures
        scan(p + seq!['d', ' ', '1', '0', '0', ' ', '0', ' ', '1', '0', '0', ' ', '1', '0', '0', ' ', '0', '\n']) =~~= (scan(p).0.push(seq![seq!['d'], seq!['1', '0', '0'], seq!['0'], seq!['1', '0', '0'], seq!['1', '0', '0'], seq!['0']]), Seq::<Seq<char>>::empty(), Seq::<char>::empty()),
{
    let l = scan(p).0;
    let q = p;
    lemma_scan_push(q, 'd');
    let q = q.push('d');
    assert(scan(q) =~~= (l, Seq::<Seq<char>>::empty(), seq!['d']));
    lemma_scan_push(q, ' ');
    let q = q.push(' ');
    assert(scan(q) =~~= (l, seq![seq!['d']], Seq::<char>::empty()));
    lemma_scan_push(q, '1');
    let q = q.push('1');
    assert(scan(q) =~~= (l, seq![seq!['d']], seq!['1']));
    lemma_scan_push(q, '0');
    let q = q.push('0');
    assert(scan(q) =~~= (l, seq![seq!['d']], seq!['1', '0']));
    lemma_scan_push(q, '0');
    let q = q.push('0');
    assert(scan(q) =~~= (l, seq![seq!['d']], seq!['1', '0', '0']));
    lemma_scan_push(q, ' ');
    let q = q.push(' ');
    assert(scan(q) =~~= (l, seq![seq!['d'], seq!['1', '0', '0']], Seq::<char>::empty()));
    lemma_scan_push(q, '0');
    let q = q.push('0');
    assert(scan(q) =~~= (l, seq![seq!['d'], seq!['1', '0', '0']], seq!['0']));
    lemma_scan_push(q, ' ');
    let q = q.push(' ');
    assert(scan(q) =~~= (l, seq![seq!['d'], seq!['1', '0', '0'], seq!['0']], Seq::<char>::empty()));
    lemma_scan_push(q, '1');
    let q = q.push('1');
    assert(scan(q) =~~= (l, seq![seq!['d'], seq!['1', '0', '0'], seq!['0']], seq!['1']));
    lemma_scan_push(q, '0');
    let q = q.push('0');
    assert(scan(q) =~~= (l, seq![seq!['d'], seq!['1', '0', '0'], seq!['0']], seq!['1', '0']));
    lemma_scan_push(q, '0');
    let q = q.push('0');
    assert(scan(q) =~~= (l, seq![seq!['d'], seq!['1', '0', '0'], seq!['0']], seq!['1', '0', '0']));
    lemma_scan_push(q, ' ');
    let q = q.push(' ');
    assert(scan(q) =~~= (l, seq![seq!['d'], seq!['1', '0', '0'], seq!['0'], seq!['1', '0', '0']], Seq::<char>::empty()));
    lemma_scan_push(q, '1');
    let q = q.push('1');
    assert(scan(q) =~~= (l, seq![seq!['d'], seq!['1', '0', '0'], seq!['0'], seq!['1', '0', '0']], seq!['1']));
    lemma_scan_push(q, '0');
    let q = q.push('0');
    assert(scan(q) =~~= (l, seq![seq!['d'], seq!['1', '0', '0'], seq!['0'], seq!['1', '0', '0']], seq!['1', '0']));
    lemma_scan_push(q, '0');
    let q = q.push('0');
    assert(scan(q) =~~= (l, seq![seq!['d'], seq!['1', '0', '0'], seq!['0'], seq!['1', '0', '0']], seq!['1', '0', '0']));
    lemma_scan_push(q, ' ');
    let q = q.push(' ');
    assert(scan(q) =~~= (l, seq![seq!['d'], seq!['1', '0', '0'], seq!['0'], seq!['1', '0', '0'], seq!['1', '0', '0']], Seq::<char>::empty()));
    lemma_scan_push(q, '0');
    let q = q.push('0');
    assert(scan(q) =~~= (l, seq![seq!['d'], seq!['1', '0', '0'], seq!['0'], seq!['1', '0', '0'], seq!['1', '0', '0']], seq!['0']));
    lemma_scan_push(q, '\n');
    let q = q.push('\n');
    assert(scan(q) =~~= (l.push(seq![seq!['d'], seq!['1', '0', '0'], seq!['0'], seq!['1', '0', '0'], seq!['1', '0', '0'], seq!['0']]), Seq::<Seq<char>>::empty(), Seq::<char>::empty()));
    assert(q =~= p + seq!['d', ' ', '1', '0', '0', ' ', '0', ' ', '1', '0', '0', ' ', '1', '0', '0', ' ', '0', '\n']);
}

/// Reading the line `i 0 100 0 0 0 0.002`.
proof fn lemma_dump_line_14(p: Seq<char>)
    requires
        scan(p).1 == Seq::<Seq<char>>::empty(),
        scan(p).2 == Seq::<char>::empty(),
    ensures
        scan(p + seq!['i', ' ', '0', ' ', '1', '0', '0', ' ', '0', ' ', '0', ' ', '0', ' ', '0', '.', '0', '0', '2', '\n']) =~~= (scan(p).0.push(seq![seq!['i'], seq!['0'], seq!['1', '0', '0'], seq!['0'], seq!['0'], seq!['0'], seq!['0', '.', '0', '0', '2']]), Seq::<Seq<char>>::empty(), Seq::<char>::empty()),
{
    let l = scan(p).0;
    let q = p;
    lemma_scan_push(q, 'i');
    let q = q.push('i');
    assert(scan(q) =~~= (l, Seq::<Seq<char>>::empty(), seq!['i']));
    lemma_scan_push(q, ' ');
    let q = q.push(' ');
    assert(scan(q) =~~= (l, seq![seq!['i']], Seq::<char>::empty()));
    lemma_scan_push(q, '0');
    let q = q.push('0');
    assert(scan(q) =~~= (l, seq![seq!['i']], seq!['0']));
    lemma_scan_push(q, ' ');
    let q = q.push(' ');
    assert(scan(q) =~~= (l, seq![seq!['i'], seq!['0']], Seq::<char>::empty()));
    lemma_scan_push(q, '1');
    let q = q.push('1');
    assert(scan(q) =~~= (l, seq![seq!['i'], seq!['0']], seq!['1']));
    lemma_scan_push(q, '0');
    let q = q.push('0');
    assert(scan(q) =~~= (l, seq![seq!['i'], seq!['0']], seq!['1', '0']));
    lemma_scan_push(q, '0');
    let q = q.push('0');
    assert(scan(q) =~~= (l, seq![seq!['i'], seq!['0']], seq!['1', '0', '0']));
    lemma_scan_push(q, ' ');
    let q = q.push(' ');
    assert(scan(q) =~~= (l, seq![seq!['i'], seq!['0'], seq!['1', '0', '0']], Seq::<char>::empty()));
    lemma_scan_push(q, '0');
    let q = q.push('0');
    assert(scan(q) =~~= (l, seq![seq!['i'], seq!['0'], seq!['1', '0', '0']], seq!['0']));
    lemma_scan_push(q, ' ');
    let q = q.push(' ');
    assert(scan(q) =~~= (l, seq![seq!['i'], seq!['0'], seq!['1', '0', '0'], seq!['0']], Seq::<char>::empty()));
    lemma_scan_push(q, '0');
    let q = q.push('0');
    assert(scan(q) =~~= (l, seq![seq!['i'], seq!['0'], seq!['1', '0', '0'], seq!['0']], seq!['0']));
    lemma_scan_push(q, ' ');
    let q = q.push(' ');
    assert(scan(q) =~~= (l, seq![seq!['i'], seq!['0'], seq!['1', '0', '0'], seq!['0'], seq!['0']], Seq::<char>::empty()));
    lemma_scan_push(q, '0');
    let q = q.push('0');
    assert(scan(q) =~~= (l, seq![seq!['i'], seq!['0'], seq!['1', '0', '0'], seq!['0'], seq!['0']], seq!['0']));
    lemma_scan_push(q, ' ');
    let q = q.push(' ');
    assert(scan(q) =~~= (l, seq![seq!['i'], seq!['0'], seq!['1', '0', '0'], seq!['0'], seq!['0'], seq!['0']], Seq::<char>::empty()));
    lemma_scan_push(q, '0');
    let q = q.push('0');
    assert(scan(q) =~~= (l, seq![seq!['i'], seq!['0'], seq!['1', '0', '0'], seq!['0'], seq!['0'], seq!['0']], seq!['0']));
    lemma_scan_push(q, '.');
    let q = q.push('.');
    assert(scan(q) =~~= (l, seq![seq!['i'], seq!['0'], seq!['1', '0', '0'], seq!['0'], seq!['0'], seq!['0']], seq!['0', '.']));
    lemma_scan_push(q, '0');
    let q = q.push('0');
    assert(scan(q) =~~= (l, seq![seq!['i'], seq!['0'], seq!['1', '0', '0'], seq!['0'], seq!['0'], seq!['0']], seq!['0', '.', '0']));
    lemma_scan_push(q, '0');
    let q = q.push('0');
    assert(scan(q) =~~= (l, seq![seq!['i'], seq!['0'], seq!['1', '0', '0'], seq!['0'], seq!['0'], seq!['0']], seq!['0', '.', '0', '0']));
    lemma_scan_push(q, '2');
    let q = q.push('2');
    assert(scan(q) =~~= (l, seq![seq!['i'], seq!['0'], seq!['1', '0', '0'], seq!['0'], seq!['0'], seq!['0']], seq!['0', '.', '0', '0', '2']));
    lemma_scan_push(q, '\n');
    let q = q.push('\n');
    assert(scan(q) =~~= (l.push(seq![seq!['i'], seq!['0'], seq!['1', '0', '0'], seq!['0'], seq!['0'], seq!['0'], seq!['0', '.', '0', '0', '2']]), Seq::<Seq<char>>::empty(), Seq::<char>::empty()));
    assert(q =~= p + seq!['i', ' ', '0', ' ', '1', '0', '0', ' ', '0', ' ', '0', ' ', '0', ' ', '0', '.', '0', '0', '2', '\n']);
}

/// Reading the line `r 0 0 0 100 0 2500`.
proof fn lemma_dump_line_15(p: Seq<char>)
    requires
        scan(p).1 == Seq::<Seq<char>>::empty(),
        scan(p).2 == Seq::<char>::empty(),
    ensures
        scan(p + seq!['r', ' ', '0', ' ', '0', ' ', '0', ' ', '1', '0', '0', ' ', '0', ' ', '2', '5', '0', '0', '\n']) =~~= (scan(p).0.push(seq![seq!['r'], seq!['0'], seq!['0'], seq!['0'], seq!['1', '0', '0'], seq!['0'], seq!['2', '5', '0', '0']]), Seq::<Seq<char>>::empty(), Seq::<char>::empty()),
{
    let l = scan(p).0;
    let q = p;
    lemma_scan_push(q, 'r');
    let q = q.push('r');
    assert(scan(q) =~~= (l, Seq::<Seq<char>>::empty(), seq!['r']));
    lemma_scan_push(q, ' ');
    let q = q.push(' ');
    assert(scan(q) =~~= (l, seq![seq!['r']], Seq::<char>::empty()));
    lemma_scan_push(q, '0');
    let q = q.push('0');
    assert(scan(q) =~~= (l, seq![seq!['r']], seq!['0']));
    lemma_scan_push(q, ' ');
    let q = q.push(' ');
    assert(scan(q) =~~= (l, seq![seq!['r'], seq!['0']], Seq::<char>::empty()));
    lemma_scan_push(q, '0');
    let q = q.push('0');
    assert(scan(q) =~~= (l, seq![seq!['r'], seq!['0']], seq!['0']));
    lemma_scan_push(q, ' ');
    let q = q.push(' ');
    assert(scan(q) =~~= (l, seq![seq!['r'], seq!['0'], seq!['0']], Seq::<char>::empty()));
    lemma_scan_push(q, '0');
    let q = q.push('0');
    assert(scan(q) =~~= (l, seq![seq!['r'], seq!['0'], seq!['0']], seq!['0']));
    lemma_scan_push(q, ' ');
    let q = q.push(' ');
    assert(scan(q) =~~= (l, seq![seq!['r'], seq!['0'], seq!['0'], seq!['0']], Seq::<char>::empty()));
    lemma_scan_push(q, '1');
    let q = q.push('1');
    assert(scan(q) =~~= (l, seq![seq!['r'], seq!['0'], seq!['0'], seq!['0']], seq!['1']));
    lemma_scan_push(q, '0');
    let q = q.push('0');
    assert(scan(q) =~~= (l, seq![seq!['r'], seq!['0'], seq!['0'], seq!['0']], seq!['1', '0']));
    lemma_scan_push(q, '0');
    let q = q.push('0');
    assert(scan(q) =~~= (l, seq![seq!['r'], seq!['0'], seq!['0'], seq!['0']], seq!['1', '0', '0']));
    lemma_scan_push(q, ' ');
    let q = q.push(' ');
    assert(scan(q) =~~= (l, seq![seq!['r'], seq!['0'], seq!['0'], seq!['0'], seq!['1', '0', '0']], Seq::<char>::empty()));
    lemma_scan_push(q, '0');
    let q = q.push('0');
    assert(scan(q) =~~= (l, seq![seq!['r'], seq!['0'], seq!['0'], seq!['0'], seq!['1', '0', '0']], seq!['0']));
    lemma_scan_push(q, ' ');
    let q = q.push(' ');
    assert(scan(q) =~~= (l, seq![seq!['r'], seq!['0'], seq!['0'], seq!['0'], seq!['1', '0', '0'], seq!['0']], Seq::<char>::empty()));
    lemma_scan_push(q, '2');
    let q = q.push('2');
    assert(scan(q) =~~= (l, seq![seq!['r'], seq!['0'], seq!['0'], seq!['0'], seq!['1', '0', '0'], seq!['0']], seq!['2']));
    lemma_scan_push(q, '5');
    let q = q.push('5');
    assert(scan(q) =~~= (l, seq![seq!['r'], seq!['0'], seq!['0'], seq!['0'], seq!['1', '0', '0'], seq!['0']], seq!['2', '5']));
    lemma_scan_push(q, '0');
    let q = q.push('0');
    assert(scan(q) =~~= (l, seq![seq!['r'], seq!['0'], seq!['0'], seq!['0'], seq!['1', '0', '0'], seq!['0']], seq!['2', '5', '0']));
    lemma_scan_push(q, '0');
    let q = q.push('0');
    assert(scan(q) =~~= (l, seq![seq!['r'], seq!['0'], seq!['0'], seq!['0'], seq!['1', '0', '0'], seq!['0']], seq!['2', '5', '0', '0']));
    lemma_scan_push(q, '\n');
    let q = q.push('\n');
    assert(scan(q) =~~= (l.push(seq![seq!['r'], seq!['0'], seq!['0'], seq!['0'], seq!['1', '0', '0'], seq!['0'], seq!['2', '5', '0', '0']]), Seq::<Seq<char>>::empty(), Seq::<char>::empty()));
    assert(q =~= p + seq!['r', ' ', '0', ' ', '0', ' ', '0', ' ', '1', '0', '0', ' ', '0', ' ', '2', '5', '0', '0', '\n']);
}

/// Reading the line `g 0 100 0 116 0`.
proof fn lemma_dump_line_16(p: Seq<char>)
    requires
        scan(p).1 == Seq::<Seq<char>>::empty(),
        scan(p).2 == Seq::<char>::empty(),
    ensures
        scan(p + seq!['g', ' ', '0', ' ', '1', '0', '0', ' ', '0', ' ', '1', '1', '6', ' ', '0', '\n']) =~~= (scan(p).0.push(seq![seq!['g'], seq!['0'], seq!['1', '0', '0'], seq!['0'], seq!['1', '1', '6'], seq!['0']]), Seq::<Seq<char>>::empty(), Seq::<char>::empty()),
{
    let l = scan(p).0;
    let q = p;
    lemma_scan_push(q, 'g');
    let q = q.push('g');
    assert(scan(q) =~~= (l, Seq::<Seq<char>>::empty(), seq!['g']));
    lemma_scan_push(q, ' ');
    let q = q.push(' ');
    assert(scan(q) =~~= (l, seq![seq!['g']], Seq::<char>::empty()));
    lemma_scan_push(q, '0');
    let q = q.push('0');
    assert(scan(q) =~~= (l, seq![seq!['g']], seq!['0']));
    lemma_scan_push(q, ' ');
    let q = q.push(' ');
    assert(scan(q) =~~= (l, seq![seq!['g'], seq!['0']], Seq::<char>::empty()));
    lemma_scan_push(q, '1');
    let q = q.push('1');
    assert(scan(q) =~~= (l, seq![seq!['g'], seq!['0']], seq!['1']));
    lemma_scan_push(q, '0');
    let q = q.push('0');
    assert(scan(q) =~~= (l, seq![seq!['g'], seq!['0']], seq!['1', '0']));
    lemma_scan_push(q, '0');
    let q = q.push('0');
    assert(scan(q) =~~= (l, seq![seq!['g'], seq!['0']], seq!['1', '0', '0']));
    lemma_scan_push(q, ' ');
    let q = q.push(' ');
    assert(scan(q) =~~= (l, seq![seq!['g'], seq!['0'], seq!['1', '0', '0']], Seq::<char>::empty()));
    lemma_scan_push(q, '0');
    let q = q.push('0');
    assert(scan(q) =~~= (l, seq![seq!['g'], seq!['0'], seq!['1', '0', '0']], seq!['0']));
    lemma_scan_push(q, ' ');
    let q = q.push(' ');
    assert(scan(q) =~~= (l, seq![seq!['g'], seq!['0'], seq!['1', '0', '0'], seq!['0']], Seq::<char>::empty()));
    lemma_scan_push(q, '1');
    let q = q.push('1');
    assert(scan(q) =~~= (l, seq![seq!['g'], seq!['0'], seq!['1', '0', '0'], seq!['0']], seq!['1']));
    lemma_scan_push(q, '1');
    let q = q.push('1');
    assert(scan(q) =~~= (l, seq![seq!['g'], seq!['0'], seq!['1', '0', '0'], seq!['0']], seq!['1', '1']));
    lemma_scan_push(q, '6');
    let q = q.push('6');
    assert(scan(q) =~~= (l, seq![seq!['g'], seq!['0'], seq!['1', '0', '0'], seq!['0']], seq!['1', '1', '6']));
    lemma_scan_push(q, ' ');
    let q = q.push(' ');
    assert(scan(q) =~~= (l, seq![seq!['g'], seq!['0'], seq!['1', '0', '0'], seq!['0'], seq!['1', '1', '6']], Seq::<char>::empty()));
    lemma_scan_push(q, '0');
    let q = q.push('0');
    assert(scan(q) =~~= (l, seq![seq!['g'], seq!['0'], seq!['1', '0', '0'], seq!['0'], seq!['1', '1', '6']], seq!['0']));
    lemma_scan_push(q, '\n');
    let q = q.push('\n');
    assert(scan(q) =~~= (l.push(seq![seq!['g'], seq!['0'], seq!['1', '0', '0'], seq!['0'], seq!['1', '1', '6'], seq!['0']]), Seq::<Seq<char>>::empty(), Seq::<char>::empty()));
    assert(q =~= p + seq!['g', ' ', '0', ' ', '1', '0', '0', ' ', '0', ' ', '1', '1', '6', ' ', '0', '\n']);
}

/// Reading the line `r 0 0 0 100 0 1000`.
proof fn lemma_dump_line_17(p: Seq<char>)
    requires
        scan(p).1 == Seq::<Seq<char>>::empty(),
        scan(p).2 == Seq::<char>::empty(),
    ensures
        scan(p + seq!['r', ' ', '0', ' ', '0', ' ', '0', ' ', '1', '0', '0', ' ', '0', ' ', '1', '0', '0', '0', '\n']) =~~= (scan(p).0.push(seq![seq!['r'], seq!['0'], seq!['0'], seq!['0'], seq!['1', '0', '0'], seq!['0'], seq!['1', '0', '0', '0']]), Seq::<Seq<char>>::empty(), Seq::<char>::empty()),
{
    let l = scan(p).0;
    let q = p;
    lemma_scan_push(q, 'r');
    let q = q.push('r');
    assert(scan(q) =~~= (l, Seq::<Seq<char>>::empty(), seq!['r']));
    lemma_scan_push(q, ' ');
    let q = q.push(' ');
    assert(scan(q) =~~= (l, seq![seq!['r']], Seq::<char>::empty()));
    lemma_scan_push(q, '0');
    let q = q.push('0');
    assert(scan(q) =~~= (l, seq![seq!['r']], seq!['0']));
    lemma_scan_push(q, ' ');
    let q = q.push(' ');
    assert(scan(q) =~~= (l, seq![seq!['r'], seq!['0']], Seq::<char>::empty()));
    lemma_scan_push(q, '0');
    let q = q.push('0');
    assert(scan(q) =~~= (l, seq![seq!['r'], seq!['0']], seq!['0']));
    lemma_scan_push(q, ' ');
    let q = q.push(' ');
    assert(scan(q) =~~= (l, seq![seq!['r'], seq!['0'], seq!['0']], Seq::<char>::empty()));
    lemma_scan_push(q, '0');
    let q = q.push('0');
    assert(scan(q) =~~= (l, seq![seq!['r'], seq!['0'], seq!['0']], seq!['0']));
    lemma_scan_push(q, ' ');
    let q = q.push(' ');
    assert(scan(q) =~~= (l, seq![seq!['r'], seq!['0'], seq!['0'], seq!['0']], Seq::<char>::empty()));
    lemma_scan_push(q, '1');
    let q = q.push('1');
    assert(scan(q) =~~= (l, seq![seq!['r'], seq!['0'], seq!['0'], seq!['0']], seq!['1']));
    lemma_scan_push(q, '0');
    let q = q.push('0');
    assert(scan(q) =~~= (l, seq![seq!['r'], seq!['0'], seq!['0'], seq!['0']], seq!['1', '0']));
    lemma_scan_push(q, '0');
    let q = q.push('0');
    assert(scan(q) =~~= (l, seq![seq!['r'], seq!['0'], seq!['0'], seq!['0']], seq!['1', '0', '0']));
    lemma_scan_push(q, ' ');
    let q = q.push(' ');
    assert(scan(q) =~~= (l, seq![seq!['r'], seq!['0'], seq!['0'], seq!['0'], seq!['1', '0', '0']], Seq::<char>::empty()));
    lemma_scan_push(q, '0');
    let q = q.push('0');
    assert(scan(q) =~~= (l, seq![seq!['r'], seq!['0'], seq!['0'], seq!['0'], seq!['1', '0', '0']], seq!['0']));
    lemma_scan_push(q, ' ');
    let q = q.push(' ');
    assert(scan(q) =~~= (l, seq![seq!['r'], seq!['0'], seq!['0'], seq!['0'], seq!['1', '0', '0'], seq!['0']], Seq::<char>::empty()));
    lemma_scan_push(q, '1');
    let q = q.push('1');
    assert(scan(q) =~~= (l, seq![seq!['r'], seq!['0'], seq!['0'], seq!['0'], seq!['1', '0', '0'], seq!['0']], seq!['1']));
    lemma_scan_push(q, '0');
    let q = q.push('0');
    assert(scan(q) =~~= (l, seq![seq!['r'], seq!['0'], seq!['0'], seq!['0'], seq!['1', '0', '0'], seq!['0']], seq!['1', '0']));
    lemma_scan_push(q, '0');
    let q = q.push('0');
    assert(scan(q) =~~= (l, seq![seq!['r'], seq!['0'], seq!['0'], seq!['0'], seq!['1', '0', '0'], seq!['0']], seq!['1', '0', '0']));
    lemma_scan_push(q, '0');
    let q = q.push('0');
    assert(scan(q) =~~= (l, seq![seq!['r'], seq!['0'], seq!['0'], seq!['0'], seq!['1', '0', '0'], seq!['0']], seq!['1', '0', '0', '0']));
    lemma_scan_push(q, '\n');
    let q = q.push('\n');
    assert(scan(q) =~~= (l.push(seq![seq!['r'], seq!['0'], seq!['0'], seq!['0'], seq!['1', '0', '0'], seq!['0'], seq!['1', '0', '0', '0']]), Seq::<Seq<char>>::empty(), Seq::<char>::empty()));
    assert(q =~= p + seq!['r', ' ', '0', ' ', '0', ' ', '0', ' ', '1', '0', '0', ' ', '0', ' ', '1', '0', '0', '0', '\n']);
}

/// Reading the line `v 200 100 200 0 0 0 40 3 0 0 0.5`.
proof fn lemma_dump_line_18(p: Seq<char>)
    requires
        scan(p).1 == Seq::<Seq<char>>::empty(),
        scan(p).2 == Seq::<char>::empty(),
    ensures
        scan(p + seq!['v', ' ', '2', '0', '0', ' ', '1', '0', '0', ' ', '2', '0', '0', ' ', '0', ' ', '0', ' ', '0', ' ', '4', '0', ' ', '3', ' ', '0', ' ', '0', ' ', '0', '.', '5', '\n']) =~~= (scan(p).0.push(seq![seq!['v'], seq!['2', '0', '0'], seq!['1', '0', '0'], seq!['2', '0', '0'], seq!['0'], seq!['0'], seq!['0'], seq!['4', '0'], seq!['3'], seq!['0'], seq!['0'], seq!['0', '.', '5']]), Seq::<Seq<char>>::empty(), Seq::<char>::empty()),
{
    let l = scan(p).0;
    let q = p;
    lemma_scan_push(q, 'v');
    let q = q.push('v');
    assert(scan(q) =~~= (l, Seq::<Seq<char>>::empty(), seq!['v']));
    lemma_scan_push(q, ' ');
    let q = q.push(' ');
    assert(scan(q) =~~= (l, seq![seq!['v']], Seq::<char>::empty()));
    lemma_scan_push(q, '2');
    let q = q.push('2');
    assert(scan(q) =~~= (l, seq![seq!['v']], seq!['2']));
    lemma_scan_push(q, '0');
    let q = q.push('0');
    assert(scan(q) =~~= (l, seq![seq!['v']], seq!['2', '0']));
    lemma_scan_push(q, '0');
    let q = q.push('0');
    assert(scan(q) =~~= (l, seq![seq!['v']], seq!['2', '0', '0']));
    lemma_scan_push(q, ' ');
    let q = q.push(' ');
    assert(scan(q) =~~= (l, seq![seq!['v'], seq!['2', '0', '0']], Seq::<char>::empty()));
    lemma_scan_push(q, '1');
    let q = q.push('1');
    assert(scan(q) =~~= (l, seq![seq!['v'], seq!['2', '0', '0']], seq!['1']));
    lemma_scan_push(q, '0');
    let q = q.push('0');
    assert(scan(q) =~~= (l, seq![seq!['v'], seq!['2', '0', '0']], seq!['1', '0']));
    lemma_scan_push(q, '0');
    let q = q.push('0');
    assert(scan(q) =~~= (l, seq![seq!['v'], seq!['2', '0', '0']], seq!['1', '0', '0']));
    lemma_scan_push(q, ' ');
    let q = q.push(' ');
    assert(scan(q) =~~= (l, seq![seq!['v'], seq!['2', '0', '0'], seq!['1', '0', '0']], Seq::<char>::empty()));
    lemma_scan_push(q, '2');
    let q = q.push('2');
    assert(scan(q) =~~= (l, seq![seq!['v'], seq!['2', '0', '0'], seq!['1', '0', '0']], seq!['2']));
    lemma_scan_push(q, '0');
    let q = q.push('0');
    assert(scan(q) =~~= (l, seq![seq!['v'], seq!['2', '0', '0'], seq!['1', '0', '0']], seq!['2', '0']));
    lemma_scan_push(q, '0');
    let q = q.push('0');
    assert(scan(q) =~~= (l, seq![seq!['v'], seq!['2', '0', '0'], seq!['1', '0', '0']], seq!['2', '0', '0']));
    lemma_scan_push(q, ' ');
    let q = q.push(' ');
    assert(scan(q) =~~= (l, seq![seq!['v'], seq!['2', '0', '0'], seq!['1', '0', '0'], seq!['2', '0', '0']], Seq::<char>::empty()));
    lemma_scan_push(q, '0');
    let q = q.push('0');
    assert(scan(q) =~~= (l, seq![seq!['v'], seq!['2', '0', '0'], seq!['1', '0', '0'], seq!['2', '0', '0']], seq!['0']));
    lemma_scan_push(q, ' ');
    let q = q.push(' ');
    assert(scan(q) =~~= (l, seq![seq!['v'], seq!['2', '0', '0'], seq!['1', '0', '0'], seq!['2', '0', '0'], seq!['0']], Seq::<char>::empty()));
    lemma_scan_push(q, '0');
    let q = q.push('0');
    assert(scan(q) =~~= (l, seq![seq!['v'], seq!['2', '0', '0'], seq!['1', '0', '0'], seq!['2', '0', '0'], seq!['0']], seq!['0']));
    lemma_scan_push(q, ' ');
    let q = q.push(' ');
    assert(scan(q) =~~= (l, seq![seq!['v'], seq!['2', '0', '0'], seq!['1', '0', '0'], seq!['2', '0', '0'], seq!['0'], seq!['0']], Seq::<char>::empty()));
    lemma_scan_push(q, '0');
    let q = q.push('0');
    assert(scan(q) =~~= (l, seq![seq!['v'], seq!['2', '0', '0'], seq!['1', '0', '0'], seq!['2', '0', '0'], seq!['0'], seq!['0']], seq!['0']));
    lemma_scan_push(q, ' ');
    let q = q.push(' ');
    assert(scan(q) =~~= (l, seq![seq!['v'], seq!['2', '0', '0'], seq!['1', '0', '0'], seq!['2', '0', '0'], seq!['0'], seq!['0'], seq!['0']], Seq::<char>::empty()));
    lemma_scan_push(q, '4');
    let q = q.push('4');
    assert(scan(q) =~~= (l, seq![seq!['v'], seq!['2', '0', '0'], seq!['1', '0', '0'], seq!['2', '0', '0'], seq!['0'], seq!['0'], seq!['0']], seq!['4']));
    lemma_scan_push(q, '0');
    let q = q.push('0');
    assert(scan(q) =~~= (l, seq![seq!['v'], seq!['2', '0', '0'], seq!['1', '0', '0'], seq!['2', '0', '0'], seq!['0'], seq!['0'], seq!['0']], seq!['4', '0']));
    lemma_scan_push(q, ' ');
    let q = q.push(' ');
    assert(scan(q) =~~= (l, seq![seq!['v'], seq!['2', '0', '0'], seq!['1', '0', '0'], seq!['2', '0', '0'], seq!['0'], seq!['0'], seq!['0'], seq!['4', '0']], Seq::<char>::empty()));
    lemma_scan_push(q, '3');
    let q = q.push('3');
    assert(scan(q) =~~= (l, seq![seq!['v'], seq!['2', '0', '0'], seq!['1', '0', '0'], seq!['2', '0', '0'], seq!['0'], seq!['0'], seq!['0'], seq!['4', '0']], seq!['3']));
    lemma_scan_push(q, ' ');
    let q = q.push(' ');
    assert(scan(q) =~~= (l, seq![seq!['v'], seq!['2', '0', '0'], seq!['1', '0', '0'], seq!['2', '0', '0'], seq!['0'], seq!['0'], seq!['0'], seq!['4', '0'], seq!['3']], Seq::<char>::empty()));
    lemma_scan_push(q, '0');
    let q = q.push('0');
    assert(scan(q) =~~= (l, seq![seq!['v'], seq!['2', '0', '0'], seq!['1', '0', '0'], seq!['2', '0', '0'], seq!['0'], seq!['0'], seq!['0'], seq!['4', '0'], seq!['3']], seq!['0']));
    lemma_scan_push(q, ' ');
    let q = q.push(' ');
    assert(scan(q) =~~= (l, seq![seq!['v'], seq!['2', '0', '0'], seq!['1', '0', '0'], seq!['2', '0', '0'], seq!['0'], seq!['0'], seq!['0'], seq!['4', '0'], seq!['3'], seq!['0']], Seq::<char>::empty()));
    lemma_scan_push(q, '0');
    let q = q.push('0');
    assert(scan(q) =~~= (l, seq![seq!['v'], seq!['2', '0', '0'], seq!['1', '0', '0'], seq!['2', '0', '0'], seq!['0'], seq!['0'], seq!['0'], seq!['4', '0'], seq!['3'], seq!['0']], seq!['0']));
    lemma_scan_push(q, ' ');
    let q = q.push(' ');
    assert(scan(q) =~~= (l, seq![seq!['v'], seq!['2', '0', '0'], seq!['1', '0', '0'], seq!['2', '0', '0'], seq!['0'], seq!['0'], seq!['0'], seq!['4', '0'], seq!['3'], seq!['0'], seq!['0']], Seq::<char>::empty()));
    lemma_scan_push(q, '0');
    let q = q.push('0');
    assert(scan(q) =~~= (l, seq![seq!['v'], seq!['2', '0', '0'], seq!['1', '0', '0'], seq!['2', '0', '0'], seq!['0'], seq!['0'], seq!['0'], seq!['4', '0'], seq!['3'], seq!['0'], seq!['0']], seq!['0']));
    lemma_scan_push(q, '.');
    let q = q.push('.');
    assert(scan(q) =~~= (l, seq![seq!['v'], seq!['2', '0', '0'], seq!['1', '0', '0'], seq!['2', '0', '0'], seq!['0'], seq!['0'], seq!['0'], seq!['4', '0'], seq!['3'], seq!['0'], seq!['0']], seq!['0', '.']));
    lemma_scan_push(q, '5');
    let q = q.push('5');
    assert(scan(q) =~~= (l, seq![seq!['v'], seq!['2', '0', '0'], seq!['1', '0', '0'], seq!['2', '0', '0'], seq!['0'], seq!['0'], seq!['0'], seq!['4', '0'], seq!['3'], seq!['0'], seq!['0']], seq!['0', '.', '5']));
    lemma_scan_push(q, '\n');
    let q = q.push('\n');
    assert(scan(q) =~~= (l.push(seq![seq!['v'], seq!['2', '0', '0'], seq!['1', '0', '0'], seq!['2', '0', '0'], seq!['0'], seq!['0'], seq!['0'], seq!['4', '0'], seq!['3'], seq!['0'], seq!['0'], seq!['0', '.', '5']]), Seq::<Seq<char>>::empty(), Seq::<char>::empty()));
    assert(q =~= p + seq!['v', ' ', '2', '0', '0', ' ', '1', '0', '0', ' ', '2', '0', '0', ' ', '0', ' ', '0', ' ', '0', ' ', '4', '0', ' ', '3', ' ', '0', ' ', '0', ' ', '0', '.', '5', '\n']);
}

/// Reading the line `r 200 0 200 100 0 1000`.
proof fn lemma_dump_line_19(p: Seq<char>)
    requires
        scan(p).1 == Seq::<Seq<char>>::empty(),
        scan(p).2 == Seq::<char>::empty(),
    ensures
        scan(p + seq!['r', ' ', '2', '0', '0', ' ', '0', ' ', '2', '0', '0', ' ', '1', '0', '0', ' ', '0', ' ', '1', '0', '0', '0', '\n']) =~~= (scan(p).0.push(seq![seq!['r'], seq!['2', '0', '0'], seq!['0'], seq!['2', '0', '0'], seq!['1', '0', '0'], seq!['0'], seq!['1', '0', '0', '0']]), Seq::<Seq<char>>::empty(), Seq::<char>::empty()),
{
    let l = scan(p).0;
    let q = p;
    lemma_scan_push(q, 'r');
    let q = q.push('r');
    assert(scan(q) =~~= (l, Seq::<Seq<char>>::empty(), seq!['r']));
    lemma_scan_push(q, ' ');
    let q = q.push(' ');
    assert(scan(q) =~~= (l, seq![seq!['r']], Seq::<char>::empty()));
    lemma_scan_push(q, '2');
    let q = q.push('2');
    assert(scan(q) =~~= (l, seq![seq!['r']], seq!['2']));
    lemma_scan_push(q, '0');
    let q = q.push('0');
    assert(scan(q) =~~= (l, seq![seq!['r']], seq!['2', '0']));
    lemma_scan_push(q, '0');
    let q = q.push('0');
    assert(scan(q) =~~= (l, seq![seq!['r']], seq!['2', '0', '0']));
    lemma_scan_push(q, ' ');
    let q = q.push(' ');
    assert(scan(q) =~~= (l, seq![seq!['r'], seq!['2', '0', '0']], Seq::<char>::empty()));
    lemma_scan_push(q, '0');
    let q = q.push('0');
    assert(scan(q) =~~= (l, seq![seq!['r'], seq!['2', '0', '0']], seq!['0']));
    lemma_scan_push(q, ' ');
    let q = q.push(' ');
    assert(scan(q) =~~= (l, seq![seq!['r'], seq!['2', '0', '0'], seq!['0']], Seq::<char>::empty()));
    lemma_scan_push(q, '2');
    let q = q.push('2');
    assert(scan(q) =~~= (l, seq![seq!['r'], seq!['2', '0', '0'], seq!['0']], seq!['2']));
    lemma_scan_push(q, '0');
    let q = q.push('0');
    assert(scan(q) =~~= (l, seq![seq!['r'], seq!['2', '0', '0'], seq!['0']], seq!['2', '0']));
    lemma_scan_push(q, '0');
    let q = q.push('0');
    assert(scan(q) =~~= (l, seq![seq!['r'], seq!['2', '0', '0'], seq!['0']], seq!['2', '0', '0']));
    lemma_scan_push(q, ' ');
    let q = q.push(' ');
    assert(scan(q) =~~= (l, seq![seq!['r'], seq!['2', '0', '0'], seq!['0'], seq!['2', '0', '0']], Seq::<char>::empty()));
    lemma_scan_push(q, '1');
    let q = q.push('1');
    assert(scan(q) =~~= (l, seq![seq!['r'], seq!['2', '0', '0'], seq!['0'], seq!['2', '0', '0']], seq!['1']));
    lemma_scan_push(q, '0');
    let q = q.push('0');
    assert(scan(q) =~~= (l, seq![seq!['r'], seq!['2', '0', '0'], seq!['0'], seq!['2', '0', '0']], seq!['1', '0']));
    lemma_scan_push(q, '0');
    let q = q.push('0');
    assert(scan(q) =~~= (l, seq![seq!['r'], seq!['2', '0', '0'], seq!['0'], seq!['2', '0', '0']], seq!['1', '0', '0']));
    lemma_scan_push(q, ' ');
    let q = q.push(' ');
    assert(scan(q) =~~= (l, seq![seq!['r'], seq!['2', '0', '0'], seq!['0'], seq!['2', '0', '0'], seq!['1', '0', '0']], Seq::<char>::empty()));
    lemma_scan_push(q, '0');
    let q = q.push('0');
    assert(scan(q) =~~= (l, seq![seq!['r'], seq!['2', '0', '0'], seq!['0'], seq!['2', '0', '0'], seq!['1', '0', '0']], seq!['0']));
    lemma_scan_push(q, ' ');
    let q = q.push(' ');
    assert(scan(q) =~~= (l, seq![seq!['r'], seq!['2', '0', '0'], seq!['0'], seq!['2', '0', '0'], seq!['1', '0', '0'], seq!['0']], Seq::<char>::empty()));
    lemma_scan_push(q, '1');
    let q = q.push('1');
    assert(scan(q) =~~= (l, seq![seq!['r'], seq!['2', '0', '0'], seq!['0'], seq!['2', '0', '0'], seq!['1', '0', '0'], seq!['0']], seq!['1']));
    lemma_scan_push(q, '0');
    let q = q.push('0');
    assert(scan(q) =~~= (l, seq![seq!['r'], seq!['2', '0', '0'], seq!['0'], seq!['2', '0', '0'], seq!['1', '0', '0'], seq!['0']], seq!['1', '0']));
    lemma_scan_push(q, '0');
    let q = q.push('0');
    assert(scan(q) =~~= (l, seq![seq!['r'], seq!['2', '0', '0'], seq!['0'], seq!['2', '0', '0'], seq!['1', '0', '0'], seq!['0']], seq!['1', '0', '0']));
    lemma_scan_push(q, '0');
    let q = q.push('0');
    assert(scan(q) =~~= (l, seq![seq!['r'], seq!['2', '0', '0'], seq!['0'], seq!['2', '0', '0'], seq!['1', '0', '0'], seq!['0']], seq!['1', '0', '0', '0']));
    lemma_scan_push(q, '\n');
    let q = q.push('\n');
    assert(scan(q) =~~= (l.push(seq![seq!['r'], seq!['2', '0', '0'], seq!['0'], seq!['2', '0', '0'], seq!['1', '0', '0'], seq!['0'], seq!['1', '0', '0', '0']]), Seq::<Seq<char>>::empty(), Seq::<char>::empty()));
    assert(q =~= p + seq!['r', ' ', '2', '0', '0', ' ', '0', ' ', '2', '0', '0', ' ', '1', '0', '0', ' ', '0', ' ', '1', '0', '0', '0', '\n']);
}

/// Reading the line `g 200 100 200 116 0`.
proof fn lemma_dump_line_20(p: Seq<char>)
    requires
        scan(p).1 == Seq::<Seq<char>>::empty(),
        scan(p).2 == Seq::<char>::empty(),
    ensures
        scan(p + seq!['g', ' ', '2', '0', '0', ' ', '1', '0', '0', ' ', '2', '0', '0', ' ', '1', '1', '6', ' ', '0', '\n']) =~~= (scan(p).0.push(seq![seq!['g'], seq!['2', '0', '0'], seq!['1', '0', '0'], seq!['2', '0', '0'], seq!['1', '1', '6'], seq!['0']]), Seq::<Seq<char>>::empty(), Seq::<char>::empty()),
{
    let l = scan(p).0;
    let q = p;
    lemma_scan_push(q, 'g');
    let q = q.push('g');
    assert(scan(q) =~~= (l, Seq::<Seq<char>>::empty(), seq!['g']));
    lemma_scan_push(q, ' ');
    let q = q.push(' ');
    assert(scan(q) =~~= (l, seq![seq!['g']], Seq::<char>::empty()));
    lemma_scan_push(q, '2');
    let q = q.push('2');
    assert(scan(q) =~~= (l, seq![seq!['g']], seq!['2']));
    lemma_scan_push(q, '0');
    let q = q.push('0');
    assert(scan(q) =~~= (l, seq![seq!['g']], seq!['2', '0']));
    lemma_scan_push(q, '0');
    let q = q.push('0');
    assert(scan(q) =~~= (l, seq![seq!['g']], seq!['2', '0', '0']));
    lemma_scan_push(q, ' ');
    let q = q.push(' ');
    assert(scan(q) =~~= (l, seq![seq!['g'], seq!['2', '0', '0']], Seq::<char>::empty()));
    lemma_scan_push(q, '1');
    let q = q.push('1');
    assert(scan(q) =~~= (l, seq![seq!['g'], seq!['2', '0', '0']], seq!['1']));
    lemma_scan_push(q, '0');
    let q = q.push('0');
    assert(scan(q) =~~= (l, seq![seq!['g'], seq!['2', '0', '0']], seq!['1', '0']));
    lemma_scan_push(q, '0');
    let q = q.push('0');
    assert(scan(q) =~~= (l, seq![seq!['g'], seq!['2', '0', '0']], seq!['1', '0', '0']));
    lemma_scan_push(q, ' ');
    let q = q.push(' ');
    assert(scan(q) =~~= (l, seq![seq!['g'], seq!['2', '0', '0'], seq!['1', '0', '0']], Seq::<char>::empty()));
    lemma_scan_push(q, '2');
    let q = q.push('2');
    assert(scan(q) =~~= (l, seq![seq!['g'], seq!['2', '0', '0'], seq!['1', '0', '0']], seq!['2']));
    lemma_scan_push(q, '0');
    let q = q.push('0');
    assert(scan(q) =~~= (l, seq![seq!['g'], seq!['2', '0', '0'], seq!['1', '0', '0']], seq!['2', '0']));
    lemma_scan_push(q, '0');
    let q = q.push('0');
    assert(scan(q) =~~= (l, seq![seq!['g'], seq!['2', '0', '0'], seq!['1', '0', '0']], seq!['2', '0', '0']));
    lemma_scan_push(q, ' ');
    let q = q.push(' ');
    assert(scan(q) =~~= (l, seq![seq!['g'], seq!['2', '0', '0'], seq!['1', '0', '0'], seq!['2', '0', '0']], Seq::<char>::empty()));
    lemma_scan_push(q, '1');
    let q = q.push('1');
    assert(scan(q) =~~= (l, seq![seq!['g'], seq!['2', '0', '0'], seq!['1', '0', '0'], seq!['2', '0', '0']], seq!['1']));
    lemma_scan_push(q, '1');
    let q = q.push('1');
    assert(scan(q) =~~= (l, seq![seq!['g'], seq!['2', '0', '0'], seq!['1', '0', '0'], seq!['2', '0', '0']], seq!['1', '1']));
    lemma_scan_push(q, '6');
    let q = q.push('6');
    assert(scan(q) =~~= (l, seq![seq!['g'], seq!['2', '0', '0'], seq!['1', '0', '0'], seq!['2', '0', '0']], seq!['1', '1', '6']));
    lemma_scan_push(q, ' ');
    let q = q.push(' ');
    assert(scan(q) =~~= (l, seq![seq!['g'], seq!['2', '0', '0'], seq!['1', '0', '0'], seq!['2', '0', '0'], seq!['1', '1', '6']], Seq::<char>::empty()));
    lemma_scan_push(q, '0');
    let q = q.push('0');
    assert(scan(q) =~~= (l, seq![seq!['g'], seq!['2', '0', '0'], seq!['1', '0', '0'], seq!['2', '0', '0'], seq!['1', '1', '6']], seq!['0']));
    lemma_scan_push(q, '\n');
    let q = q.push('\n');
    assert(scan(q) =~~= (l.push(seq![seq!['g'], seq!['2', '0', '0'], seq!['1', '0', '0'], seq!['2', '0', '0'], seq!['1', '1', '6'], seq!['0']]), Seq::<Seq<char>>::empty(), Seq::<char>::empty()));
    assert(q =~= p + seq!['g', ' ', '2', '0', '0', ' ', '1', '0', '0', ' ', '2', '0', '0', ' ', '1', '1', '6', ' ', '0', '\n']);
}

/// The lines of the `divider` example, as words.
#[verifier::rlimit(50)]
proof fn lemma_divider_lines()
    ensures
        text_lines("v 0 100 0 0 0 0 40 10 0 0 0.5\nr 0 0 100 0 0 1000\nr 100 0 100 100 0 1000\nw 100 100 0 100 0\n"@) =~~= seq![seq![seq!['v'], seq!['0'], seq!['1', '0', '0'], seq!['0'], seq!['0'], seq!['0'], seq!['0'], seq!['4', '0'], seq!['1', '0'], seq!['0'], seq!['0'], seq!['0', '.', '5']], seq![seq!['r'], seq!['0'], seq!['0'], seq!['1', '0', '0'], seq!['0'], seq!['0'], seq!['1', '0', '0', '0']], seq![seq!['r'], seq!['1', '0', '0'], seq!['0'], seq!['1', '0', '0'], seq!['1', '0', '0'], seq!['0'], seq!['1', '0', '0', '0']], seq![seq!['w'], seq!['1', '0', '0'], seq!['1', '0', '0'], seq!['0'], seq!['1', '0', '0'], seq!['0']], Seq::<Seq<char>>::empty()],
{
    let p: Seq<char> = Seq::empty();
    assert(scan(p) =~~= (Seq::<Seq<Seq<char>>>::empty(), Seq::<Seq<char>>::empty(), Seq::<char>::empty()));
    lemma_dump_line_1(p);
    let p = p + seq!['v', ' ', '0', ' ', '1', '0', '0', ' ', '0', ' ', '0', ' ', '0', ' ', '0', ' ', '4', '0', ' ', '1', '0', ' ', '0', ' ', '0', ' ', '0', '.', '5', '\n'];
    assert(scan(p) =~~= (seq![seq![seq!['v'], seq!['0'], seq!['1', '0', '0'], seq!['0'], seq!['0'], seq!['0'], seq!['0'], seq!['4', '0'], seq!['1', '0'], seq!['0'], seq!['0'], seq!['0', '.', '5']]], Seq::<Seq<char>>::empty(), Seq::<char>::empty()));
    lemma_dump_line_2(p);
    let p = p + seq!['r', ' ', '0', ' ', '0', ' ', '1', '0', '0', ' ', '0', ' ', '0', ' ', '1', '0', '0', '0', '\n'];
    assert(scan(p) =~~= (seq![seq![seq!['v'], seq!['0'], seq!['1', '0', '0'], seq!['0'], seq!['0'], seq!['0'], seq!['0'], seq!['4', '0'], seq!['1', '0'], seq!['0'], seq!['0'], seq!['0', '.', '5']], seq![seq!['r'], seq!['0'], seq!['0'], seq!['1', '0', '0'], seq!['0'], seq!['0'], seq!['1', '0', '0', '0']]], Seq::<Seq<char>>::empty(), Seq::<char>::empty()));
    lemma_dump_line_3(p);
    let p = p + seq!['r', ' ', '1', '0', '0', ' ', '0', ' ', '1', '0', '0', ' ', '1', '0', '0', ' ', '0', ' ', '1', '0', '0', '0', '\n'];
    assert(scan(p) =~~= (seq![seq![seq!['v'], seq!['0'], seq!['1', '0', '0'], seq!['0'], seq!['0'], seq!['0'], seq!['0'], seq!['4', '0'], seq!['1', '0'], seq!['0'], seq!['0'], seq!['0', '.', '5']], seq![seq!['r'], seq!['0'], seq!['0'], seq!['1', '0', '0'], seq!['0'], seq!['0'], seq!['1', '0', '0', '0']], seq![seq!['r'], seq!['1', '0', '0'], seq!['0'], seq!['1', '0', '0'], seq!['1', '0', '0'], seq!['0'], seq!['1', '0', '0', '0']]], Seq::<Seq<char>>::empty(), Seq::<char>::empty()));
    lemma_dump_line_4(p);
    let p = p + seq!['w', ' ', '1', '0', '0', ' ', '1', '0', '0', ' ', '0', ' ', '1', '0', '0', ' ', '0', '\n'];
    assert(scan(p) =~~= (seq![seq![seq!['v'], seq!['0'], seq!['1', '0', '0'], seq!['0'], seq!['0'], seq!['0'], seq!['0'], seq!['4', '0'], seq!['1', '0'], seq!['0'], seq!['0'], seq!['0', '.', '5']], seq![seq!['r'], seq!['0'], seq!['0'], seq!['1', '0', '0'], seq!['0'], seq!['0'], seq!['1', '0', '0', '0']], seq![seq!['r'], seq!['1', '0', '0'], seq!['0'], seq!['1', '0', '0'], seq!['1', '0', '0'], seq!['0'], seq!['1', '0', '0', '0']], seq![seq!['w'], seq!['1', '0', '0'], seq!['1', '0', '0'], seq!['0'], seq!['1', '0', '0'], seq!['0']]], Seq::<Seq<char>>::empty(), Seq::<char>::empty()));
    reveal_strlit("v 0 100 0 0 0 0 40 10 0 0 0.5\nr 0 0 100 0 0 1000\nr 100 0 100 100 0 1000\nw 100 100 0 100 0\n");
    assert(p =~= "v 0 100 0 0 0 0 40 10 0 0 0.5\nr 0 0 100 0 0 1000\nr 100 0 100 100 0 1000\nw 100 100 0 100 0\n"@);
}

/// The `divider` example reads without error and has 4 element lines.
proof fn lemma_divider_reads()
    ensures
        parse_text("v 0 100 0 0 0 0 40 10 0 0 0.5\nr 0 0 100 0 0 1000\nr 100 0 100 100 0 1000\nw 100 100 0 100 0\n"@).1 is None,
        element_count(parse_text("v 0 100 0 0 0 0 40 10 0 0 0.5\nr 0 0 100 0 0 1000\nr 100 0 100 100 0 1000\nw 100 100 0 100 0\n"@).0) == 4,
{
    lemma_divider_lines();
    let lines = seq![seq![seq!['v'], seq!['0'], seq!['1', '0', '0'], seq!['0'], seq!['0'], seq!['0'], seq!['0'], seq!['4', '0'], seq!['1', '0'], seq!['0'], seq!['0'], seq!['0', '.', '5']], seq![seq!['r'], seq!['0'], seq!['0'], seq!['1', '0', '0'], seq!['0'], seq!['0'], seq!['1', '0', '0', '0']], seq![seq!['r'], seq!['1', '0', '0'], seq!['0'], seq!['1', '0', '0'], seq!['1', '0', '0'], seq!['0'], seq!['1', '0', '0', '0']], seq![seq!['w'], seq!['1', '0', '0'], seq!['1', '0', '0'], seq!['0'], seq!['1', '0', '0'], seq!['0']], Seq::<Seq<char>>::empty()];
    assert(text_lines("v 0 100 0 0 0 0 40 10 0 0 0.5\nr 0 0 100 0 0 1000\nr 100 0 100 100 0 1000\nw 100 100 0 100 0\n"@) == lines);
    lemma_short_number(lines[0][1]);
    lemma_short_number(lines[0][2]);
    lemma_short_number(lines[0][3]);
    lemma_short_number(lines[0][4]);
    lemma_short_number(lines[0][5]);
    assert(line_spec(lines[0]) is Element);
    lemma_short_number(lines[1][1]);
    lemma_short_number(lines[1][2]);
    lemma_short_number(lines[1][3]);
    lemma_short_number(lines[1][4]);
    lemma_short_number(lines[1][5]);
    assert(line_spec(lines[1]) is Element);
    lemma_short_number(lines[2][1]);
    lemma_short_number(lines[2][2]);
    lemma_short_number(lines[2][3]);
    lemma_short_number(lines[2][4]);
    lemma_short_number(lines[2][5]);
    assert(line_spec(lines[2]) is Element);
    lemma_short_number(lines[3][1]);
    lemma_short_number(lines[3][2]);
    lemma_short_number(lines[3][3]);
    lemma_short_number(lines[3][4]);
    lemma_short_number(lines[3][5]);
    assert(line_spec(lines[3]) is Element);
    assert(parse_lines(lines, 0).1 is None && element_count(parse_lines(lines, 0).0) == 0);
    assert(parse_lines(lines, 1).0.drop_last() =~= parse_lines(lines, 0).0);
    assert(parse_lines(lines, 1).1 is None && element_count(parse_lines(lines, 1).0) == 1);
    assert(parse_lines(lines, 2).0.drop_last() =~= parse_lines(lines, 1).0);
    assert(parse_lines(lines, 2).1 is None && element_count(parse_lines(lines, 2).0) == 2);
    assert(parse_lines(lines, 3).0.drop_last() =~= parse_lines(lines, 2).0);
    assert(parse_lines(lines, 3).1 is None && element_count(parse_lines(lines, 3).0) == 3);
    assert(parse_lines(lines, 4).0.drop_last() =~= parse_lines(lines, 3).0);
    assert(parse_lines(lines, 4).1 is None && element_count(parse_lines(lines, 4).0) == 4);
    assert(parse_lines(lines, 5).1 is None && element_count(parse_lines(lines, 5).0) == 4);
}

/// The lines of the `rc` example, as words.
#[verifier::rlimit(50)]
proof fn lemma_rc_lines()
    ensures
        text_lines("$ 0 0.000001\nv 0 100 0 0 0 0 40 1 0 0 0.5\nr 0 0 100 0 0 1000\nc 100 0 100 100 0 0.000001 0 0 0\nw 100 100 0 100 0\n"@) =~~= seq![seq![seq!['$'], seq!['0'], seq!['0', '.', '0', '0', '0', '0', '0', '1']], seq![seq!['v'], seq!['0'], seq!['1', '0', '0'], seq!['0'], seq!['0'], seq!['0'], seq!['0'], seq!['4', '0'], seq!['1'], seq!['0'], seq!['0'], seq!['0', '.', '5']], seq![seq!['r'], seq!['0'], seq!['0'], seq!['1', '0', '0'], seq!['0'], seq!['0'], seq!['1', '0', '0', '0']], seq![seq!['c'], seq!['1', '0', '0'], seq!['0'], seq!['1', '0', '0'], seq!['1', '0', '0'], seq!['0'], seq!['0', '.', '0', '0', '0', '0', '0', '1'], seq!['0'], seq!['0'], seq!['0']], seq![seq!['w'], seq!['1', '0', '0'], seq!['1', '0', '0'], seq!['0'], seq!['1', '0', '0'], seq!['0']], Seq::<Seq<char>>::empty()],
{
    let p: Seq<char> = Seq::empty();
    assert(scan(p) =~~= (Seq::<Seq<Seq<char>>>::empty(), Seq::<Seq<char>>::empty(), Seq::<char>::empty()));
    lemma_dump_line_5(p);
    let p = p + seq!['$', ' ', '0', ' ', '0', '.', '0', '0', '0', '0', '0', '1', '\n'];
    assert(scan(p) =~~= (seq![seq![seq!['$'], seq!['0'], seq!['0', '.', '0', '0', '0', '0', '0', '1']]], Seq::<Seq<char>>::empty(), Seq::<char>::empty()));
    lemma_dump_line_6(p);
    let p = p + seq!['v', ' ', '0', ' ', '1', '0', '0', ' ', '0', ' ', '0', ' ', '0', ' ', '0', ' ', '4', '0', ' ', '1', ' ', '0', ' ', '0', ' ', '0', '.', '5', '\n'];
    assert(scan(p) =~~= (seq![seq![seq!['$'], seq!['0'], seq!['0', '.', '0', '0', '0', '0', '0', '1']], seq![seq!['v'], seq!['0'], seq!['1', '0', '0'], seq!['0'], seq!['0'], seq!['0'], seq!['0'], seq!['4', '0'], seq!['1'], seq!['0'], seq!['0'], seq!['0', '.', '5']]], Seq::<Seq<char>>::empty(), Seq::<char>::empty()));
    lemma_dump_line_2(p);
    let p = p + seq!['r', ' ', '0', ' ', '0', ' ', '1', '0', '0', ' ', '0', ' ', '0', ' ', '1', '0', '0', '0', '\n'];
    assert(scan(p) =~~= (seq![seq![seq!['$'], seq!['0'], seq!['0', '.', '0', '0', '0', '0', '0', '1']], seq![seq!['v'], seq!['0'], seq!['1', '0', '0'], seq!['0'], seq!['0'], seq!['0'], seq!['0'], seq!['4', '0'], seq!['1'], seq!['0'], seq!['0'], seq!['0', '.', '5']], seq![seq!['r'], seq!['0'], seq!['0'], seq!['1', '0', '0'], seq!['0'], seq!['0'], seq!['1', '0', '0', '0']]], Seq::<Seq<char>>::empty(), Seq::<char>::empty()));
    lemma_dump_line_7(p);
    let p = p + seq!['c', ' ', '1', '0', '0', ' ', '0', ' ', '1', '0', '0', ' ', '1', '0', '0', ' ', '0', ' ', '0', '.', '0', '0', '0', '0', '0', '1', ' ', '0', ' ', '0', ' ', '0', '\n'];
    assert(scan(p) =~~= (seq![seq![seq!['$'], seq!['0'], seq!['0', '.', '0', '0', '0', '0', '0', '1']], seq![seq!['v'], seq!['0'], seq!['1', '0', '0'], seq!['0'], seq!['0'], seq!['0'], seq!['0'], seq!['4', '0'], seq!['1'], seq!['0'], seq!['0'], seq!['0', '.', '5']], seq![seq!['r'], seq!['0'], seq!['0'], seq!['1', '0', '0'], seq!['0'], seq!['0'], seq!['1', '0', '0', '0']], seq![seq!['c'], seq!['1', '0', '0'], seq!['0'], seq!['1', '0', '0'], seq!['1', '0', '0'], seq!['0'], seq!['0', '.', '0', '0', '0', '0', '0', '1'], seq!['0'], seq!['0'], seq!['0']]], Seq::<Seq<char>>::empty(), Seq::<char>::empty()));
    lemma_dump_line_4(p);
    let p = p + seq!['w', ' ', '1', '0', '0', ' ', '1', '0', '0', ' ', '0', ' ', '1', '0', '0', ' ', '0', '\n'];
    assert(scan(p) =~~= (seq![seq![seq!['$'], seq!['0'], seq!['0', '.', '0', '0', '0', '0', '0', '1']], seq![seq!['v'], seq!['0'], seq!['1', '0', '0'], seq!['0'], seq!['0'], seq!['0'], seq!['0'], seq!['4', '0'], seq!['1'], seq!['0'], seq!['0'], seq!['0', '.', '5']], seq![seq!['r'], seq!['0'], seq!['0'], seq!['1', '0', '0'], seq!['0'], seq!['0'], seq!['1', '0', '0', '0']], seq![seq!['c'], seq!['1', '0', '0'], seq!['0'], seq!['1', '0', '0'], seq!['1', '0', '0'], seq!['0'], seq!['0', '.', '0', '0', '0', '0', '0', '1'], seq!['0'], seq!['0'], seq!['0']], seq![seq!['w'], seq!['1', '0', '0'], seq!['1', '0', '0'], seq!['0'], seq!['1', '0', '0'], seq!['0']]], Seq::<Seq<char>>::empty(), Seq::<char>::empty()));
    reveal_strlit("$ 0 0.000001\nv 0 100 0 0 0 0 40 1 0 0 0.5\nr 0 0 100 0 0 1000\nc 100 0 100 100 0 0.000001 0 0 0\nw 100 100 0 100 0\n");
    assert(p =~= "$ 0 0.000001\nv 0 100 0 0 0 0 40 1 0 0 0.5\nr 0 0 100 0 0 1000\nc 100 0 100 100 0 0.000001 0 0 0\nw 100 100 0 100 0\n"@);
}

/// The `rc` example reads without error and has 4 element lines.
proof fn lemma_rc_reads()
    ensures
        parse_text("$ 0 0.000001\nv 0 100 0 0 0 0 40 1 0 0 0.5\nr 0 0 100 0 0 1000\nc 100 0 100 100 0 0.000001 0 0 0\nw 100 100 0 100 0\n"@).1 is None,
        element_count(parse_text("$ 0 0.000001\nv 0 100 0 0 0 0 40 1 0 0 0.5\nr 0 0 100 0 0 1000\nc 100 0 100 100 0 0.000001 0 0 0\nw 100 100 0 100 0\n"@).0) == 4,
{
    lemma_rc_lines();
    let lines = seq![seq![seq!['$'], seq!['0'], seq!['0', '.', '0', '0', '0', '0', '0', '1']], seq![seq!['v'], seq!['0'], seq!['1', '0', '0'], seq!['0'], seq!['0'], seq!['0'], seq!['0'], seq!['4', '0'], seq!['1'], seq!['0'], seq!['0'], seq!['0', '.', '5']], seq![seq!['r'], seq!['0'], seq!['0'], seq!['1', '0', '0'], seq!['0'], seq!['0'], seq!['1', '0', '0', '0']], seq![seq!['c'], seq!['1', '0', '0'], seq!['0'], seq!['1', '0', '0'], seq!['1', '0', '0'], seq!['0'], seq!['0', '.', '0', '0', '0', '0', '0', '1'], seq!['0'], seq!['0'], seq!['0']], seq![seq!['w'], seq!['1', '0', '0'], seq!['1', '0', '0'], seq!['0'], seq!['1', '0', '0'], seq!['0']], Seq::<Seq<char>>::empty()];
    assert(text_lines("$ 0 0.000001\nv 0 100 0 0 0 0 40 1 0 0 0.5\nr 0 0 100 0 0 1000\nc 100 0 100 100 0 0.000001 0 0 0\nw 100 100 0 100 0\n"@) == lines);
    lemma_short_number(lines[0][1]);
    assert(line_spec(lines[0]) is Options);
    lemma_short_number(lines[1][1]);
    lemma_short_number(lines[1][2]);
    lemma_short_number(lines[1][3]);
    lemma_short_number(lines[1][4]);
    lemma_short_number(lines[1][5]);
    assert(line_spec(lines[1]) is Element);
    lemma_short_number(lines[2][1]);
    lemma_short_number(lines[2][2]);
    lemma_short_number(lines[2][3]);
    lemma_short_number(lines[2][4]);
    lemma_short_number(lines[2][5]);
    assert(line_spec(lines[2]) is Element);
    lemma_short_number(lines[3][1]);
    lemma_short_number(lines[3][2]);
    lemma_short_number(lines[3][3]);
    lemma_short_number(lines[3][4]);
    lemma_short_number(lines[3][5]);
    assert(line_spec(lines[3]) is Element);
    lemma_short_number(lines[4][1]);
    lemma_short_number(lines[4][2]);
    lemma_short_number(lines[4][3]);
    lemma_short_number(lines[4][4]);
    lemma_short_number(lines[4][5]);
    assert(line_spec(lines[4]) is Element);
    assert(parse_lines(lines, 0).1 is None && element_count(parse_lines(lines, 0).0) == 0);
    assert(parse_lines(lines, 1).0.drop_last() =~= parse_lines(lines, 0).0);
    assert(parse_lines(lines, 1).1 is None && element_count(parse_lines(lines, 1).0) == 0);
    assert(parse_lines(lines, 2).0.drop_last() =~= parse_lines(lines, 1).0);
    assert(parse_lines(lines, 2).1 is None && element_count(parse_lines(lines, 2).0) == 1);
    assert(parse_lines(lines, 3).0.drop_last() =~= parse_lines(lines, 2).0);
    assert(parse_lines(lines, 3).1 is None && element_count(parse_lines(lines, 3).0) == 2);
    assert(parse_lines(lines, 4).0.drop_last() =~= parse_lines(lines, 3).0);
    assert(parse_lines(lines, 4).1 is None && element_count(parse_lines(lines, 4).0) == 3);
    assert(parse_lines(lines, 5).0.drop_last() =~= parse_lines(lines, 4).0);
    assert(parse_lines(lines, 5).1 is None && element_count(parse_lines(lines, 5).0) == 4);
    assert(parse_lines(lines, 6).1 is None && element_count(parse_lines(lines, 6).0) == 4);
}

/// The lines of the `lc` example, as words.
#[verifier::rlimit(50)]
proof fn lemma_lc_lines()
    ensures
        text_lines("$ 0 0.0000001\ng 0 0 0 16 0\nc 0 0 100 0 0 0.000001 1 1 0\nl 100 0 0 0 0 0.001 0 0\n"@) =~~= seq![seq![seq!['$'], seq!['0'], seq!['0', '.', '0', '0', '0', '0', '0', '0', '1']], seq![seq!['g'], seq!['0'], seq!['0'], seq!['0'], seq!['1', '6'], seq!['0']], seq![seq!['c'], seq!['0'], seq!['0'], seq!['1', '0', '0'], seq!['0'], seq!['0'], seq!['0', '.', '0', '0', '0', '0', '0', '1'], seq!['1'], seq!['1'], seq!['0']], seq![seq!['l'], seq!['1', '0', '0'], seq!['0'], seq!['0'], seq!['0'], seq!['0'], seq!['0', '.', '0', '0', '1'], seq!['0'], seq!['0']], Seq::<Seq<char>>::empty()],
{
    let p: Seq<char> = Seq::empty();
    assert(scan(p) =~~= (Seq::<Seq<Seq<char>>>::empty(), Seq::<Seq<char>>::empty(), Seq::<char>::empty()));
    lemma_dump_line_8(p);
    let p = p + seq!['$', ' ', '0', ' ', '0', '.', '0', '0', '0', '0', '0', '0', '1', '\n'];
    assert(scan(p) =~~= (seq![seq![seq!['$'], seq!['0'], seq!['0', '.', '0', '0', '0', '0', '0', '0', '1']]], Seq::<Seq<char>>::empty(), Seq::<char>::empty()));
    lemma_dump_line_9(p);
    let p = p + seq!['g', ' ', '0', ' ', '0', ' ', '0', ' ', '1', '6', ' ', '0', '\n'];
    assert(scan(p) =~~= (seq![seq![seq!['$'], seq!['0'], seq!['0', '.', '0', '0', '0', '0', '0', '0', '1']], seq![seq!['g'], seq!['0'], seq!['0'], seq!['0'], seq!['1', '6'], seq!['0']]], Seq::<Seq<char>>::empty(), Seq::<char>::empty()));
    lemma_dump_line_10(p);
    let p = p + seq!['c', ' ', '0', ' ', '0', ' ', '1', '0', '0', ' ', '0', ' ', '0', ' ', '0', '.', '0', '0', '0', '0', '0', '1', ' ', '1', ' ', '1', ' ', '0', '\n'];
    assert(scan(p) =~~= (seq![seq![seq!['$'], seq!['0'], seq!['0', '.', '0', '0', '0', '0', '0', '0', '1']], seq![seq!['g'], seq!['0'], seq!['0'], seq!['0'], seq!['1', '6'], seq!['0']], seq![seq!['c'], seq!['0'], seq!['0'], seq!['1', '0', '0'], seq!['0'], seq!['0'], seq!['0', '.', '0', '0', '0', '0', '0', '1'], seq!['1'], seq!['1'], seq!['0']]], Seq::<Seq<char>>::empty(), Seq::<char>::empty()));
    lemma_dump_line_11(p);
    let p = p + seq!['l', ' ', '1', '0', '0', ' ', '0', ' ', '0', ' ', '0', ' ', '0', ' ', '0', '.', '0', '0', '1', ' ', '0', ' ', '0', '\n'];
    assert(scan(p) =~~= (seq![seq![seq!['$'], seq!['0'], seq!['0', '.', '0', '0', '0', '0', '0', '0', '1']], seq![seq!['g'], seq!['0'], seq!['0'], seq!['0'], seq!['1', '6'], seq!['0']], seq![seq!['c'], seq!['0'], seq!['0'], seq!['1', '0', '0'], seq!['0'], seq!['0'], seq!['0', '.', '0', '0', '0', '0', '0', '1'], seq!['1'], seq!['1'], seq!['0']], seq![seq!['l'], seq!['1', '0', '0'], seq!['0'], seq!['0'], seq!['0'], seq!['0'], seq!['0', '.', '0', '0', '1'], seq!['0'], seq!['0']]], Seq::<Seq<char>>::empty(), Seq::<char>::empty()));
    reveal_strlit("$ 0 0.0000001\ng 0 0 0 16 0\nc 0 0 100 0 0 0.000001 1 1 0\nl 100 0 0 0 0 0.001 0 0\n");
    assert(p =~= "$ 0 0.0000001\ng 0 0 0 16 0\nc 0 0 100 0 0 0.000001 1 1 0\nl 100 0 0 0 0 0.001 0 0\n"@);
}

/// The `lc` example reads without error and has 3 element lines.
proof fn lemma_lc_reads()
    ensures
        parse_text("$ 0 0.0000001\ng 0 0 0 16 0\nc 0 0 100 0 0 0.000001 1 1 0\nl 100 0 0 0 0 0.001 0 0\n"@).1 is None,
        element_count(parse_text("$ 0 0.0000001\ng 0 0 0 16 0\nc 0 0 100 0 0 0.000001 1 1 0\nl 100 0 0 0 0 0.001 0 0\n"@).0) == 3,
{
    lemma_lc_lines();
    let lines = seq![seq![seq!['$'], seq!['0'], seq!['0', '.', '0', '0', '0', '0', '0', '0', '1']], seq![seq!['g'], seq!['0'], seq!['0'], seq!['0'], seq!['1', '6'], seq!['0']], seq![seq!['c'], seq!['0'], seq!['0'], seq!['1', '0', '0'], seq!['0'], seq!['0'], seq!['0', '.', '0', '0', '0', '0', '0', '1'], seq!['1'], seq!['1'], seq!['0']], seq![seq!['l'], seq!['1', '0', '0'], seq!['0'], seq!['0'], seq!['0'], seq!['0'], seq!['0', '.', '0', '0', '1'], seq!['0'], seq!['0']], Seq::<Seq<char>>::empty()];
    assert(text_lines("$ 0 0.0000001\ng 0 0 0 16 0\nc 0 0 100 0 0 0.000001 1 1 0\nl 100 0 0 0 0 0.001 0 0\n"@) == lines);
    lemma_short_number(lines[0][1]);
    assert(line_spec(lines[0]) is Options);
    lemma_short_number(lines[1][1]);
    lemma_short_number(lines[1][2]);
    lemma_short_number(lines[1][3]);
    lemma_short_number(lines[1][4]);
    lemma_short_number(lines[1][5]);
    assert(line_spec(lines[1]) is Element);
    lemma_short_number(lines[2][1]);
    lemma_short_number(lines[2][2]);
    lemma_short_number(lines[2][3]);
    lemma_short_number(lines[2][4]);
    lemma_short_number(lines[2][5]);
    assert(line_spec(lines[2]) is Element);
    lemma_short_number(lines[3][1]);
    lemma_short_number(lines[3][2]);
    lemma_short_number(lines[3][3]);
    lemma_short_number(lines[3][4]);
    lemma_short_number(lines[3][5]);
    assert(line_spec(lines[3]) is Element);
    assert(parse_lines(lines, 0).1 is None && element_count(parse_lines(lines, 0).0) == 0);
    assert(parse_lines(lines, 1).0.drop_last() =~= parse_lines(lines, 0).0);
    assert(parse_lines(lines, 1).1 is None && element_count(parse_lines(lines, 1).0) == 0);
    assert(parse_lines(lines, 2).0.drop_last() =~= parse_lines(lines, 1).0);
    assert(parse_lines(lines, 2).1 is None && element_count(parse_lines(lines, 2).0) == 1);
    assert(parse_lines(lines, 3).0.drop_last() =~= parse_lines(lines, 2).0);
    assert(parse_lines(lines, 3).1 is None && element_count(parse_lines(lines, 3).0) == 2);
    assert(parse_lines(lines, 4).0.drop_last() =~= parse_lines(lines, 3).0);
    assert(parse_lines(lines, 4).1 is None && element_count(parse_lines(lines, 4).0) == 3);
    assert(parse_lines(lines, 5).1 is None && element_count(parse_lines(lines, 5).0) == 3);
}

/// The lines of the `diode` example, as words.
#[verifier::rlimit(50)]
proof fn lemma_diode_lines()
    ensures
        text_lines("v 0 100 0 0 0 0 40 5 0 0 0.5\nr 0 0 100 0 0 1000\nd 100 0 100 100 0\nw 100 100 0 100 0\n"@) =~~= seq![seq![seq!['v'], seq!['0'], seq!['1', '0', '0'], seq!['0'], seq!['0'], seq!['0'], seq!['0'], seq!['4', '0'], seq!['5'], seq!['0'], seq!['0'], seq!['0', '.', '5']], seq![seq!['r'], seq!['0'], seq!['0'], seq!['1', '0', '0'], seq!['0'], seq!['0'], seq!['1', '0', '0', '0']], seq![seq!['d'], seq!['1', '0', '0'], seq!['0'], seq!['1', '0', '0'], seq!['1', '0', '0'], seq!['0']], seq![seq!['w'], seq!['1', '0', '0'], seq!['1', '0', '0'], seq!['0'], seq!['1', '0', '0'], seq!['0']], Seq::<Seq<char>>::empty()],
{
    let p: Seq<char> = Seq::empty();
    assert(scan(p) =~~= (Seq::<Seq<Seq<char>>>::empty(), Seq::<Seq<char>>::empty(), Seq::<char>::empty()));
    lemma_dump_line_12(p);
    let p = p + seq!['v', ' ', '0', ' ', '1', '0', '0', ' ', '0', ' ', '0', ' ', '0', ' ', '0', ' ', '4', '0', ' ', '5', ' ', '0', ' ', '0', ' ', '0', '.', '5', '\n'];
    assert(scan(p) =~~= (seq![seq![seq!['v'], seq!['0'], seq!['1', '0', '0'], seq!['0'], seq!['0'], seq!['0'], seq!['0'], seq!['4', '0'], seq!['5'], seq!['0'], seq!['0'], seq!['0', '.', '5']]], Seq::<Seq<char>>::empty(), Seq::<char>::empty()));
    lemma_dump_line_2(p);
    let p = p + seq!['r', ' ', '0', ' ', '0', ' ', '1', '0', '0', ' ', '0', ' ', '0', ' ', '1', '0', '0', '0', '\n'];
    assert(scan(p) =~~= (seq![seq![seq!['v'], seq!['0'], seq!['1', '0', '0'], seq!['0'], seq!['0'], seq!['0'], seq!['0'], seq!['4', '0'], seq!['5'], seq!['0'], seq!['0'], seq!['0', '.', '5']], seq![seq!['r'], seq!['0'], seq!['0'], seq!['1', '0', '0'], seq!['0'], seq!['0'], seq!['1', '0', '0', '0']]], Seq::<Seq<char>>::empty(), Seq::<char>::empty()));
    lemma_dump_line_13(p);
    let p = p + seq!['d', ' ', '1', '0', '0', ' ', '0', ' ', '1', '0', '0', ' ', '1', '0', '0', ' ', '0', '\n'];
    assert(scan(p) =~~= (seq![seq![seq!['v'], seq!['0'], seq!['1', '0', '0'], seq!['0'], seq!['0'], seq!['0'], seq!['0'], seq!['4', '0'], seq!['5'], seq!['0'], seq!['0'], seq!['0', '.', '5']], seq![seq!['r'], seq!['0'], seq!['0'], seq!['1', '0', '0'], seq!['0'], seq!['0'], seq!['1', '0', '0', '0']], seq![seq!['d'], seq!['1', '0', '0'], seq!['0'], seq!['1', '0', '0'], seq!['1', '0', '0'], seq!['0']]], Seq::<Seq<char>>::empty(), Seq::<char>::empty()));
    lemma_dump_line_4(p);
    let p = p + seq!['w', ' ', '1', '0', '0', ' ', '1', '0', '0', ' ', '0', ' ', '1', '0', '0', ' ', '0', '\n'];
    assert(scan(p) =~~= (seq![seq![seq!['v'], seq!['0'], seq!['1', '0', '0'], seq!['0'], seq!['0'], seq!['0'], seq!['0'], seq!['4', '0'], seq!['5'], seq!['0'], seq!['0'], seq!['0', '.', '5']], seq![seq!['r'], seq!['0'], seq!['0'], seq!['1', '0', '0'], seq!['0'], seq!['0'], seq!['1', '0', '0', '0']], seq![seq!['d'], seq!['1', '0', '0'], seq!['0'], seq!['1', '0', '0'], seq!['1', '0', '0'], seq!['0']], seq![seq!['w'], seq!['1', '0', '0'], seq!['1', '0', '0'], seq!['0'], seq!['1', '0', '0'], seq!['0']]], Seq::<Seq<char>>::empty(), Seq::<char>::empty()));
    reveal_strlit("v 0 100 0 0 0 0 40 5 0 0 0.5\nr 0 0 100 0 0 1000\nd 100 0 100 100 0\nw 100 100 0 100 0\n");
    assert(p =~= "v 0 100 0 0 0 0 40 5 0 0 0.5\nr 0 0 100 0 0 1000\nd 100 0 100 100 0\nw 100 100 0 100 0\n"@);
}

/// The `diode` example reads without error and has 4 element lines.
proof fn lemma_diode_reads()
    ensures
        parse_text("v 0 100 0 0 0 0 40 5 0 0 0.5\nr 0 0 100 0 0 1000\nd 100 0 100 100 0\nw 100 100 0 100 0\n"@).1 is None,
        element_count(parse_text("v 0 100 0 0 0 0 40 5 0 0 0.5\nr 0 0 100 0 0 1000\nd 100 0 100 100 0\nw 100 100 0 100 0\n"@).0) == 4,
{
    lemma_diode_lines();
    let lines = seq![seq![seq!['v'], seq!['0'], seq!['1', '0', '0'], seq!['0'], seq!['0'], seq!['0'], seq!['0'], seq!['4', '0'], seq!['5'], seq!['0'], seq!['0'], seq!['0', '.', '5']], seq![seq!['r'], seq!['0'], seq!['0'], seq!['1', '0', '0'], seq!['0'], seq!['0'], seq!['1', '0', '0', '0']], seq![seq!['d'], seq!['1', '0', '0'], seq!['0'], seq!['1', '0', '0'], seq!['1', '0', '0'], seq!['0']], seq![seq!['w'], seq!['1', '0', '0'], seq!['1', '0', '0'], seq!['0'], seq!['1', '0', '0'], seq!['0']], Seq::<Seq<char>>::empty()];
    assert(text_lines("v 0 100 0 0 0 0 40 5 0 0 0.5\nr 0 0 100 0 0 1000\nd 100 0 100 100 0\nw 100 100 0 100 0\n"@) == lines);
    lemma_short_number(lines[0][1]);
    lemma_short_number(lines[0][2]);
    lemma_short_number(lines[0][3]);
    lemma_short_number(lines[0][4]);
    lemma_short_number(lines[0][5]);
    assert(line_spec(lines[0]) is Element);
    lemma_short_number(lines[1][1]);
    lemma_short_number(lines[1][2]);
    lemma_short_number(lines[1][3]);
    lemma_short_number(lines[1][4]);
    lemma_short_number(lines[1][5]);
    assert(line_spec(lines[1]) is Element);
    lemma_short_number(lines[2][1]);
    lemma_short_number(lines[2][2]);
    lemma_short_number(lines[2][3]);
    lemma_short_number(lines[2][4]);
    lemma_short_number(lines[2][5]);
    assert(line_spec(lines[2]) is Element);
    lemma_short_number(lines[3][1]);
    lemma_short_number(lines[3][2]);
    lemma_short_number(lines[3][3]);
    lemma_short_number(lines[3][4]);
    lemma_short_number(lines[3][5]);
    assert(line_spec(lines[3]) is Element);
    assert(parse_lines(lines, 0).1 is None && element_count(parse_lines(lines, 0).0) == 0);
    assert(parse_lines(lines, 1).0.drop_last() =~= parse_lines(lines, 0).0);
    assert(parse_lines(lines, 1).1 is None && element_count(parse_lines(lines, 1).0) == 1);
    assert(parse_lines(lines, 2).0.drop_last() =~= parse_lines(lines, 1).0);
    assert(parse_lines(lines, 2).1 is None && element_count(parse_lines(lines, 2).0) == 2);
    assert(parse_lines(lines, 3).0.drop_last() =~= parse_lines(lines, 2).0);
    assert(parse_lines(lines, 3).1 is None && element_count(parse_lines(lines, 3).0) == 3);
    assert(parse_lines(lines, 4).0.drop_last() =~= parse_lines(lines, 3).0);
    assert(parse_lines(lines, 4).1 is None && element_count(parse_lines(lines, 4).0) == 4);
    assert(parse_lines(lines, 5).1 is None && element_count(parse_lines(lines, 5).0) == 4);
}

/// The lines of the `current` example, as words.
#[verifier::rlimit(50)]
proof fn lemma_current_lines()
    ensures
        text_lines("i 0 100 0 0 0 0.002\nr 0 0 0 100 0 2500\ng 0 100 0 116 0\n"@) =~~= seq![seq![seq!['i'], seq!['0'], seq!['1', '0', '0'], seq!['0'], seq!['0'], seq!['0'], seq!['0', '.', '0', '0', '2']], seq![seq!['r'], seq!['0'], seq!['0'], seq!['0'], seq!['1', '0', '0'], seq!['0'], seq!['2', '5', '0', '0']], seq![seq!['g'], seq!['0'], seq!['1', '0', '0'], seq!['0'], seq!['1', '1', '6'], seq!['0']], Seq::<Seq<char>>::empty()],
{
    let p: Seq<char> = Seq::empty();
    assert(scan(p) =~~= (Seq::<Seq<Seq<char>>>::empty(), Seq::<Seq<char>>::empty(), Seq::<char>::empty()));
    lemma_dump_line_14(p);
    let p = p + seq!['i', ' ', '0', ' ', '1', '0', '0', ' ', '0', ' ', '0', ' ', '0', ' ', '0', '.', '0', '0', '2', '\n'];
    assert(scan(p) =~~= (seq![seq![seq!['i'], seq!['0'], seq!['1', '0', '0'], seq!['0'], seq!['0'], seq!['0'], seq!['0', '.', '0', '0', '2']]], Seq::<Seq<char>>::empty(), Seq::<char>::empty()));
    lemma_dump_line_15(p);
    let p = p + seq!['r', ' ', '0', ' ', '0', ' ', '0', ' ', '1', '0', '0', ' ', '0', ' ', '2', '5', '0', '0', '\n'];
    assert(scan(p) =~~= (seq![seq![seq!['i'], seq!['0'], seq!['1', '0', '0'], seq!['0'], seq!['0'], seq!['0'], seq!['0', '.', '0', '0', '2']], seq![seq!['r'], seq!['0'], seq!['0'], seq!['0'], seq!['1', '0', '0'], seq!['0'], seq!['2', '5', '0', '0']]], Seq::<Seq<char>>::empty(), Seq::<char>::empty()));
    lemma_dump_line_16(p);
    let p = p + seq!['g', ' ', '0', ' ', '1', '0', '0', ' ', '0', ' ', '1', '1', '6', ' ', '0', '\n'];
    assert(scan(p) =~~= (seq![seq![seq!['i'], seq!['0'], seq!['1', '0', '0'], seq!['0'], seq!['0'], seq!['0'], seq!['0', '.', '0', '0', '2']], seq![seq!['r'], seq!['0'], seq!['0'], seq!['0'], seq!['1', '0', '0'], seq!['0'], seq!['2', '5', '0', '0']], seq![seq!['g'], seq!['0'], seq!['1', '0', '0'], seq!['0'], seq!['1', '1', '6'], seq!['0']]], Seq::<Seq<char>>::empty(), Seq::<char>::empty()));
    reveal_strlit("i 0 100 0 0 0 0.002\nr 0 0 0 100 0 2500\ng 0 100 0 116 0\n");
    assert(p =~= "i 0 100 0 0 0 0.002\nr 0 0 0 100 0 2500\ng 0 100 0 116 0\n"@);
}

/// The `current` example reads without error and has 3 element lines.
proof fn lemma_current_reads()
    ensures
        parse_text("i 0 100 0 0 0 0.002\nr 0 0 0 100 0 2500\ng 0 100 0 116 0\n"@).1 is None,
        element_count(parse_text("i 0 100 0 0 0 0.002\nr 0 0 0 100 0 2500\ng 0 100 0 116 0\n"@).0) == 3,
{
    lemma_current_lines();
    let lines = seq![seq![seq!['i'], seq!['0'], seq!['1', '0', '0'], seq!['0'], seq!['0'], seq!['0'], seq!['0', '.', '0', '0', '2']], seq![seq!['r'], seq!['0'], seq!['0'], seq!['0'], seq!['1', '0', '0'], seq!['0'], seq!['2', '5', '0', '0']], seq![seq!['g'], seq!['0'], seq!['1', '0', '0'], seq!['0'], seq!['1', '1', '6'], seq!['0']], Seq::<Seq<char>>::empty()];
    assert(text_lines("i 0 100 0 0 0 0.002\nr 0 0 0 100 0 2500\ng 0 100 0 116 0\n"@) == lines);
    lemma_short_number(lines[0][1]);
    lemma_short_number(lines[0][2]);
    lemma_short_number(lines[0][3]);
    lemma_short_number(lines[0][4]);
    lemma_short_number(lines[0][5]);
    assert(line_spec(lines[0]) is Element);
    lemma_short_number(lines[1][1]);
    lemma_short_number(lines[1][2]);
    lemma_short_number(lines[1][3]);
    lemma_short_number(lines[1][4]);
    lemma_short_number(lines[1][5]);
    assert(line_spec(lines[1]) is Element);
    lemma_short_number(lines[2][1]);
    lemma_short_number(lines[2][2]);
    lemma_short_number(lines[2][3]);
    lemma_short_number(lines[2][4]);
    lemma_short_number(lines[2][5]);
    assert(line_spec(lines[2]) is Element);
    assert(parse_lines(lines, 0).1 is None && element_count(parse_lines(lines, 0).0) == 0);
    assert(parse_lines(lines, 1).0.drop_last() =~= parse_lines(lines, 0).0);
    assert(parse_lines(lines, 1).1 is None && element_count(parse_lines(lines, 1).0) == 1);
    assert(parse_lines(lines, 2).0.drop_last() =~= parse_lines(lines, 1).0);
    assert(parse_lines(lines, 2).1 is None && element_count(parse_lines(lines, 2).0) == 2);
    assert(parse_lines(lines, 3).0.drop_last() =~= parse_lines(lines, 2).0);
    assert(parse_lines(lines, 3).1 is None && element_count(parse_lines(lines, 3).0) == 3);
    assert(parse_lines(lines, 4).1 is None && element_count(parse_lines(lines, 4).0) == 3);
}

/// The lines of the `islands` example, as words.
#[verifier::rlimit(50)]
proof fn lemma_islands_lines()
    ensures
        text_lines("v 0 100 0 0 0 0 40 10 0 0 0.5\nr 0 0 0 100 0 1000\nv 200 100 200 0 0 0 40 3 0 0 0.5\nr 200 0 200 100 0 1000\ng 0 100 0 116 0\ng 200 100 200 116 0\n"@) =~~= seq![seq![seq!['v'], seq!['0'], seq!['1', '0', '0'], seq!['0'], seq!['0'], seq!['0'], seq!['0'], seq!['4', '0'], seq!['1', '0'], seq!['0'], seq!['0'], seq!['0', '.', '5']], seq![seq!['r'], seq!['0'], seq!['0'], seq!['0'], seq!['1', '0', '0'], seq!['0'], seq!['1', '0', '0', '0']], seq![seq!['v'], seq!['2', '0', '0'], seq!['1', '0', '0'], seq!['2', '0', '0'], seq!['0'], seq!['0'], seq!['0'], seq!['4', '0'], seq!['3'], seq!['0'], seq!['0'], seq!['0', '.', '5']], seq![seq!['r'], seq!['2', '0', '0'], seq!['0'], seq!['2', '0', '0'], seq!['1', '0', '0'], seq!['0'], seq!['1', '0', '0', '0']], seq![seq!['g'], seq!['0'], seq!['1', '0', '0'], seq!['0'], seq!['1', '1', '6'], seq!['0']], seq![seq!['g'], seq!['2', '0', '0'], seq!['1', '0', '0'], seq!['2', '0', '0'], seq!['1', '1', '6'], seq!['0']], Seq::<Seq<char>>::empty()],
{
    let p: Seq<char> = Seq::empty();
    assert(scan(p) =~~= (Seq::<Seq<Seq<char>>>::empty(), Seq::<Seq<char>>::empty(), Seq::<char>::empty()));
    lemma_dump_line_1(p);
    let p = p + seq!['v', ' ', '0', ' ', '1', '0', '0', ' ', '0', ' ', '0', ' ', '0', ' ', '0', ' ', '4', '0', ' ', '1', '0', ' ', '0', ' ', '0', ' ', '0', '.', '5', '\n'];
    assert(scan(p) =~~= (seq![seq![seq!['v'], seq!['0'], seq!['1', '0', '0'], seq!['0'], seq!['0'], seq!['0'], seq!['0'], seq!['4', '0'], seq!['1', '0'], seq!['0'], seq!['0'], seq!['0', '.', '5']]], Seq::<Seq<char>>::empty(), Seq::<char>::empty()));
    lemma_dump_line_17(p);
    let p = p + seq!['r', ' ', '0', ' ', '0', ' ', '0', ' ', '1', '0', '0', ' ', '0', ' ', '1', '0', '0', '0', '\n'];
    assert(scan(p) =~~= (seq![seq![seq!['v'], seq!['0'], seq!['1', '0', '0'], seq!['0'], seq!['0'], seq!['0'], seq!['0'], seq!['4', '0'], seq!['1', '0'], seq!['0'], seq!['0'], seq!['0', '.', '5']], seq![seq!['r'], seq!['0'], seq!['0'], seq!['0'], seq!['1', '0', '0'], seq!['0'], seq!['1', '0', '0', '0']]], Seq::<Seq<char>>::empty(), Seq::<char>::empty()));
    lemma_dump_line_18(p);
    let p = p + seq!['v', ' ', '2', '0', '0', ' ', '1', '0', '0', ' ', '2', '0', '0', ' ', '0', ' ', '0', ' ', '0', ' ', '4', '0', ' ', '3', ' ', '0', ' ', '0', ' ', '0', '.', '5', '\n'];
    assert(scan(p) =~~= (seq![seq![seq!['v'], seq!['0'], seq!['1', '0', '0'], seq!['0'], seq!['0'], seq!['0'], seq!['0'], seq!['4', '0'], seq!['1', '0'], seq!['0'], seq!['0'], seq!['0', '.', '5']], seq![seq!['r'], seq!['0'], seq!['0'], seq!['0'], seq!['1', '0', '0'], seq!['0'], seq!['1', '0', '0', '0']], seq![seq!['v'], seq!['2', '0', '0'], seq!['1', '0', '0'], seq!['2', '0', '0'], seq!['0'], seq!['0'], seq!['0'], seq!['4', '0'], seq!['3'], seq!['0'], seq!['0'], seq!['0', '.', '5']]], Seq::<Seq<char>>::empty(), Seq::<char>::empty()));
    lemma_dump_line_19(p);
    let p = p + seq!['r', ' ', '2', '0', '0', ' ', '0', ' ', '2', '0', '0', ' ', '1', '0', '0', ' ', '0', ' ', '1', '0', '0', '0', '\n'];
    assert(scan(p) =~~= (seq![seq![seq!['v'], seq!['0'], seq!['1', '0', '0'], seq!['0'], seq!['0'], seq!['0'], seq!['0'], seq!['4', '0'], seq!['1', '0'], seq!['0'], seq!['0'], seq!['0', '.', '5']], seq![seq!['r'], seq!['0'], seq!['0'], seq!['0'], seq!['1', '0', '0'], seq!['0'], seq!['1', '0', '0', '0']], seq![seq!['v'], seq!['2', '0', '0'], seq!['1', '0', '0'], seq!['2', '0', '0'], seq!['0'], seq!['0'], seq!['0'], seq!['4', '0'], seq!['3'], seq!['0'], seq!['0'], seq!['0', '.', '5']], seq![seq!['r'], seq!['2', '0', '0'], seq!['0'], seq!['2', '0', '0'], seq!['1', '0', '0'], seq!['0'], seq!['1', '0', '0', '0']]], Seq::<Seq<char>>::empty(), Seq::<char>::empty()));
    lemma_dump_line_16(p);
    let p = p + seq!['g', ' ', '0', ' ', '1', '0', '0', ' ', '0', ' ', '1', '1', '6', ' ', '0', '\n'];
    assert(scan(p) =~~= (seq![seq![seq!['v'], seq!['0'], seq!['1', '0', '0'], seq!['0'], seq!['0'], seq!['0'], seq!['0'], seq!['4', '0'], seq!['1', '0'], seq!['0'], seq!['0'], seq!['0', '.', '5']], seq![seq!['r'], seq!['0'], seq!['0'], seq!['0'], seq!['1', '0', '0'], seq!['0'], seq!['1', '0', '0', '0']], seq![seq!['v'], seq!['2', '0', '0'], seq!['1', '0', '0'], seq!['2', '0', '0'], seq!['0'], seq!['0'], seq!['0'], seq!['4', '0'], seq!['3'], seq!['0'], seq!['0'], seq!['0', '.', '5']], seq![seq!['r'], seq!['2', '0', '0'], seq!['0'], seq!['2', '0', '0'], seq!['1', '0', '0'], seq!['0'], seq!['1', '0', '0', '0']], seq![seq!['g'], seq!['0'], seq!['1', '0', '0'], seq!['0'], seq!['1', '1', '6'], seq!['0']]], Seq::<Seq<char>>::empty(), Seq::<char>::empty()));
    lemma_dump_line_20(p);
    let p = p + seq!['g', ' ', '2', '0', '0', ' ', '1', '0', '0', ' ', '2', '0', '0', ' ', '1', '1', '6', ' ', '0', '\n'];
    assert(scan(p) =~~= (seq![seq![seq!['v'], seq!['0'], seq!['1', '0', '0'], seq!['0'], seq!['0'], seq!['0'], seq!['0'], seq!['4', '0'], seq!['1', '0'], seq!['0'], seq!['0'], seq!['0', '.', '5']], seq![seq!['r'], seq!['0'], seq!['0'], seq!['0'], seq!['1', '0', '0'], seq!['0'], seq!['1', '0', '0', '0']], seq![seq!['v'], seq!['2', '0', '0'], seq!['1', '0', '0'], seq!['2', '0', '0'], seq!['0'], seq!['0'], seq!['0'], seq!['4', '0'], seq!['3'], seq!['0'], seq!['0'], seq!['0', '.', '5']], seq![seq!['r'], seq!['2', '0', '0'], seq!['0'], seq!['2', '0', '0'], seq!['1', '0', '0'], seq!['0'], seq!['1', '0', '0', '0']], seq![seq!['g'], seq!['0'], seq!['1', '0', '0'], seq!['0'], seq!['1', '1', '6'], seq!['0']], seq![seq!['g'], seq!['2', '0', '0'], seq!['1', '0', '0'], seq!['2', '0', '0'], seq!['1', '1', '6'], seq!['0']]], Seq::<Seq<char>>::empty(), Seq::<char>::empty()));
    reveal_strlit("v 0 100 0 0 0 0 40 10 0 0 0.5\nr 0 0 0 100 0 1000\nv 200 100 200 0 0 0 40 3 0 0 0.5\nr 200 0 200 100 0 1000\ng 0 100 0 116 0\ng 200 100 200 116 0\n");
    assert(p =~= "v 0 100 0 0 0 0 40 10 0 0 0.5\nr 0 0 0 100 0 1000\nv 200 100 200 0 0 0 40 3 0 0 0.5\nr 200 0 200 100 0 1000\ng 0 100 0 116 0\ng 200 100 200 116 0\n"@);
}

/// The `islands` example reads without error and has 6 element lines.
proof fn lemma_islands_reads()
    ensures
        parse_text("v 0 100 0 0 0 0 40 10 0 0 0.5\nr 0 0 0 100 0 1000\nv 200 100 200 0 0 0 40 3 0 0 0.5\nr 200 0 200 100 0 1000\ng 0 100 0 116 0\ng 200 100 200 116 0\n"@).1 is None,
        element_count(parse_text("v 0 100 0 0 0 0 40 10 0 0 0.5\nr 0 0 0 100 0 1000\nv 200 100 200 0 0 0 40 3 0 0 0.5\nr 200 0 200 100 0 1000\ng 0 100 0 116 0\ng 200 100 200 116 0\n"@).0) == 6,
{
    lemma_islands_lines();
    let lines = seq![seq![seq!['v'], seq!['0'], seq!['1', '0', '0'], seq!['0'], seq!['0'], seq!['0'], seq!['0'], seq!['4', '0'], seq!['1', '0'], seq!['0'], seq!['0'], seq!['0', '.', '5']], seq![seq!['r'], seq!['0'], seq!['0'], seq!['0'], seq!['1', '0', '0'], seq!['0'], seq!['1', '0', '0', '0']], seq![seq!['v'], seq!['2', '0', '0'], seq!['1', '0', '0'], seq!['2', '0', '0'], seq!['0'], seq!['0'], seq!['0'], seq!['4', '0'], seq!['3'], seq!['0'], seq!['0'], seq!['0', '.', '5']], seq![seq!['r'], seq!['2', '0', '0'], seq!['0'], seq!['2', '0', '0'], seq!['1', '0', '0'], seq!['0'], seq!['1', '0', '0', '0']], seq![seq!['g'], seq!['0'], seq!['1', '0', '0'], seq!['0'], seq!['1', '1', '6'], seq!['0']], seq![seq!['g'], seq!['2', '0', '0'], seq!['1', '0', '0'], seq!['2', '0', '0'], seq!['1', '1', '6'], seq!['0']], Seq::<Seq<char>>::empty()];
    assert(text_lines("v 0 100 0 0 0 0 40 10 0 0 0.5\nr 0 0 0 100 0 1000\nv 200 100 200 0 0 0 40 3 0 0 0.5\nr 200 0 200 100 0 1000\ng 0 100 0 116 0\ng 200 100 200 116 0\n"@) == lines);
    lemma_short_number(lines[0][1]);
    lemma_short_number(lines[0][2]);
    lemma_short_number(lines[0][3]);
    lemma_short_number(lines[0][4]);
    lemma_short_number(lines[0][5]);
    assert(line_spec(lines[0]) is Element);
    lemma_short_number(lines[1][1]);
    lemma_short_number(lines[1][2]);
    lemma_short_number(lines[1][3]);
    lemma_short_number(lines[1][4]);
    lemma_short_number(lines[1][5]);
    assert(line_spec(lines[1]) is Element);
    lemma_short_number(lines[2][1]);
    lemma_short_number(lines[2][2]);
    lemma_short_number(lines[2][3]);
    lemma_short_number(lines[2][4]);
    lemma_short_number(lines[2][5]);
    assert(line_spec(lines[2]) is Element);
    lemma_short_number(lines[3][1]);
    lemma_short_number(lines[3][2]);
    lemma_short_number(lines[3][3]);
    lemma_short_number(lines[3][4]);
    lemma_short_number(lines[3][5]);
    assert(line_spec(lines[3]) is Element);
    lemma_short_number(lines[4][1]);
    lemma_short_number(lines[4][2]);
    lemma_short_number(lines[4][3]);
    lemma_short_number(lines[4][4]);
    lemma_short_number(lines[4][5]);
    assert(line_spec(lines[4]) is Element);
    lemma_short_number(lines[5][1]);
    lemma_short_number(lines[5][2]);
    lemma_short_number(lines[5][3]);
    lemma_short_number(lines[5][4]);
    lemma_short_number(lines[5][5]);
    assert(line_spec(lines[5]) is Element);
    assert(parse_lines(lines, 0).1 is None && element_count(parse_lines(lines, 0).0) == 0);
    assert(parse_lines(lines, 1).0.drop_last() =~= parse_lines(lines, 0).0);
    assert(parse_lines(lines, 1).1 is None && element_count(parse_lines(lines, 1).0) == 1);
    assert(parse_lines(lines, 2).0.drop_last() =~= parse_lines(lines, 1).0);
    assert(parse_lines(lines, 2).1 is None && element_count(parse_lines(lines, 2).0) == 2);
    assert(parse_lines(lines, 3).0.drop_last() =~= parse_lines(lines, 2).0);
    assert(parse_lines(lines, 3).1 is None && element_count(parse_lines(lines, 3).0) == 3);
    assert(parse_lines(lines, 4).0.drop_last() =~= parse_lines(lines, 3).0);
    assert(parse_lines(lines, 4).1 is None && element_count(parse_lines(lines, 4).0) == 4);
    assert(parse_lines(lines, 5).0.drop_last() =~= parse_lines(lines, 4).0);
    assert(parse_lines(lines, 5).1 is None && element_count(parse_lines(lines, 5).0) == 5);
    assert(parse_lines(lines, 6).0.drop_last() =~= parse_lines(lines, 5).0);
    assert(parse_lines(lines, 6).1 is None && element_count(parse_lines(lines, 6).0) == 6);
    assert(parse_lines(lines, 7).1 is None && element_count(parse_lines(lines, 7).0) == 6);
}

/// Every built-in example reads without a malformed line and holds at least
/// one element.
pub proof fn lemma_examples_read(i: int)
    requires
        0 <= i < catalog().len(),
    ensures
        parse_text(catalog()[i].dump@).1 is None,
        element_count(parse_text(catalog()[i].dump@).0) > 0,
{
    if i == 0 {
        lemma_divider_reads();
    }
    if i == 1 {
        lemma_rc_reads();
    }
    if i == 2 {
        lemma_lc_reads();
    }
    if i == 3 {
        lemma_diode_reads();
    }
    if i == 4 {
        lemma_current_reads();
    }
    if i == 5 {
        lemma_islands_reads();
    }
}

} // verus!
