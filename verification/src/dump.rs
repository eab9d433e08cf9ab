//! Reading circuit text dumps: lines, whitespace-separated tokens, and the
//! header of each record (type, coordinates, flags).
use vstd::prelude::*;
use vstd::string::StringExecFns;
use crate::error::SimError;

verus! {

/// Unicode white space: the characters `char::is_whitespace` accepts.
pub open spec fn is_ws(c: char) -> bool {
    let u = c as u32;
    ||| 9 <= u <= 13
    ||| u == 32
    ||| u == 0x85
    ||| u == 0xa0
    ||| u == 0x1680
    ||| 0x2000 <= u <= 0x200a
    ||| u == 0x2028
    ||| u == 0x2029
    ||| u == 0x202f
    ||| u == 0x205f
    ||| u == 0x3000
}

fn is_ws_exec(c: char) -> (r: bool)
    ensures
        r == is_ws(c),
{
    let u = c as u32;
    (9 <= u && u <= 13) || u == 32 || u == 0x85 || u == 0xa0 || u == 0x1680 || (0x2000 <= u && u
        <= 0x200a) || u == 0x2028 || u == 0x2029 || u == 0x202f || u == 0x205f || u == 0x3000
}

/// An ASCII decimal digit.
pub open spec fn is_digit(c: char) -> bool {
    '0' <= c <= '9'
}

/// Value of the ASCII digit `c`.
pub open spec fn digit_value(c: char) -> int {
    c as int - '0' as int
}

/// Value of a string of decimal digits.
pub open spec fn digits_value(s: Seq<char>) -> int
    decreases s.len(),
{
    if s.len() == 0 {
        0
    } else {
        10 * digits_value(s.drop_last()) + digit_value(s.last())
    }
}

/// Every character is a decimal digit.
pub open spec fn all_digits(s: Seq<char>) -> bool {
    forall|i: int| 0 <= i < s.len() ==> is_digit(#[trigger] s[i])
}

/// The integer a token denotes as Rust reads an `i32`: an optional `+` or
/// `-`, then at least one decimal digit, with the value in range.
pub open spec fn parse_i32_spec(s: Seq<char>) -> Option<i32> {
    let neg = s.len() > 0 && s[0] == '-';
    let signed = s.len() > 0 && (s[0] == '-' || s[0] == '+');
    let ds = if signed { s.skip(1) } else { s };
    let v = if neg { -digits_value(ds) } else { digits_value(ds) };
    if ds.len() == 0 || !all_digits(ds) || v < i32::MIN || v > i32::MAX {
        None
    } else {
        Some(v as i32)
    }
}

proof fn lemma_digits_value_nonneg(s: Seq<char>)
    requires
        all_digits(s),
    ensures
        digits_value(s) >= 0,
        s.len() > 0 ==> digits_value(s) >= digits_value(s.drop_last()),
    decreases s.len(),
{
    if s.len() > 0 {
        assert(is_digit(s[s.len() - 1]));
        assert(all_digits(s.drop_last())) by {
            assert forall|i: int| 0 <= i < s.drop_last().len() implies is_digit(#[trigger] s.drop_last()[i]) by {
                assert(s.drop_last()[i] == s[i]);
            }
        }
        lemma_digits_value_nonneg(s.drop_last());
    }
}

/// A word of one to three decimal digits reads as its value.
pub proof fn lemma_short_number(s: Seq<char>)
    requires
        1 <= s.len() <= 3,
        all_digits(s),
    ensures
        parse_i32_spec(s) == Some(digits_value(s) as i32),
        0 <= digits_value(s) < 1000,
{
    assert(is_digit(s[0]));
    assert(!(s[0] == '-' || s[0] == '+'));
    let d0 = s.take(1);
    assert(d0.drop_last().len() == 0);
    assert(digits_value(d0.drop_last()) == 0);
    assert(d0.last() == s[0]);
    assert(digits_value(d0) == digit_value(s[0]));
    if s.len() == 1 {
        assert(s =~= d0);
    } else {
        assert(is_digit(s[1]));
        let d1 = s.take(2);
        assert(d1.drop_last() =~= d0);
        assert(d1.last() == s[1]);
        assert(digits_value(d1) == 10 * digit_value(s[0]) + digit_value(s[1]));
        if s.len() == 2 {
            assert(s =~= d1);
        } else {
            assert(is_digit(s[2]));
            assert(s.drop_last() =~= d1);
            assert(digits_value(s) == 10 * digits_value(d1) + digit_value(s[2]));
        }
    }
}

/// Reads an `i32` the way Rust's `str::parse::<i32>` does.
pub fn parse_i32(s: &Vec<char>) -> (r: Option<i32>)
    ensures
        r == parse_i32_spec(s@),
{
    let n = s.len();
    if n == 0 {
        return None;
    }
    let neg = s[0] == '-';
    let start: usize = if s[0] == '-' || s[0] == '+' { 1 } else { 0 };
    if start >= n {
        proof {
            assert(s@.skip(1).len() == 0);
        }
        return None;
    }
    let ghost ds = if start == 1 { s@.skip(1) } else { s@ };
    let mut acc: i64 = 0;
    let mut big = false;
    let mut i: usize = start;
    while i < n
        invariant
            n == s@.len(),
            start <= i <= n,
            start == 0 || start == 1,
            n > 0,
            start == 1 <==> (s@[0] == '-' || s@[0] == '+'),
            neg == (s@[0] == '-'),
            ds == s@.skip(start as int),
            all_digits(ds.take(i - start)),
            !big ==> acc == digits_value(ds.take(i - start)),
            big ==> digits_value(ds.take(i - start)) > 2147483648,
            0 <= acc <= 2147483648,
        decreases n - i,
    {
        let c = s[i];
        if !('0' <= c && c <= '9') {
            proof {
                assert(!is_digit(ds[i - start]));
                assert(!all_digits(ds));
            }
            return None;
        }
        let d = (c as u32 - '0' as u32) as i64;
        let ghost pre = ds.take(i - start);
        let ghost next = ds.take(i - start + 1);
        proof {
            assert(next.drop_last() =~= pre);
            assert(next.last() == c);
            assert(all_digits(next)) by {
                assert forall|j: int| 0 <= j < next.len() implies is_digit(#[trigger] next[j]) by {
                    if j < pre.len() {
                        assert(next[j] == pre[j]);
                    }
                }
            }
            lemma_digits_value_nonneg(pre);
        }
        if !big {
            acc = acc * 10 + d;
            if acc > 2147483648 {
                big = true;
                acc = 0;
            }
        }
        i = i + 1;
    }
    proof {
        assert(ds.take(n - start) =~= ds);
    }
    if big {
        None
    } else if neg {
        Some((0 - acc) as i32)
    } else if acc > 2147483647 {
        None
    } else {
        Some(acc as i32)
    }
}

/// Character of decimal digit `d`.
pub open spec fn digit_char(d: int) -> char {
    (d + '0' as int) as char
}

/// Decimal digits of `n`.
pub open spec fn nat_digits(n: nat) -> Seq<char>
    decreases n,
{
    if n < 10 {
        seq![digit_char(n as int)]
    } else {
        nat_digits(n / 10).push(digit_char((n % 10) as int))
    }
}

/// Decimal text of `n`, with a minus sign when negative.
pub open spec fn decimal(n: int) -> Seq<char> {
    if n < 0 {
        seq!['-'] + nat_digits((-n) as nat)
    } else {
        nat_digits(n as nat)
    }
}

proof fn lemma_nat_digits(n: nat)
    ensures
        nat_digits(n).len() >= 1,
        all_digits(nat_digits(n)),
        digits_value(nat_digits(n)) == n,
    decreases n,
{
    let d = if n < 10 { n as int } else { (n % 10) as int };
    let c = digit_char(d);
    assert(c as int == d + '0' as int);
    assert(is_digit(c));
    assert(digit_value(c) == d);
    if n < 10 {
        let s = nat_digits(n);
        assert(s.drop_last().len() == 0);
        assert(digits_value(s.drop_last()) == 0);
    } else {
        lemma_nat_digits(n / 10);
        let t = nat_digits(n / 10);
        let s = nat_digits(n);
        assert(s.drop_last() =~= t);
        assert(s.last() == c);
        assert forall|i: int| 0 <= i < s.len() implies is_digit(#[trigger] s[i]) by {
            if i < t.len() {
                assert(s[i] == t[i]);
            }
        }
    }
}

/// Writing an integer in decimal and reading it back gives the integer.
pub proof fn lemma_decimal_reads_back(n: i32)
    ensures
        parse_i32_spec(decimal(n as int)) == Some(n),
{
    if n < 0 {
        let m = (-n) as nat;
        lemma_nat_digits(m);
        let s = decimal(n as int);
        assert(s.skip(1) =~= nat_digits(m));
    } else {
        lemma_nat_digits(n as nat);
        assert(is_digit(nat_digits(n as nat)[0]));
    }
}

/// Appends the decimal digits of `m`.
fn push_digits(out: &mut String, m: u64)
    ensures
        final(out)@ == old(out)@ + nat_digits(m as nat),
    decreases m,
{
    if m >= 10 {
        push_digits(out, m / 10);
    }
    let d = (m % 10) as u8;
    let c = (d + 48) as char;
    crate::text::push_char(out, c);
    proof {
        assert(c == digit_char((m % 10) as int));
        if m >= 10 {
            assert(nat_digits(m as nat) == nat_digits((m / 10) as nat).push(digit_char((m % 10) as int)));
        }
    }
}

/// Decimal text of an `i32`.
pub fn int_text(n: i32) -> (r: String)
    ensures
        r@ == decimal(n as int),
{
    let mut r = String::new();
    if n < 0 {
        crate::text::push_char(&mut r, '-');
        let m: u64 = (0 - (n as i64)) as u64;
        push_digits(&mut r, m);
    } else {
        push_digits(&mut r, n as u64);
    }
    r
}


/// `cur` with the word `w` added when it is not empty.
pub open spec fn close_word(cur: Seq<Seq<char>>, w: Seq<char>) -> Seq<Seq<char>> {
    if w.len() > 0 {
        cur.push(w)
    } else {
        cur
    }
}

/// Reading `cs` from the start: the finished lines (each as its words), the
/// words of the current line, and the word being read.
pub open spec fn scan(cs: Seq<char>) -> (Seq<Seq<Seq<char>>>, Seq<Seq<char>>, Seq<char>)
    decreases cs.len(),
{
    if cs.len() == 0 {
        (Seq::empty(), Seq::empty(), Seq::empty())
    } else {
        let prev = scan(cs.drop_last());
        let c = cs.last();
        if c == '\n' {
            (prev.0.push(close_word(prev.1, prev.2)), Seq::empty(), Seq::empty())
        } else if is_ws(c) {
            (prev.0, close_word(prev.1, prev.2), Seq::empty())
        } else {
            (prev.0, prev.1, prev.2.push(c))
        }
    }
}

/// Reading one more character: a newline finishes the line, white space
/// finishes the word, anything else extends the word.
pub proof fn lemma_scan_push(cs: Seq<char>, c: char)
    ensures
        scan(cs.push(c)) == (if c == '\n' {
            (scan(cs).0.push(close_word(scan(cs).1, scan(cs).2)), Seq::<Seq<char>>::empty(), Seq::<char>::empty())
        } else if is_ws(c) {
            (scan(cs).0, close_word(scan(cs).1, scan(cs).2), Seq::<char>::empty())
        } else {
            (scan(cs).0, scan(cs).1, scan(cs).2.push(c))
        }),
{
    assert(cs.push(c).drop_last() =~= cs);
}

/// The lines of a text, split at `\n`, each as its words: the maximal runs
/// of characters that are not white space.
pub open spec fn text_lines(cs: Seq<char>) -> Seq<Seq<Seq<char>>> {
    let st = scan(cs);
    st.0.push(close_word(st.1, st.2))
}

/// What one line of a dump holds.
pub enum LineSpec {
    /// A blank line, a line of a kind the engine ignores, or a model line.
    Skip,
    /// Simulation options: the flags and the remaining words.
    Options { flags: i32, rest: Seq<Seq<char>> },
    /// An element: its dump type, end points, flags and remaining words.
    Element { dump_type: i32, x1: i32, y1: i32, x2: i32, y2: i32, flags: i32, rest: Seq<Seq<char>> },
    /// A malformed line, with the message of its error.
    Fail { message: Seq<char> },
}

/// Lines starting with these characters (scopes, hints, adjustables, ...)
/// are ignored.
pub open spec fn ignored_kind(c: char) -> bool {
    c == 'o' || c == 'h' || c == '!' || c == '%' || c == '?' || c == 'B' || c == '&'
}

/// Element dump types the engine builds: r, c, l, v, i, w, g, d.
pub open spec fn supported_type(t: i32) -> bool {
    t == 114 || t == 99 || t == 108 || t == 118 || t == 105 || t == 119 || t == 103 || t == 100
}

/// Model dump types (diode, transistor, and a third model kind), skipped.
pub open spec fn model_type(t: i32) -> bool {
    t == 34 || t == 32 || t == 38
}

/// The integer at word `i`, if there is such a word and it is an `i32`.
pub open spec fn int_at(toks: Seq<Seq<char>>, i: int) -> Option<i32> {
    if 0 <= i < toks.len() {
        parse_i32_spec(toks[i])
    } else {
        None
    }
}

/// Words after the first `i`.
pub open spec fn words_after(toks: Seq<Seq<char>>, i: int) -> Seq<Seq<char>> {
    if i <= toks.len() {
        toks.skip(i)
    } else {
        Seq::empty()
    }
}

/// An element line of dump type `t`, after its type word.
pub open spec fn element_line(toks: Seq<Seq<char>>, t: i32) -> LineSpec {
    if model_type(t) {
        LineSpec::Skip
    } else if int_at(toks, 1) is None {
        LineSpec::Fail { message: "missing "@ + "x1"@ }
    } else if int_at(toks, 2) is None {
        LineSpec::Fail { message: "missing "@ + "y1"@ }
    } else if int_at(toks, 3) is None {
        LineSpec::Fail { message: "missing "@ + "x2"@ }
    } else if int_at(toks, 4) is None {
        LineSpec::Fail { message: "missing "@ + "y2"@ }
    } else if int_at(toks, 5) is None {
        LineSpec::Fail { message: "missing "@ + "flags"@ }
    } else if !supported_type(t) {
        LineSpec::Fail { message: "unsupported element dump type "@ + decimal(t as int) }
    } else {
        LineSpec::Element {
            dump_type: t,
            x1: int_at(toks, 1)->0,
            y1: int_at(toks, 2)->0,
            x2: int_at(toks, 3)->0,
            y2: int_at(toks, 4)->0,
            flags: int_at(toks, 5)->0,
            rest: words_after(toks, 6),
        }
    }
}

/// What the line with words `toks` holds.
pub open spec fn line_spec(toks: Seq<Seq<char>>) -> LineSpec {
    if toks.len() == 0 || toks[0].len() == 0 {
        LineSpec::Skip
    } else {
        let kind = toks[0];
        let first = kind[0];
        if ignored_kind(first) {
            LineSpec::Skip
        } else if first == '$' {
            match int_at(toks, 1) {
                Some(f) => LineSpec::Options { flags: f, rest: words_after(toks, 2) },
                None => LineSpec::Fail { message: "missing "@ + "option-flags"@ },
            }
        } else if is_digit(first) {
            match parse_i32_spec(kind) {
                Some(t) => element_line(toks, t),
                None => LineSpec::Fail { message: "bad dump type "@ + kind },
            }
        } else if kind.len() == 1 && (first as u32) < 128 {
            element_line(toks, first as u32 as i32)
        } else {
            LineSpec::Fail { message: "unrecognized dump type "@ + kind }
        }
    }
}

/// The records of the first `n` lines, and the message of the first
/// malformed line among them, if any; reading stops at that line.
pub open spec fn parse_lines(lines: Seq<Seq<Seq<char>>>, n: int) -> (Seq<LineSpec>, Option<Seq<char>>)
    decreases n,
{
    if n <= 0 {
        (Seq::empty(), None)
    } else {
        let prev = parse_lines(lines, n - 1);
        if prev.1 is Some {
            prev
        } else {
            match line_spec(lines[n - 1]) {
                LineSpec::Skip => prev,
                LineSpec::Fail { message } => (prev.0, Some(message)),
                other => (prev.0.push(other), None),
            }
        }
    }
}

/// Records of a whole dump, and the message of its first malformed line.
pub open spec fn parse_text(cs: Seq<char>) -> (Seq<LineSpec>, Option<Seq<char>>) {
    parse_lines(text_lines(cs), text_lines(cs).len() as int)
}

proof fn lemma_parse_lines_prefix(lines: Seq<Seq<Seq<char>>>, x: Seq<Seq<char>>, n: int)
    requires
        0 <= n <= lines.len(),
    ensures
        parse_lines(lines.push(x), n) == parse_lines(lines, n),
    decreases n,
{
    if n > 0 {
        lemma_parse_lines_prefix(lines, x, n - 1);
        assert(lines.push(x)[n - 1] == lines[n - 1]);
    }
}

/// Dump type a first word names: its number when it starts with a digit,
/// else the code of its single ASCII character.
pub open spec fn word_type(w: Seq<char>) -> Option<i32> {
    if w.len() > 0 && is_digit(w[0]) {
        parse_i32_spec(w)
    } else if w.len() == 1 && (w[0] as u32) < 128 {
        Some(w[0] as u32 as i32)
    } else {
        None
    }
}

/// A line that stands for an element: it is not blank, its first word does
/// not start with an ignored kind or `$`, and it does not name a model type.
pub open spec fn element_line_words(toks: Seq<Seq<char>>) -> bool {
    &&& toks.len() > 0
    &&& toks[0].len() > 0
    &&& !ignored_kind(toks[0][0])
    &&& toks[0][0] != '$'
    &&& !(word_type(toks[0]) matches Some(t) && model_type(t))
}

/// Number of element lines among the first `n` lines.
pub open spec fn element_line_count(lines: Seq<Seq<Seq<char>>>, n: int) -> nat
    decreases n,
{
    if n <= 0 {
        0
    } else {
        element_line_count(lines, n - 1) + if element_line_words(lines[n - 1]) { 1nat } else { 0nat }
    }
}

/// Number of element records.
pub open spec fn element_count(rs: Seq<LineSpec>) -> nat
    decreases rs.len(),
{
    if rs.len() == 0 {
        0
    } else {
        element_count(rs.drop_last()) + if rs.last() is Element { 1nat } else { 0nat }
    }
}

/// An element record keeps every word of its line: the type word and the
/// five numbers x1, y1, x2, y2 and flags are the first six words, and the
/// record's remaining words are all the words after them, in order. An
/// options record likewise keeps the words after `$` and its flags.
pub proof fn lemma_record_keeps_words(toks: Seq<Seq<char>>)
    ensures
        line_spec(toks) matches LineSpec::Element { dump_type, x1, y1, x2, y2, flags, rest } ==> {
            &&& toks.len() >= 6
            &&& toks.take(6) + rest == toks
            &&& word_type(toks[0]) == Some(dump_type)
            &&& parse_i32_spec(toks[1]) == Some(x1)
            &&& parse_i32_spec(toks[2]) == Some(y1)
            &&& parse_i32_spec(toks[3]) == Some(x2)
            &&& parse_i32_spec(toks[4]) == Some(y2)
            &&& parse_i32_spec(toks[5]) == Some(flags)
        },
        line_spec(toks) matches LineSpec::Options { flags, rest } ==> {
            &&& toks.len() >= 2
            &&& toks.take(2) + rest == toks
            &&& toks[0][0] == '$'
            &&& parse_i32_spec(toks[1]) == Some(flags)
        },
{
    if toks.len() >= 6 {
        assert(toks.take(6) + toks.skip(6) =~= toks);
    }
    if toks.len() >= 2 {
        assert(toks.take(2) + toks.skip(2) =~= toks);
    }
    if toks.len() > 0 && toks[0].len() > 0 {
        let kind = toks[0];
        let first = kind[0];
        if is_digit(first) {
            assert(word_type(kind) == parse_i32_spec(kind));
        } else if kind.len() == 1 && (first as u32) < 128 {
            assert(word_type(kind) == Some(first as u32 as i32));
        }
    }
}

/// A line that reads without error gives an element exactly when it is an
/// element line.
proof fn lemma_line_is_element(toks: Seq<Seq<char>>)
    requires
        !(line_spec(toks) is Fail),
    ensures
        line_spec(toks) is Element <==> element_line_words(toks),
{
    if toks.len() > 0 && toks[0].len() > 0 {
        let kind = toks[0];
        let first = kind[0];
        if !ignored_kind(first) && first != '$' {
            if is_digit(first) {
                assert(word_type(kind) == parse_i32_spec(kind));
            } else if kind.len() == 1 && (first as u32) < 128 {
                assert(word_type(kind) == Some(first as u32 as i32));
            }
        }
    }
}

proof fn lemma_element_count_lines(lines: Seq<Seq<Seq<char>>>, n: int)
    requires
        0 <= n <= lines.len(),
        parse_lines(lines, n).1 is None,
    ensures
        element_count(parse_lines(lines, n).0) == element_line_count(lines, n),
    decreases n,
{
    if n > 0 {
        let prev = parse_lines(lines, n - 1);
        assert(prev.1 is None);
        lemma_element_count_lines(lines, n - 1);
        lemma_line_is_element(lines[n - 1]);
        match line_spec(lines[n - 1]) {
            LineSpec::Skip => {},
            LineSpec::Fail { message } => {},
            other => {
                assert(prev.0.push(other).drop_last() =~= prev.0);
            },
        }
    }
}

/// A dump that reads without error gives one element record per element
/// line: per line that is not blank, does not start with an ignored kind
/// or `$`, and does not name a model type.
pub proof fn lemma_dump_element_count(cs: Seq<char>)
    requires
        parse_text(cs).1 is None,
    ensures
        element_count(parse_text(cs).0) == element_line_count(text_lines(cs), text_lines(cs).len() as int),
{
    lemma_element_count_lines(text_lines(cs), text_lines(cs).len() as int);
}

/// One record of a dump.
#[derive(Debug)]
pub enum DumpLine {
    /// Simulation options: the flags and the remaining words.
    Options { flags: i32, rest: Vec<String> },
    /// An element: its dump type, end points, flags and remaining words.
    Element { dump_type: i32, x1: i32, y1: i32, x2: i32, y2: i32, flags: i32, rest: Vec<String> },
}

impl View for DumpLine {
    type V = LineSpec;

    open spec fn view(&self) -> LineSpec {
        match self {
            DumpLine::Options { flags, rest } => LineSpec::Options { flags: *flags, rest: rest.deep_view() },
            DumpLine::Element { dump_type, x1, y1, x2, y2, flags, rest } => LineSpec::Element {
                dump_type: *dump_type,
                x1: *x1,
                y1: *y1,
                x2: *x2,
                y2: *y2,
                flags: *flags,
                rest: rest.deep_view(),
            },
        }
    }
}

/// Outcome of reading one line.
enum LineOutcome {
    Skip,
    Record(DumpLine),
    Fail(String),
}

spec fn outcome_spec(o: LineOutcome) -> LineSpec {
    match o {
        LineOutcome::Skip => LineSpec::Skip,
        LineOutcome::Record(d) => d@,
        LineOutcome::Fail(m) => LineSpec::Fail { message: m@ },
    }
}

/// Reads the integer at word `*pos` and moves past that word (if there is
/// one); fails with "missing `what`" when the word is absent or not an
/// `i32`.
pub fn parse_i(tokens: &Vec<String>, pos: &mut usize, what: &str) -> (r: Result<i32, SimError>)
    ensures
        *final(pos) == if *old(pos) < tokens@.len() { *old(pos) + 1 } else { *old(pos) as int },
        int_at(tokens.deep_view(), *old(pos) as int) matches Some(v) ==> r == Ok::<i32, SimError>(v),
        int_at(tokens.deep_view(), *old(pos) as int) is None ==> (r matches Err(SimError::Parse(m)) && m@
            == "missing "@ + what@),
{
    let p = *pos;
    if p < tokens.len() {
        *pos = p + 1;
        let cs = crate::text::chars_of(tokens[p].as_str());
        proof {
            assert(tokens.deep_view()[p as int] == tokens@[p as int]@);
        }
        match parse_i32(&cs) {
            Some(v) => Ok(v),
            None => {
                let mut m = String::from_str("missing ");
                m.append(what);
                Err(SimError::Parse(m))
            },
        }
    } else {
        let mut m = String::from_str("missing ");
        m.append(what);
        Err(SimError::Parse(m))
    }
}

/// Words from index `i` on.
fn words_from(toks: &Vec<String>, i: usize) -> (r: Vec<String>)
    ensures
        r.deep_view() == words_after(toks.deep_view(), i as int),
{
    let mut r: Vec<String> = Vec::new();
    let mut j: usize = i;
    while j < toks.len()
        invariant
            i <= toks@.len() ==> i <= j <= toks@.len(),
            i > toks@.len() ==> j == i && r@.len() == 0,
            r.deep_view() == toks.deep_view().subrange(i as int, j as int) || (i > toks@.len()),
        decreases toks@.len() - j,
    {
        let w = toks[j].clone();
        let ghost before = r.deep_view();
        r.push(w);
        proof {
            assert(r.deep_view() =~= before.push(toks@[j as int]@));
            assert(toks.deep_view().subrange(i as int, j + 1) =~= toks.deep_view().subrange(i as int, j as int).push(
                toks.deep_view()[j as int],
            ));
        }
        j = j + 1;
    }
    proof {
        if i <= toks@.len() {
            assert(toks.deep_view().subrange(i as int, toks@.len() as int) =~= toks.deep_view().skip(i as int));
        } else {
            assert(r.deep_view() =~= Seq::<Seq<char>>::empty());
        }
    }
    r
}


/// Reads an element line of dump type `t`.
fn element_outcome(toks: &Vec<String>, t: i32) -> (r: LineOutcome)
    ensures
        outcome_spec(r) == element_line(toks.deep_view(), t),
{
    broadcast use vstd::string::group_string_axioms;
    if t == 34 || t == 32 || t == 38 {
        return LineOutcome::Skip;
    }
    let mut pos: usize = 1;
    let x1 = match parse_i(toks, &mut pos, "x1") {
        Ok(v) => v,
        Err(SimError::Parse(m)) => {
            return LineOutcome::Fail(m);
        },
        Err(_) => {
            return LineOutcome::Skip;
        },
    };
    let y1 = match parse_i(toks, &mut pos, "y1") {
        Ok(v) => v,
        Err(SimError::Parse(m)) => {
            return LineOutcome::Fail(m);
        },
        Err(_) => {
            return LineOutcome::Skip;
        },
    };
    let x2 = match parse_i(toks, &mut pos, "x2") {
        Ok(v) => v,
        Err(SimError::Parse(m)) => {
            return LineOutcome::Fail(m);
        },
        Err(_) => {
            return LineOutcome::Skip;
        },
    };
    let y2 = match parse_i(toks, &mut pos, "y2") {
        Ok(v) => v,
        Err(SimError::Parse(m)) => {
            return LineOutcome::Fail(m);
        },
        Err(_) => {
            return LineOutcome::Skip;
        },
    };
    let flags = match parse_i(toks, &mut pos, "flags") {
        Ok(v) => v,
        Err(SimError::Parse(m)) => {
            return LineOutcome::Fail(m);
        },
        Err(_) => {
            return LineOutcome::Skip;
        },
    };
    if !(t == 114 || t == 99 || t == 108 || t == 118 || t == 105 || t == 119 || t == 103 || t == 100) {
        let mut m = String::from_str("unsupported element dump type ");
        let num = int_text(t);
        m.append(num.as_str());
        return LineOutcome::Fail(m);
    }
    let rest = words_from(toks, 6);
    LineOutcome::Record(DumpLine::Element { dump_type: t, x1, y1, x2, y2, flags, rest })
}



/// Finished lines only grow as more text is read.
proof fn lemma_scan_prefix(cs: Seq<char>, j: int, i: int)
    requires
        0 <= j <= i <= cs.len(),
    ensures
        scan(cs.take(j)).0.len() <= scan(cs.take(i)).0.len(),
        scan(cs.take(i)).0.take(scan(cs.take(j)).0.len() as int) == scan(cs.take(j)).0,
    decreases i - j,
{
    if j < i {
        lemma_scan_prefix(cs, j, i - 1);
        assert(cs.take(i).drop_last() =~= cs.take(i - 1));
        let a = scan(cs.take(j)).0;
        let b = scan(cs.take(i - 1)).0;
        let c = scan(cs.take(i)).0;
        assert(c.take(a.len() as int) =~= a) by {
            assert forall|k: int| 0 <= k < a.len() implies c[k] == a[k] by {
                assert(b.take(a.len() as int)[k] == a[k]);
            }
        }
    } else {
        assert(scan(cs.take(i)).0.take(scan(cs.take(i)).0.len() as int) =~= scan(cs.take(i)).0);
    }
}

/// Reading the first `n` lines looks at nothing else.
proof fn lemma_parse_lines_take(l1: Seq<Seq<Seq<char>>>, l2: Seq<Seq<Seq<char>>>, n: int)
    requires
        0 <= n <= l1.len(),
        n <= l2.len(),
        l1.take(n) == l2.take(n),
    ensures
        parse_lines(l1, n) == parse_lines(l2, n),
    decreases n,
{
    if n > 0 {
        assert(l1.take(n - 1) =~= l1.take(n).take(n - 1));
        assert(l2.take(n - 1) =~= l2.take(n).take(n - 1));
        lemma_parse_lines_take(l1, l2, n - 1);
        assert(l1[n - 1] == l1.take(n)[n - 1]);
        assert(l2[n - 1] == l2.take(n)[n - 1]);
    }
}

/// After the first malformed line, further lines change nothing.
proof fn lemma_parse_lines_stop(lines: Seq<Seq<Seq<char>>>, k: int, n: int)
    requires
        0 <= k <= n,
        parse_lines(lines, k).1 is Some,
    ensures
        parse_lines(lines, n) == parse_lines(lines, k),
    decreases n - k,
{
    if k < n {
        lemma_parse_lines_stop(lines, k, n - 1);
    }
}

/// Reads one line, given as its words.
fn line_outcome(toks: &Vec<String>) -> (r: LineOutcome)
    ensures
        outcome_spec(r) == line_spec(toks.deep_view()),
{
    if toks.len() == 0 {
        return LineOutcome::Skip;
    }
    let kind = crate::text::chars_of(toks[0].as_str());
    proof {
        assert(toks.deep_view()[0] == toks@[0]@);
    }
    if kind.len() == 0 {
        return LineOutcome::Skip;
    }
    let first = kind[0];
    if first == 'o' || first == 'h' || first == '!' || first == '%' || first == '?' || first == 'B' || first
        == '&' {
        return LineOutcome::Skip;
    }
    if first == '$' {
        let mut pos: usize = 1;
        return match parse_i(toks, &mut pos, "option-flags") {
            Ok(flags) => LineOutcome::Record(DumpLine::Options { flags, rest: words_from(toks, 2) }),
            Err(SimError::Parse(m)) => LineOutcome::Fail(m),
            Err(_) => LineOutcome::Skip,
        };
    }
    if '0' <= first && first <= '9' {
        return match parse_i32(&kind) {
            Some(t) => element_outcome(toks, t),
            None => {
                let mut m = String::from_str("bad dump type ");
                m.append(toks[0].as_str());
                LineOutcome::Fail(m)
            },
        };
    }
    if kind.len() == 1 && (first as u32) < 128 {
        return element_outcome(toks, first as u32 as i32);
    }
    let mut m = String::from_str("unrecognized dump type ");
    m.append(toks[0].as_str());
    LineOutcome::Fail(m)
}

/// Reads a circuit text dump: one record per options or element line, in
/// order, up to the first malformed line, whose error comes with them.
pub fn parse_dump(text: &str) -> (r: (Vec<DumpLine>, Option<SimError>))
    ensures
        r.0@.len() == parse_text(text@).0.len(),
        forall|i: int| 0 <= i < r.0@.len() ==> (#[trigger] r.0@[i])@ == parse_text(text@).0[i],
        parse_text(text@).1 is None ==> r.1 is None,
        parse_text(text@).1 matches Some(msg) ==> (r.1 matches Some(SimError::Parse(m)) && m@ == msg),
{
    let cs = crate::text::chars_of(text);
    let n = cs.len();
    let mut records: Vec<DumpLine> = Vec::new();
    let mut cur: Vec<String> = Vec::new();
    let mut word: Vec<char> = Vec::new();
    let ghost mut lines: Seq<Seq<Seq<char>>> = Seq::empty();
    let mut i: usize = 0;
    while i < n
        invariant
            cs@ == text@,
            n == cs@.len(),
            i <= n,
            scan(cs@.take(i as int)) == (lines, cur.deep_view(), word@),
            parse_lines(lines, lines.len() as int).1 is None,
            records@.len() == parse_lines(lines, lines.len() as int).0.len(),
            forall|k: int| 0 <= k < records@.len() ==> (#[trigger] records@[k])@ == parse_lines(lines, lines.len() as int).0[k],
        decreases n - i,
    {
        let c = cs[i];
        proof {
            assert(cs@.take(i + 1).drop_last() =~= cs@.take(i as int));
            assert(cs@.take(i + 1).last() == c);
        }
        if c == '\n' || is_ws_exec(c) {
            if word.len() > 0 {
                let w = crate::text::string_of(&word);
                let ghost before = cur.deep_view();
                cur.push(w);
                proof {
                    assert(cur.deep_view() =~= before.push(word@));
                }
            }
            word = Vec::new();
            if c == '\n' {
                let ghost toks = cur.deep_view();
                let ghost prev_lines = lines;
                let out = line_outcome(&cur);
                proof {
                    lines = lines.push(toks);
                    lemma_parse_lines_prefix(prev_lines, toks, prev_lines.len() as int);
                }
                match out {
                    LineOutcome::Skip => {},
                    LineOutcome::Record(d) => {
                        let ghost rs = records@;
                        records.push(d);
                        proof {
                            assert forall|k: int| 0 <= k < records@.len() implies (#[trigger] records@[k])@ == parse_lines(
                                lines,
                                lines.len() as int,
                            ).0[k] by {
                                if k < rs.len() {
                                    assert(records@[k] == rs[k]);
                                }
                            }
                        }
                    },
                    LineOutcome::Fail(m) => {
                        proof {
                            let all = text_lines(text@);
                            lemma_scan_prefix(cs@, i + 1, n as int);
                            assert(cs@.take(n as int) =~= cs@);
                            assert(all.take(lines.len() as int) =~= lines);
                            assert(lines.take(lines.len() as int) =~= lines);
                            lemma_parse_lines_take(lines, all, lines.len() as int);
                            lemma_parse_lines_stop(all, lines.len() as int, all.len() as int);
                        }
                        return (records, Some(SimError::Parse(m)));
                    },
                }
                cur = Vec::new();
                proof {
                    assert(cur.deep_view() =~= Seq::<Seq<char>>::empty());
                }
            }
        } else {
            word.push(c);
        }
        i = i + 1;
    }
    proof {
        assert(cs@.take(n as int) =~= cs@);
    }
    if word.len() > 0 {
        let w = crate::text::string_of(&word);
        let ghost before = cur.deep_view();
        cur.push(w);
        proof {
            assert(cur.deep_view() =~= before.push(word@));
        }
    }
    let ghost toks = cur.deep_view();
    let ghost prev_lines = lines;
    proof {
        lines = lines.push(toks);
        lemma_parse_lines_prefix(prev_lines, toks, prev_lines.len() as int);
        assert(lines == text_lines(text@));
    }
    match line_outcome(&cur) {
        LineOutcome::Skip => (records, None),
        LineOutcome::Record(d) => {
            let ghost rs = records@;
            records.push(d);
            proof {
                assert forall|k: int| 0 <= k < records@.len() implies (#[trigger] records@[k])@ == parse_lines(
                    lines,
                    lines.len() as int,
                ).0[k] by {
                    if k < rs.len() {
                        assert(records@[k] == rs[k]);
                    }
                }
            }
            (records, None)
        },
        LineOutcome::Fail(m) => (records, Some(SimError::Parse(m))),
    }
}

} // verus!
