//! Digital chips (flip-flops, adders, latches, multiplexers, counters,
//! shift registers, sequence generators, segment decoders): their pins and
//! the logic that computes output levels from input levels and state.
use vstd::prelude::*;

verus! {

/// Side of the chip body a pin sits on.
#[derive(Clone, Copy, Debug, PartialEq, Eq, Structural)]
pub enum Side {
    N,
    S,
    W,
    E,
}

/// One pin: its place on the body and whether it drives its level.
#[derive(Clone, Copy, Debug)]
pub struct ChipPin {
    /// Position along its side.
    pub pos: i32,
    /// Side of the body.
    pub side: Side,
    /// The pin is an output (a voltage source to ground).
    pub output: bool,
    /// The pin's level is part of the saved state.
    pub state: bool,
}

/// What a chip computes, with the pin indices its logic uses.
#[derive(Clone, Copy, Debug)]
pub enum ChipLogic {
    DFlipFlop,
    JkFlipFlop,
    TFlipFlop,
    HalfAdder,
    FullAdder { bits: usize, carry_in: usize, carry_out: usize },
    Latch { bits: usize, load_pin: usize, reset_pin: Option<usize>, set_pin: Option<usize> },
    Mux { select_bits: usize, output_pin: usize, select_pin: usize, strobe: Option<usize> },
    Demux { select_bits: usize, input_pin: usize, select_pin: usize, output_pin: usize, output_count: usize },
    Counter { bits: usize, invert_reset: bool, modulus: i32 },
    Counter2 {
        bits: usize,
        modulus: i32,
        clk: usize,
        clr: usize,
        enp: usize,
        ent: usize,
        rco: usize,
        load: usize,
    },
    RingCounter { bits: usize, clock_inhibit: Option<usize> },
    Sipo { bits: usize },
    Piso { data_pin_index: usize },
    SeqGen { bit_count: usize },
    SevenSegDecoder { segment_count: usize, has_blank: bool, blank_on_f: bool },
    SevenSeg,
}

/// A chip's pins, their logic levels and the logic's state.
pub struct ChipElm {
    pins: Vec<ChipPin>,
    values: Vec<bool>,
    flags: i32,
    logic: ChipLogic,
    last_clock: bool,
    just_loaded: bool,
    clock_state: bool,
    load_state: bool,
    last_load: bool,
    carry: bool,
    data: Vec<bool>,
    data_index: i32,
    bit_position: usize,
    words: Vec<i32>,
    size_x: i32,
    size_y: i32,
}

/// The abstract state of a chip.
#[verifier::ext_equal]
pub struct ChipView {
    pub pins: Seq<ChipPin>,
    /// Logic level of every pin.
    pub values: Seq<bool>,
    pub flags: i32,
    pub logic: ChipLogic,
    /// Clock level at the previous evaluation.
    pub last_clock: bool,
    /// The next evaluation only clears this (state just restored).
    pub just_loaded: bool,
    /// Clock level seen by shift registers and the sequence generator.
    pub clock_state: bool,
    /// Load level seen by the parallel-in shift register.
    pub load_state: bool,
    /// Load level seen by the latch.
    pub last_load: bool,
    /// Ripple carry of the synchronous counter.
    pub carry: bool,
    /// Latch contents, or parallel-in shift register contents.
    pub data: Seq<bool>,
    /// Position of the parallel-in shift register.
    pub data_index: i32,
    /// Position of the sequence generator.
    pub bit_position: usize,
    /// Bits of the sequence generator, 32 per word.
    pub words: Seq<i32>,
    /// Width of the body in grid units.
    pub size_x: i32,
    /// Height of the body in grid units.
    pub size_y: i32,
}

impl View for ChipElm {
    type V = ChipView;

    closed spec fn view(&self) -> ChipView {
        ChipView {
            pins: self.pins@,
            values: self.values@,
            flags: self.flags,
            logic: self.logic,
            last_clock: self.last_clock,
            just_loaded: self.just_loaded,
            clock_state: self.clock_state,
            load_state: self.load_state,
            last_load: self.last_load,
            carry: self.carry,
            data: self.data@,
            data_index: self.data_index,
            bit_position: self.bit_position,
            words: self.words@,
            size_x: self.size_x,
            size_y: self.size_y,
        }
    }
}

/// Level of pin `n`; a pin that does not exist reads low.
pub open spec fn pin(v: Seq<bool>, n: int) -> bool {
    0 <= n < v.len() && v[n]
}

/// `v` with pin `n` set to `b`, when the pin exists.
pub open spec fn put(v: Seq<bool>, n: int, b: bool) -> Seq<bool> {
    if 0 <= n < v.len() {
        v.update(n, b)
    } else {
        v
    }
}

/// Flag bits of the flip-flops.
pub open spec fn dff_has_set(flags: i32) -> bool {
    flags & 4 != 0
}

/// A flip-flop has a reset input with flag 2, and always when it has a set input.
pub open spec fn dff_has_reset(flags: i32) -> bool {
    flags & 2 != 0 || dff_has_set(flags)
}

/// D flip-flop: asynchronous set (pin 5) and reset (pin 4), active high
/// unless inverted by flag 8, force Q (pin 1) and Q-bar (pin 2); otherwise a
/// rising edge on the clock (pin 3) stores D (pin 0) in Q, and Q-bar follows
/// Q.
pub open spec fn dff_step(s: ChipView) -> ChipView {
    if s.just_loaded {
        ChipView { just_loaded: false, ..s }
    } else {
        let v = s.values;
        let invert = s.flags & 8 != 0;
        let is_set = dff_has_set(s.flags) && 5 < v.len() && v[5] != invert;
        let is_reset = dff_has_reset(s.flags) && 4 < v.len() && v[4] != invert;
        let v2 = if is_set || is_reset {
            put(put(v, 1, is_set), 2, is_reset)
        } else {
            let v1 = if pin(v, 3) && !s.last_clock { put(v, 1, pin(v, 0)) } else { v };
            put(v1, 2, !pin(v1, 1))
        };
        ChipView { values: v2, last_clock: pin(v2, 3), ..s }
    }
}

/// JK flip-flop: on the active clock edge (pin 1; rising with flag 4, else
/// falling) J (pin 0) and K (pin 2) set, reset or toggle Q (pin 3); an
/// enabled reset (pin 5, flag 2, inverted by flag 8) clears Q; Q-bar (pin 4)
/// follows Q.
pub open spec fn jk_step(s: ChipView) -> ChipView {
    if s.just_loaded {
        ChipView { just_loaded: false, ..s }
    } else {
        let v = s.values;
        let positive = s.flags & 4 != 0;
        let transition = if positive { pin(v, 1) && !s.last_clock } else { !pin(v, 1) && s.last_clock };
        let q0 = pin(v, 3);
        let q1 = if pin(v, 0) {
            if pin(v, 2) { !q0 } else { true }
        } else if pin(v, 2) {
            false
        } else {
            q0
        };
        let v1 = if transition { put(v, 3, q1) } else { v };
        let invert = s.flags & 8 != 0;
        let v2 = if s.flags & 2 != 0 && 5 < v1.len() && v1[5] != invert { put(v1, 3, false) } else { v1 };
        let v3 = put(v2, 4, !pin(v2, 3));
        ChipView { values: v3, last_clock: pin(v1, 1), ..s }
    }
}

/// T flip-flop: a rising clock edge (pin 3) with T (pin 0) high toggles Q
/// (pin 1); set (pin 5) and then reset (pin 4) force Q; Q-bar (pin 2)
/// follows Q.
pub open spec fn t_step(s: ChipView) -> ChipView {
    let v = s.values;
    let v1 = if pin(v, 3) && !s.last_clock && pin(v, 0) { put(v, 1, !pin(v, 1)) } else { v };
    let v2 = if dff_has_set(s.flags) && pin(v1, 5) { put(v1, 1, true) } else { v1 };
    let v3 = if dff_has_reset(s.flags) && pin(v2, 4) { put(v2, 1, false) } else { v2 };
    let v4 = put(v3, 2, !pin(v3, 1));
    ChipView { values: v4, last_clock: pin(v4, 3), ..s }
}

/// Half adder: sum (pin 0) and carry (pin 1) of inputs 2 and 3.
pub open spec fn half_adder_step(s: ChipView) -> ChipView {
    let v = s.values;
    let a = pin(v, 2);
    let b = pin(v, 3);
    ChipView { values: put(put(v, 0, a != b), 1, a && b), ..s }
}

/// `2` to the power `k`.
pub open spec fn two_pow(k: nat) -> nat
    decreases k,
{
    if k == 0 {
        1
    } else {
        2 * two_pow((k - 1) as nat)
    }
}

/// Number read from the `k` pins from `start` on, least significant first.
pub open spec fn lsb_value(v: Seq<bool>, start: int, k: nat) -> nat
    decreases k,
{
    if k == 0 {
        0
    } else {
        lsb_value(v, start, (k - 1) as nat) + if pin(v, start + k - 1) {
            two_pow((k - 1) as nat)
        } else {
            0
        }
    }
}

proof fn lemma_two_pow_mono(k: nat, m: nat)
    requires
        k <= m,
    ensures
        1 <= two_pow(k) <= two_pow(m),
    decreases m,
{
    if k < m {
        lemma_two_pow_mono(k, (m - 1) as nat);
    } else if k > 0 {
        lemma_two_pow_mono((k - 1) as nat, (k - 1) as nat);
    }
}

proof fn lemma_two_pow_le6(k: nat)
    requires
        k <= 6,
    ensures
        1 <= two_pow(k) <= 64,
{
    lemma_two_pow_mono(k, 6);
    assert(two_pow(6) == 64) by {
        reveal_with_fuel(two_pow, 7);
    }
}

proof fn lemma_two_pow_31()
    ensures
        two_pow(31) == 0x8000_0000,
{
    reveal_with_fuel(two_pow, 32);
}

/// Bit `i` (from the least significant) of `x` sits at index `k - 1 - i`
/// of `bits_of(x, k)`.
proof fn lemma_bits_of_index(x: nat, k: nat, i: nat)
    requires
        i < k,
    ensures
        bits_of(x, k).len() == k,
        bits_of(x, k)[k - 1 - i] == ((x / two_pow(i)) % 2 == 1),
    decreases k,
{
    lemma_bits_of_len(x, k);
    lemma_bits_of_len(x / 2, (k - 1) as nat);
    if i > 0 {
        lemma_bits_of_index(x / 2, (k - 1) as nat, (i - 1) as nat);
        lemma_two_pow_mono((i - 1) as nat, (i - 1) as nat);
        vstd::arithmetic::div_mod::lemma_div_denominator(x as int, 2, two_pow((i - 1) as nat) as int);
        assert(two_pow(i) == 2 * two_pow((i - 1) as nat));
        assert(bits_of(x, k)[k - 1 - i] == bits_of(x / 2, (k - 1) as nat)[k - 1 - i]);
    } else {
        assert(two_pow(0) == 1);
        assert(x / 1 == x);
    }
}

proof fn lemma_bits_of_len(x: nat, k: nat)
    ensures
        bits_of(x, k).len() == k,
    decreases k,
{
    if k > 0 {
        lemma_bits_of_len(x / 2, (k - 1) as nat);
    }
}

/// `2^k` as an `i64`.
fn pow2_i64(k: usize) -> (r: i64)
    requires
        k <= 31,
    ensures
        r == two_pow(k as nat),
        r >= 1,
{
    let mut r: i64 = 1;
    let mut i: usize = 0;
    while i < k
        invariant
            i <= k <= 31,
            r == two_pow(i as nat),
        decreases k - i,
    {
        proof {
            lemma_two_pow_mono((i + 1) as nat, 31);
            lemma_two_pow_31();
        }
        r = r * 2;
        i = i + 1;
    }
    proof {
        lemma_two_pow_mono(k as nat, k as nat);
    }
    r
}

/// Pin layout of each kind of chip, as its constructor makes it.
pub open spec fn layout_ok(s: ChipView) -> bool {
    let n = s.pins.len();
    &&& s.values.len() == n
    &&& match s.logic {
        ChipLogic::FullAdder { bits, carry_in, carry_out } => bits >= 1 && n == 3 * bits + 2 && carry_in == 3 * bits
            && carry_out == 3 * bits + 1,
        ChipLogic::Latch { bits, load_pin, reset_pin, set_pin } => {
            let extra: int = (if reset_pin is Some { 1int } else { 0int }) + (if set_pin is Some { 1int } else { 0int });
            &&& bits >= 2
            &&& n == 2 * bits + 1 + extra
            &&& load_pin == 2 * bits
            &&& (reset_pin matches Some(p) ==> p == 2 * bits + 1)
            &&& (set_pin matches Some(p) ==> p == n - 1)
            &&& s.data.len() == bits
        },
        ChipLogic::Mux { select_bits, output_pin, select_pin, strobe } => {
            &&& 1 <= select_bits <= 6
            &&& select_pin == two_pow(select_bits as nat)
            &&& output_pin == select_pin + select_bits
            &&& n == output_pin + 1 + (if s.flags & 2 != 0 { 1int } else { 0int }) + (if strobe is Some { 1int } else { 0int })
            &&& (strobe matches Some(p) ==> p == n - 1)
        },
        ChipLogic::Demux { select_bits, input_pin, select_pin, output_pin, output_count } => {
            &&& 1 <= select_bits <= 6
            &&& output_pin == 0
            &&& output_count == two_pow(select_bits as nat)
            &&& select_pin == output_count
            &&& input_pin == select_pin + select_bits
            &&& n == input_pin + 1
        },
        ChipLogic::Counter { bits, .. } => 1 <= bits <= 31 && n == bits + 2 + (if s.flags & 4 != 0 { 1int } else { 0int }),
        ChipLogic::Counter2 { bits, clk, clr, enp, ent, rco, load, .. } => {
            &&& 2 <= bits <= 31
            &&& n == 2 * bits + 6
            &&& clk == 2 * bits
            &&& clr == 2 * bits + 1
            &&& enp == 2 * bits + 2
            &&& rco == 2 * bits + 3
            &&& load == 2 * bits + 4
            &&& ent == 2 * bits + 5
        },
        ChipLogic::RingCounter { bits, clock_inhibit } => {
            &&& bits >= 2
            &&& n == bits + 2 + (if clock_inhibit is Some { 1int } else { 0int })
            &&& (clock_inhibit matches Some(p) ==> p == n - 1)
        },
        ChipLogic::Sipo { bits } => bits >= 1 && n == bits + 2,
        ChipLogic::Piso { data_pin_index } => {
            &&& data_pin_index == (if s.flags & 2 != 0 { 4int } else { 3int })
            &&& 1 <= s.data.len() <= i32::MAX
            &&& n == data_pin_index + s.data.len()
            &&& -1 <= s.data_index < s.data.len()
        },
        ChipLogic::SeqGen { bit_count } => {
            &&& n == (if s.flags & 8 != 0 { 3int } else { 2int })
            &&& bit_count <= 32 * s.words.len()
            &&& s.bit_position <= bit_count
        },
        ChipLogic::SevenSegDecoder { segment_count, has_blank, .. } => (segment_count == 7 || segment_count == 14
            || segment_count == 16) && n == segment_count + 4 + (if has_blank { 1int } else { 0int }),
        _ => true,
    }
}

/// Carry into bit `k` of a ripple-carry adder of the pins `0..bits` and
/// `bits..2*bits` (least significant first) with carry in `cin`.
pub open spec fn fa_carry(v: Seq<bool>, bits: int, cin: int, k: nat) -> bool
    decreases k,
{
    if k == 0 {
        pin(v, cin)
    } else {
        let c = fa_carry(v, bits, cin, (k - 1) as nat);
        let a = pin(v, k - 1);
        let b = pin(v, k - 1 + bits);
        (a && b) || (a && c) || (b && c)
    }
}

/// Sum bit `k` of that adder.
pub open spec fn fa_sum(v: Seq<bool>, bits: int, cin: int, k: nat) -> bool {
    let c = fa_carry(v, bits, cin, k);
    let a = pin(v, k as int);
    let b = pin(v, k + bits);
    (a != b) != c
}

/// Full adder: pins `2*bits..3*bits` get the sum and `carry_out` the carry
/// of adding the two inputs and the carry in.
pub open spec fn full_adder_step(s: ChipView) -> ChipView {
    match s.logic {
        ChipLogic::FullAdder { bits, carry_in, carry_out } => {
            let v = s.values;
            let v2 = Seq::new(
                v.len(),
                |j: int|
                    if 2 * bits <= j < 3 * bits {
                        fa_sum(v, bits as int, carry_in as int, (j - 2 * bits) as nat)
                    } else if j == carry_out {
                        fa_carry(v, bits as int, carry_in as int, bits as nat)
                    } else {
                        v[j]
                    },
            );
            ChipView { values: v2, ..s }
        },
        _ => s,
    }
}

/// Multiplexer: the output gets the data input the select pins choose,
/// or low while the strobe is high; with flag 2 the next pin gets its
/// inverse.
pub open spec fn mux_step(s: ChipView) -> ChipView {
    match s.logic {
        ChipLogic::Mux { select_bits, output_pin, select_pin, strobe } => {
            let v = s.values;
            let sel = lsb_value(v, select_pin as int, select_bits as nat);
            let val = pin(v, sel as int) && !(strobe matches Some(p) && pin(v, p as int));
            let v1 = put(v, output_pin as int, val);
            let v2 = if s.flags & 2 != 0 { put(v1, output_pin + 1, !val) } else { v1 };
            ChipView { values: v2, ..s }
        },
        _ => s,
    }
}

/// Demultiplexer: the output the select pins choose gets the input; the
/// others are low, or high with flag 16.
pub open spec fn demux_step(s: ChipView) -> ChipView {
    match s.logic {
        ChipLogic::Demux { select_bits, input_pin, select_pin, output_pin, output_count } => {
            let v = s.values;
            let sel = lsb_value(v, select_pin as int, select_bits as nat);
            let idle = s.flags & 16 != 0;
            let inp = pin(v, input_pin as int);
            let v2 = Seq::new(
                v.len(),
                |j: int|
                    if j == output_pin + sel {
                        inp
                    } else if output_pin <= j < output_pin + output_count {
                        idle
                    } else {
                        v[j]
                    },
            );
            ChipView { values: v2, ..s }
        },
        _ => s,
    }
}

/// Seven-, fourteen- or sixteen-segment decoder: the four inputs after the
/// segment pins form a digit (first pin most significant) whose pattern
/// lights the segments; all segments are dark when the blank input is
/// enabled and low, or when the digit is 15 and flag 4 blanks it.
pub open spec fn decoder_step(s: ChipView) -> ChipView {
    match s.logic {
        ChipLogic::SevenSegDecoder { segment_count, has_blank, blank_on_f } => {
            let v = s.values;
            let sc = segment_count as int;
            let input = (if pin(v, sc) { 8int } else { 0int }) + (if pin(v, sc + 1) { 4int } else { 0int }) + (
            if pin(v, sc + 2) { 2int } else { 0int }) + (if pin(v, sc + 3) { 1int } else { 0int });
            let en = !(has_blank && !pin(v, sc + 4));
            let dark = !en || (input == 15 && blank_on_f);
            let v2 = Seq::new(
                v.len(),
                |j: int|
                    if 0 <= j < sc {
                        if dark {
                            false
                        } else {
                            crate::segments::segment_row(segment_count, input)[j]
                        }
                    } else {
                        v[j]
                    },
            );
            ChipView { values: v2, ..s }
        },
        _ => s,
    }
}

/// Number on the `k` pins from `start` on, most significant first.
pub open spec fn msb_value(v: Seq<bool>, start: int, k: nat) -> nat
    decreases k,
{
    if k == 0 {
        0
    } else {
        2 * msb_value(v, start, (k - 1) as nat) + if pin(v, start + k - 1) {
            1nat
        } else {
            0nat
        }
    }
}

/// The `k` lowest bits of `x`, most significant first.
pub open spec fn bits_of(x: nat, k: nat) -> Seq<bool>
    decreases k,
{
    if k == 0 {
        Seq::empty()
    } else {
        bits_of(x / 2, (k - 1) as nat).push(x % 2 == 1)
    }
}

/// `v` with the `k` pins from `start` on showing `x` modulo `2^k`, most
/// significant first.
pub open spec fn show(v: Seq<bool>, start: int, k: nat, x: int) -> Seq<bool> {
    let b = bits_of((x % two_pow(k) as int) as nat, k);
    Seq::new(v.len(), |j: int| if start <= j < start + k { b[j - start] } else { v[j] })
}

/// `v` with the `k` pins from `start` on low.
pub open spec fn clear(v: Seq<bool>, start: int, k: int) -> Seq<bool> {
    Seq::new(v.len(), |j: int| if start <= j < start + k { false } else { v[j] })
}

/// Count after an active clock edge of the up/down counter: one up, or one
/// down when flag 4 enables counting down and its pin is high; wrapped into
/// `0..modulus` when the modulus is not 0.
pub open spec fn counter_next(s: ChipView, bits: nat, modulus: i32) -> int {
    let v = s.values;
    let dir: int = if s.flags & 4 != 0 && pin(v, bits + 2int) { -1 } else { 1 };
    let value = msb_value(v, 2, bits) + dir;
    if modulus != 0 { (value + modulus) % (modulus as int) } else { value }
}

/// Active clock edge of the up/down counter: rising, or falling with
/// flag 8.
pub open spec fn counter_edge(s: ChipView) -> bool {
    let neg = s.flags & 8 != 0;
    pin(s.values, 0) != neg && s.last_clock == neg
}

/// The counter's arithmetic stays within `i32`.
pub open spec fn counter_in_range(s: ChipView) -> bool {
    match s.logic {
        ChipLogic::Counter { bits, modulus, .. } => {
            let v = s.values;
            let dir: int = if s.flags & 4 != 0 && pin(v, bits + 2) { -1 } else { 1 };
            let value = msb_value(v, 2, bits as nat) + dir;
            &&& counter_edge(s) ==> value <= i32::MAX
            &&& counter_edge(s) && modulus != 0 ==> i32::MIN < value + modulus <= i32::MAX
        },
        _ => true,
    }
}

/// Up/down counter: count pins 2.. (most significant first) step on the
/// active clock edge (pin 0); a reset (pin 1, active high, or active low
/// with `invert_reset`) clears them.
pub open spec fn counter_step(s: ChipView) -> ChipView {
    match s.logic {
        ChipLogic::Counter { bits, invert_reset, modulus } => {
            let v = s.values;
            let v1 = if counter_edge(s) { show(v, 2, bits as nat, counter_next(s, bits as nat, modulus)) } else { v };
            let v2 = if !pin(v1, 1) == invert_reset { clear(v1, 2, bits as int) } else { v1 };
            ChipView { values: v2, last_clock: pin(v2, 0), ..s }
        },
        _ => s,
    }
}

/// Modulus of the synchronous counter: its own, or `2^bits` when 0.
pub open spec fn real_modulus(bits: nat, modulus: i32) -> int {
    if modulus == 0 { two_pow(bits) as int } else { modulus as int }
}

/// Remainder as Rust's `%` computes it for a non-negative dividend.
pub open spec fn rem_trunc(x: int, m: int) -> int {
    if m > 0 { x % m } else { x % (-m) }
}

/// Synchronous counter with load: on a rising clock (clk) with both enables
/// high it counts up modulo its modulus; with load low it loads the data
/// pins; clear low clears it. The ripple-carry output is high when the
/// count is the last one and enable T is high.
pub open spec fn counter2_step(s: ChipView) -> ChipView {
    match s.logic {
        ChipLogic::Counter2 { bits, modulus, clk, clr, enp, ent, rco, load } => {
            let v = s.values;
            let b = bits as nat;
            let rm = real_modulus(b, modulus);
            let rising = pin(v, clk as int) && !s.last_clock;
            let counting = rising && pin(v, enp as int) && pin(v, ent as int);
            let next = rem_trunc(msb_value(v, 0, b) + 1int, rm);
            let v1 = if counting { show(v, 0, b, next) } else { v };
            let c1 = if counting { next == rm - 1 } else { s.carry };
            let loading = rising && !pin(v1, load as int);
            let v2 = if loading {
                Seq::new(v1.len(), |j: int| if 0 <= j < bits { pin(v1, j + bits) } else { v1[j] })
            } else {
                v1
            };
            let c2 = if loading { msb_value(v2, 0, b) == rm - 1 } else { c1 };
            let cleared = !pin(v2, clr as int);
            let v3 = if cleared { clear(v2, 0, bits as int) } else { v2 };
            let c3 = if cleared { false } else { c2 };
            let v4 = put(v3, rco as int, c3 && pin(v3, ent as int));
            ChipView { values: v4, last_clock: pin(v3, clk as int), carry: c3, ..s }
        },
        _ => s,
    }
}

/// Index of the first high output from output `k` on, or `bits` if none.
pub open spec fn first_high(v: Seq<bool>, bits: int, k: int) -> int
    decreases bits - k,
{
    if k >= bits {
        bits
    } else if pin(v, k + 2) {
        k
    } else {
        first_high(v, bits, k + 1)
    }
}

/// Ring counter: a rising clock (pin 0), unless inhibited, moves the single
/// high output (pins 2..) one place on, wrapping around; the reset (pin 1,
/// active high with flag 4, else active low) or no high output at all makes
/// the first output the high one.
pub open spec fn ring_step(s: ChipView) -> ChipView {
    if s.just_loaded {
        ChipView { just_loaded: false, ..s }
    } else {
        match s.logic {
            ChipLogic::RingCounter { bits, clock_inhibit } => {
                let v = s.values;
                let bi = bits as int;
                let invert_reset = s.flags & 4 == 0;
                let running = !(clock_inhibit matches Some(p) && pin(v, p as int));
                let i0 = first_high(v, bi, 0);
                let fire = pin(v, 0) && !s.last_clock && running;
                let v1 = if fire && i0 < bi { put(v, i0 + 2, false) } else { v };
                let i1 = if fire { (if i0 < bi { i0 + 1 } else { i0 }) % bi } else { i0 };
                let v2 = if fire { put(v1, i1 + 2, true) } else { v1 };
                let v3 = if pin(v2, 1) != invert_reset || i1 == bi { put(clear(v2, 3, bi - 1), 2, true) } else { v2 };
                ChipView { values: v3, last_clock: pin(v3, 0), ..s }
            },
            _ => s,
        }
    }
}

/// Serial-in parallel-out shift register: on a rising clock (pin 1) the
/// outputs (pins 2..) shift up by one and the first takes the data input
/// (pin 0).
pub open spec fn sipo_step(s: ChipView) -> ChipView {
    match s.logic {
        ChipLogic::Sipo { bits } => {
            let v = s.values;
            let clk = pin(v, 1);
            if clk != s.clock_state {
                let v2 = if clk {
                    Seq::new(v.len(), |j: int| if j == 2 { pin(v, 0) } else if 3 <= j < 2 + bits { v[j - 1] } else { v[j] })
                } else {
                    v
                };
                ChipView { values: v2, clock_state: clk, ..s }
            } else {
                s
            }
        },
        _ => s,
    }
}

/// Parallel-in serial-out shift register. A change of the load input
/// (pin 0) records it, and a rising load copies the data pins into the
/// register and restarts it (with flag 2 the output at once shows the
/// first bit). Then a rising clock (pin 1) stores the serial input (pin 3,
/// with flag 2) at the current place, moves on by one, wrapping around,
/// and shows that bit on the output (pin 2).
pub open spec fn piso_step(s: ChipView) -> ChipView {
    match s.logic {
        ChipLogic::Piso { data_pin_index } => {
            let v = s.values;
            let dpi = data_pin_index as int;
            let new = s.flags & 2 != 0;
            let ld = pin(v, 0);
            let loading = ld != s.load_state && ld;
            let d1 = if loading { Seq::new(s.data.len(), |k: int| pin(v, dpi + k)) } else { s.data };
            let i1: int = if loading { if new { 0 } else { -1 } } else { s.data_index as int };
            let v1 = if loading && new { put(v, 2, pin(v, dpi)) } else { v };
            let clk = pin(v1, 1);
            let ser = new && pin(v1, 3);
            if clk != s.clock_state && clk {
                let d2 = if 0 <= i1 < d1.len() { d1.update(i1, ser) } else { d1 };
                let i2 = if i1 + 1 >= d1.len() { 0 } else { i1 + 1 };
                ChipView {
                    values: put(v1, 2, d2[i2]),
                    data: d2,
                    data_index: i2 as i32,
                    clock_state: clk,
                    load_state: ld,
                    ..s
                }
            } else {
                ChipView { values: v1, data: d1, data_index: i1 as i32, clock_state: clk, load_state: ld, ..s }
            }
        },
        _ => s,
    }
}

/// Bit `b` of a data word of the sequence generator.
pub open spec fn word_bit(w: i32, b: usize) -> bool {
    (w as u32) & (1u32 << (b as u32)) != 0
}

/// The sequence generator's next output bit: bits are read from the words,
/// 32 per word and least significant first, starting over after the last
/// one unless flag 4 plays the sequence once (then the output stays low).
pub open spec fn next_bit(s: ChipView) -> ChipView {
    match s.logic {
        ChipLogic::SeqGen { bit_count } => {
            let v = s.values;
            let play_once = s.flags & 4 != 0;
            if s.words.len() == 0 || bit_count == 0 || (s.bit_position >= bit_count && play_once) {
                ChipView { values: put(v, 1, false), ..s }
            } else {
                let bp = if s.bit_position >= bit_count { 0 } else { s.bit_position };
                let idx = bp / 32;
                let val = idx < s.words.len() && word_bit(s.words[idx as int], bp % 32);
                ChipView { values: put(v, 1, val), bit_position: (bp + 1) as usize, ..s }
            }
        },
        _ => s,
    }
}

/// Sequence generator: its reset (pin 2, with flag 8) restarts it and
/// outputs the first bit; otherwise each rising clock (pin 0) outputs the
/// next bit.
pub open spec fn seqgen_step(s: ChipView) -> ChipView {
    let v = s.values;
    let clk = pin(v, 0);
    let rst = s.flags & 8 != 0 && pin(v, 2);
    if rst {
        next_bit(ChipView { bit_position: 0, clock_state: clk, ..s })
    } else if clk != s.clock_state {
        let s1 = ChipView { clock_state: clk, ..s };
        if clk {
            next_bit(s1)
        } else {
            s1
        }
    } else {
        s
    }
}

/// Latch: its set or else its reset input makes all stored bits high or
/// low; otherwise a load (rising, or level with flag 4) stores the inputs.
/// The outputs show the stored bits.
pub open spec fn latch_step(s: ChipView) -> ChipView {
    match s.logic {
        ChipLogic::Latch { bits, load_pin, reset_pin, set_pin } => {
            let v = s.values;
            let edge = s.flags & 4 == 0;
            let load = pin(v, load_pin as int);
            let setting = set_pin matches Some(p) && pin(v, p as int);
            let resetting = reset_pin matches Some(p) && pin(v, p as int);
            let should_load = load && (!edge || !s.last_load);
            let d = if setting {
                Seq::new(bits as nat, |i: int| true)
            } else if resetting {
                Seq::new(bits as nat, |i: int| false)
            } else if should_load {
                Seq::new(bits as nat, |i: int| pin(v, i))
            } else {
                s.data
            };
            let v2 = Seq::new(v.len(), |j: int| if bits <= j < 2 * bits { d[j - bits] } else { v[j] });
            ChipView { values: v2, data: d, last_load: load, ..s }
        },
        _ => s,
    }
}

/// One evaluation of the chip's logic.
pub open spec fn chip_step(s: ChipView) -> ChipView {
    match s.logic {
        ChipLogic::DFlipFlop => dff_step(s),
        ChipLogic::JkFlipFlop => jk_step(s),
        ChipLogic::TFlipFlop => t_step(s),
        ChipLogic::HalfAdder => half_adder_step(s),
        ChipLogic::FullAdder { .. } => full_adder_step(s),
        ChipLogic::Latch { .. } => latch_step(s),
        ChipLogic::Mux { .. } => mux_step(s),
        ChipLogic::Demux { .. } => demux_step(s),
        ChipLogic::Counter { .. } => counter_step(s),
        ChipLogic::Counter2 { .. } => counter2_step(s),
        ChipLogic::RingCounter { .. } => ring_step(s),
        ChipLogic::Sipo { .. } => sipo_step(s),
        ChipLogic::Piso { .. } => piso_step(s),
        ChipLogic::SeqGen { .. } => seqgen_step(s),
        ChipLogic::SevenSegDecoder { .. } => decoder_step(s),
        ChipLogic::SevenSeg => s,
    }
}

/// The chip's arithmetic stays within machine integers in this state.
pub open spec fn step_in_range(s: ChipView) -> bool {
    &&& counter_in_range(s)
    &&& (s.logic matches ChipLogic::Counter2 { bits, clk, modulus, enp, ent, load, .. } ==> (pin(s.values, clk as int)
        && !s.last_clock ==> {
        let counting = pin(s.values, enp as int) && pin(s.values, ent as int);
        &&& modulus != i32::MIN
        &&& (counting || !pin(s.values, load as int)) && modulus == 0 ==> bits <= 30
        &&& counting ==> msb_value(s.values, 0, bits as nat) < i32::MAX
    }))
}

/// `levels` applied to the input pins; output pins keep their levels.
pub open spec fn with_inputs(s: ChipView, levels: Seq<bool>) -> ChipView {
    ChipView {
        values: Seq::new(s.values.len(), |i: int| if s.pins[i].output { s.values[i] } else { levels[i] }),
        ..s
    }
}

/// State after a reset: all levels low, clocks and loads forgotten, stored
/// bits cleared, positions back at the start; a D or T flip-flop's Q-bar
/// (pin 2) is high.
pub open spec fn reset_state(s: ChipView) -> ChipView {
    let n = s.values.len();
    let flip = (s.logic is DFlipFlop || s.logic is TFlipFlop) && n > 2;
    let values = Seq::new(n, |i: int| flip && i == 2);
    let r = ChipView { values, last_clock: false, just_loaded: false, ..s };
    match s.logic {
        ChipLogic::Latch { .. } => ChipView { data: Seq::new(s.data.len(), |i: int| false), ..r },
        ChipLogic::Sipo { .. } => ChipView { clock_state: false, ..r },
        ChipLogic::Piso { .. } => ChipView {
            data: Seq::new(s.data.len(), |i: int| false),
            data_index: 0,
            clock_state: false,
            load_state: false,
            ..r
        },
        ChipLogic::Counter2 { .. } => ChipView { carry: false, ..r },
        ChipLogic::SeqGen { .. } => ChipView { bit_position: 0, ..r },
        _ => r,
    }
}

/// Number of output pins among the first `k`.
pub open spec fn outputs_upto(pins: Seq<ChipPin>, k: int) -> nat
    decreases k,
{
    if k <= 0 {
        0
    } else {
        outputs_upto(pins, k - 1) + if pins[k - 1].output {
            1nat
        } else {
            0nat
        }
    }
}

/// Every evaluation of a chip keeps its pin layout: the pins, the number of
/// levels and stored bits, and the positions within their ranges.
pub proof fn lemma_step_keeps_layout(s: ChipView)
    requires
        layout_ok(s),
        step_in_range(s),
    ensures
        layout_ok(chip_step(s)),
        chip_step(s).pins == s.pins,
        chip_step(s).logic == s.logic,
        chip_step(s).flags == s.flags,
        chip_step(s).values.len() == s.values.len(),
{
    let r = chip_step(s);
    match s.logic {
        ChipLogic::Piso { data_pin_index } => {
            let v = s.values;
            let ld = pin(v, 0);
            let loading = ld != s.load_state && ld;
            assert(r.data.len() == s.data.len());
        },
        ChipLogic::SeqGen { bit_count } => {
            assert(r.bit_position <= bit_count);
        },
        _ => {},
    }
}

/// A reset keeps the pin layout.
pub proof fn lemma_reset_keeps_layout(s: ChipView)
    requires
        layout_ok(s),
    ensures
        layout_ok(reset_state(s)),
        reset_state(s).values.len() == s.values.len(),
{
}

/// An input pin at `pos` on `side`.
pub open spec fn inn(pos: int, side: Side) -> ChipPin {
    ChipPin { pos: pos as i32, side, output: false, state: false }
}

/// An output pin at `pos` on `side`, its level saved when `state`.
pub open spec fn out(pos: int, side: Side, state: bool) -> ChipPin {
    ChipPin { pos: pos as i32, side, output: true, state }
}

/// Number of state pins before pin `i`.
pub open spec fn state_index(pins: Seq<ChipPin>, i: int) -> nat
    decreases i,
{
    if i <= 0 {
        0
    } else {
        state_index(pins, i - 1) + if pins[i - 1].state {
            1nat
        } else {
            0nat
        }
    }
}

/// Initial levels: each state pin takes the next saved level (low when the
/// saved levels run out); the other pins are low.
pub open spec fn state_values(pins: Seq<ChipPin>, state: Seq<bool>) -> Seq<bool> {
    Seq::new(
        pins.len(),
        |i: int| pins[i].state && state_index(pins, i) < state.len() && state[state_index(pins, i) as int],
    )
}

/// A chip as first built: no clock seen, nothing stored.
pub open spec fn fresh(
    pins: Seq<ChipPin>,
    values: Seq<bool>,
    flags: i32,
    size_x: i32,
    size_y: i32,
    logic: ChipLogic,
    just_loaded: bool,
) -> ChipView {
    ChipView {
        pins,
        values,
        flags,
        logic,
        last_clock: false,
        just_loaded,
        clock_state: false,
        load_state: false,
        last_load: false,
        carry: false,
        data: Seq::empty(),
        data_index: 0,
        bit_position: 0,
        words: Seq::empty(),
        size_x,
        size_y,
    }
}

/// Pins of a D or T flip-flop: D or T, Q, Q-bar, clock, then reset and
/// set when the flags enable them.
pub open spec fn dff_pins(flags: i32) -> Seq<ChipPin> {
    let base = seq![
        inn(0, Side::W),
        out(0, Side::E, true),
        out(if dff_has_set(flags) { 1 } else { 2 }, Side::E, false),
        inn(1, Side::W),
    ];
    if dff_has_set(flags) {
        base + seq![inn(2, Side::E), inn(2, Side::W)]
    } else if dff_has_reset(flags) {
        base.push(inn(2, Side::W))
    } else {
        base
    }
}

/// Pins of a JK flip-flop: J, clock, K, Q, Q-bar, then reset with flag 2.
pub open spec fn jk_pins(flags: i32) -> Seq<ChipPin> {
    let base = seq![
        inn(0, Side::W),
        inn(1, Side::W),
        inn(2, Side::W),
        out(0, Side::E, true),
        out(2, Side::E, false),
    ];
    if flags & 2 != 0 {
        base.push(inn(1, Side::E))
    } else {
        base
    }
}

/// Pins of a full adder of `bits` bits: the two inputs (most significant
/// first), the sum outputs, carry in and carry out.
pub open spec fn full_adder_pins(bits: int) -> Seq<ChipPin> {
    Seq::new(
        (3 * bits + 2) as nat,
        |i: int|
            if i < bits {
                inn(bits - 1 - i, Side::W)
            } else if i < 2 * bits {
                inn(bits + (bits - 1 - (i - bits)), Side::W)
            } else if i < 3 * bits {
                out(2 + (bits - 1 - (i - 2 * bits)), Side::E, false)
            } else if i == 3 * bits {
                inn(2 * bits, Side::W)
            } else {
                out(0, Side::E, false)
            },
    )
}

/// Pins of a half adder: sum, carry, then the two inputs.
pub open spec fn half_adder_pins() -> Seq<ChipPin> {
    seq![out(0, Side::E, false), out(1, Side::E, false), inn(0, Side::W), inn(1, Side::W)]
}

/// Pins of a latch of `bits` bits: inputs, outputs (their levels saved with
/// flag 2), load, then reset (flag 8) and set (flag 16).
pub open spec fn latch_pins(bits: int, flags: i32) -> Seq<ChipPin> {
    let has_reset = flags & 8 != 0;
    let has_set = flags & 16 != 0;
    let extra: int = (if has_reset { 1int } else { 0int }) + (if has_set { 1int } else { 0int });
    Seq::new(
        (2 * bits + 1 + extra) as nat,
        |i: int|
            if i < bits {
                inn(bits - 1 - i, Side::W)
            } else if i < 2 * bits {
                out(bits - 1 - (i - bits), Side::E, flags & 2 != 0)
            } else if i == 2 * bits {
                inn(bits, Side::W)
            } else if i == 2 * bits + 1 && has_reset {
                inn(bits + 1, Side::W)
            } else {
                inn(bits + 1 + (if has_reset { 1int } else { 0int }), Side::W)
            },
    )
}

/// Pins of a multiplexer: the data inputs, the select inputs, the output,
/// its inverse with flag 2, and a strobe with flag 4.
pub open spec fn mux_pins(select_bits: int, flags: i32) -> Seq<ChipPin> {
    let oc = two_pow(select_bits as nat) as int;
    let invert = flags & 2 != 0;
    let strobe = flags & 4 != 0;
    let n = oc + select_bits + 1 + (if invert { 1int } else { 0int }) + (if strobe { 1int } else { 0int });
    Seq::new(
        n as nat,
        |i: int|
            if i < oc {
                inn(i, Side::W)
            } else if i < oc + select_bits {
                inn(i - oc + 1, Side::S)
            } else if i == oc + select_bits {
                out(0, Side::E, false)
            } else if i == oc + select_bits + 1 && invert {
                out(1, Side::E, false)
            } else {
                inn(0, Side::S)
            },
    )
}

/// Pins of a demultiplexer: the outputs, the select inputs, the input.
pub open spec fn demux_pins(select_bits: int) -> Seq<ChipPin> {
    let oc = two_pow(select_bits as nat) as int;
    Seq::new(
        (oc + select_bits + 1) as nat,
        |i: int|
            if i < oc {
                out(i, Side::E, false)
            } else if i < oc + select_bits {
                inn(i - oc, Side::S)
            } else {
                inn(0, Side::W)
            },
    )
}

/// Pins of an up/down counter: clock, reset, the count outputs (most
/// significant first, levels saved), then the up/down input with flag 4.
pub open spec fn counter_pins(bits: int, flags: i32) -> Seq<ChipPin> {
    let ud = flags & 4 != 0;
    Seq::new(
        (bits + 2 + (if ud { 1int } else { 0int })) as nat,
        |i: int|
            if i == 0 {
                inn(0, Side::W)
            } else if i == 1 {
                inn(bits - 1, Side::W)
            } else if i < bits + 2 {
                out(i - 2, Side::E, true)
            } else {
                inn(bits - 2, Side::W)
            },
    )
}

/// Pins of a synchronous counter: the count outputs (levels saved), the
/// data inputs, clock, clear, enable P, ripple carry, load, enable T.
pub open spec fn counter2_pins(bits: int) -> Seq<ChipPin> {
    Seq::new(
        (2 * bits + 6) as nat,
        |i: int|
            if i < bits {
                out(1 + i, Side::E, true)
            } else if i < 2 * bits {
                inn(1 + (i - bits), Side::W)
            } else if i == 2 * bits {
                inn(0, Side::W)
            } else if i == 2 * bits + 1 {
                inn(bits + 1, Side::W)
            } else if i == 2 * bits + 2 {
                inn(bits + 2, Side::W)
            } else if i == 2 * bits + 3 {
                out(0, Side::E, false)
            } else if i == 2 * bits + 4 {
                inn(bits + 1, Side::E)
            } else {
                inn(bits + 2, Side::E)
            },
    )
}

/// A ring counter of `bits` bits has a clock-inhibit input when flag 2 is
/// set and it has at least three bits.
pub open spec fn ring_inhibit(bits: int, flags: i32) -> bool {
    flags & 2 != 0 && bits >= 3
}

/// Pins of a ring counter: clock, reset, the outputs (levels saved), then
/// the clock inhibit.
pub open spec fn ring_pins(bits: int, flags: i32) -> Seq<ChipPin> {
    Seq::new(
        (bits + 2 + (if ring_inhibit(bits, flags) { 1int } else { 0int })) as nat,
        |i: int|
            if i == 0 {
                inn(1, Side::W)
            } else if i == 1 {
                inn(bits - 1, Side::S)
            } else if i < bits + 2 {
                out(i - 2, Side::N, true)
            } else {
                inn(1, Side::S)
            },
    )
}

/// Pins of a serial-in parallel-out shift register: data, clock, outputs.
pub open spec fn sipo_pins(bits: int) -> Seq<ChipPin> {
    Seq::new(
        (bits + 2) as nat,
        |i: int|
            if i == 0 {
                inn(1, Side::W)
            } else if i == 1 {
                inn(2, Side::W)
            } else {
                out(i - 1, Side::N, false)
            },
    )
}

/// Pins of a parallel-in serial-out shift register: load, clock, output,
/// serial input (flag 2), then the data inputs.
pub open spec fn piso_pins(bits: int, flags: i32) -> Seq<ChipPin> {
    let dpi: int = if flags & 2 != 0 { 4 } else { 3 };
    Seq::new(
        (dpi + bits) as nat,
        |i: int|
            if i == 0 {
                inn(1, Side::W)
            } else if i == 1 {
                inn(2, Side::W)
            } else if i == 2 {
                out(1, Side::E, false)
            } else if i < dpi {
                inn(0, Side::W)
            } else {
                inn(bits - (i - dpi), Side::N)
            },
    )
}

/// Pins of a sequence generator: clock, output, then reset with flag 8.
pub open spec fn seqgen_pins(flags: i32) -> Seq<ChipPin> {
    if flags & 8 != 0 {
        seq![inn(0, Side::W), out(1, Side::E, false), inn(1, Side::W)]
    } else {
        seq![inn(0, Side::W), out(1, Side::E, false)]
    }
}

/// Segment count of a decoder of segment type `t`.
pub open spec fn decoder_segments(t: i32) -> usize {
    if t == 1 { 14 } else if t == 2 { 16 } else { 7 }
}

/// Pins of a segment decoder: the segment outputs, the four digit inputs
/// (most significant first), then blanking with flag 2.
pub open spec fn decoder_pins(sc: int, flags: i32) -> Seq<ChipPin> {
    Seq::new(
        (sc + 4 + (if flags & 2 != 0 { 1int } else { 0int })) as nat,
        |i: int| if i < sc { out(i, Side::E, false) } else { inn(i - sc, Side::W) },
    )
}

/// Base segment count of a display: fourteen, sixteen, or else seven.
pub open spec fn display_base(n: usize) -> int {
    if n == 14 { 14 } else if n == 16 { 16 } else { 7 }
}

/// Pins of a segment display with `base` segments, plus a decimal point
/// when `extra_segment > 0`, plus a common pin when the diode direction is
/// not 0. The first half of the segments sit on the west side; the rest
/// run along the south side for a plain seven-segment display and along
/// the east side otherwise.
pub open spec fn display_pins(base: int, extra_segment: i32, diode_direction: i32) -> Seq<ChipPin> {
    let sc = base + (if extra_segment > 0 { 1int } else { 0int });
    let pin_count = if diode_direction == 0 { sc } else { sc + 1 };
    let left = (base + 1) / 2;
    let backward = sc == 7 && diode_direction == 0 && extra_segment == 0;
    let s0: int = if backward { 1 } else { 0 };
    let rest_side = if backward { Side::S } else { Side::E };
    Seq::new(
        pin_count as nat,
        |i: int|
            if i < left {
                inn(i, Side::W)
            } else if i < sc {
                inn(s0 + (i - left), rest_side)
            } else if sc != 7 {
                inn(left, Side::W)
            } else {
                inn(s0 + (sc - left), Side::E)
            },
    )
}

/// Body size of that display: width, then height.
pub open spec fn display_size(base: int, extra_segment: i32, diode_direction: i32) -> (i32, i32) {
    let sc = base + (if extra_segment > 0 { 1int } else { 0int });
    let pin_count = if diode_direction == 0 { sc } else { sc + 1 };
    let left = (base + 1) / 2;
    let size_x: int = if base == 7 { if pin_count > 7 { 5 } else { 4 } } else { 5 };
    let size_y: int = if pin_count > left * 2 { left + 1 } else { left };
    (size_x as i32, size_y as i32)
}

impl ChipElm {
    /// Level of pin `n`.
    fn pin(&self, n: usize) -> (r: bool)
        ensures
            r == pin(self@.values, n as int),
    {
        if n < self.values.len() {
            self.values[n]
        } else {
            false
        }
    }

    /// Sets pin `n` to `value`, when the pin exists.
    fn write_output(&mut self, n: usize, value: bool)
        ensures
            final(self)@ == (ChipView { values: put(old(self)@.values, n as int, value), ..old(self)@ }),
    {
        if n < self.values.len() {
            self.values.set(n, value);
        }
    }

    fn exec_dff(&mut self)
        ensures
            final(self)@ == dff_step(old(self)@),
    {
        if self.just_loaded {
            self.just_loaded = false;
            return;
        }
        let flags = self.flags;
        let invert = (flags & 8) != 0;
        let has_set = (flags & 4) != 0;
        let has_reset = (flags & 2) != 0 || has_set;
        let is_set = has_set && 5 < self.values.len() && self.values[5] != invert;
        let is_reset = has_reset && 4 < self.values.len() && self.values[4] != invert;
        if is_set || is_reset {
            self.write_output(1, false);
            self.write_output(2, false);
            if is_set {
                self.write_output(1, true);
            }
            if is_reset {
                self.write_output(2, true);
            }
        } else {
            if self.pin(3) && !self.last_clock {
                let d = self.pin(0);
                self.write_output(1, d);
            }
            let q = self.pin(1);
            self.write_output(2, !q);
        }
        self.last_clock = self.pin(3);
        proof {
            assert(self@ =~= dff_step(old(self)@));
        }
    }
    fn exec_jk(&mut self)
        ensures
            final(self)@ == jk_step(old(self)@),
    {
        if self.just_loaded {
            self.just_loaded = false;
            return;
        }
        let flags = self.flags;
        let positive = (flags & 4) != 0;
        let transition = if positive {
            self.pin(1) && !self.last_clock
        } else {
            !self.pin(1) && self.last_clock
        };
        if transition {
            let mut q = self.pin(3);
            if self.pin(0) {
                if self.pin(2) {
                    q = !q;
                } else {
                    q = true;
                }
            } else if self.pin(2) {
                q = false;
            }
            self.write_output(3, q);
        }
        self.last_clock = self.pin(1);
        if (flags & 2) != 0 {
            let invert = (flags & 8) != 0;
            if 5 < self.values.len() && self.values[5] != invert {
                self.write_output(3, false);
            }
        }
        let q = self.pin(3);
        self.write_output(4, !q);
        proof {
            assert(self@ =~= jk_step(old(self)@));
        }
    }

    fn exec_t(&mut self)
        ensures
            final(self)@ == t_step(old(self)@),
    {
        let flags = self.flags;
        if self.pin(3) && !self.last_clock && self.pin(0) {
            let q = self.pin(1);
            self.write_output(1, !q);
        }
        let has_set = (flags & 4) != 0;
        let has_reset = (flags & 2) != 0 || has_set;
        if has_set && self.pin(5) {
            self.write_output(1, true);
        }
        if has_reset && self.pin(4) {
            self.write_output(1, false);
        }
        let q = self.pin(1);
        self.write_output(2, !q);
        self.last_clock = self.pin(3);
        proof {
            assert(self@ =~= t_step(old(self)@));
        }
    }

    fn exec_half_adder(&mut self)
        ensures
            final(self)@ == half_adder_step(old(self)@),
    {
        let s = self.pin(2) != self.pin(3);
        let c = self.pin(2) && self.pin(3);
        self.write_output(0, s);
        self.write_output(1, c);
        proof {
            assert(self@ =~= half_adder_step(old(self)@));
        }
    }
    /// Number on the `select_bits` pins from `select_pin` on, least
    /// significant first.
    fn read_select(&self, select_pin: usize, select_bits: usize) -> (r: usize)
        requires
            select_bits <= 6,
            select_pin + select_bits <= usize::MAX,
        ensures
            r == lsb_value(self@.values, select_pin as int, select_bits as nat),
            r < two_pow(select_bits as nat),
    {
        let mut sel: usize = 0;
        let mut bit: usize = 1;
        let mut i: usize = 0;
        while i < select_bits
            invariant
                i <= select_bits <= 6,
                select_pin + select_bits <= usize::MAX,
                bit == two_pow(i as nat),
                sel == lsb_value(self@.values, select_pin as int, i as nat),
                sel < bit,
                bit <= 64,
            decreases select_bits - i,
        {
            proof {
                assert(two_pow((i + 1) as nat) == 2 * two_pow(i as nat));
                lemma_two_pow_le6((i + 1) as nat);
            }
            if self.pin(select_pin + i) {
                sel = sel + bit;
            }
            bit = bit * 2;
            i = i + 1;
        }
        sel
    }

    fn exec_full_adder(&mut self)
        requires
            layout_ok(old(self)@),
            old(self)@.logic is FullAdder,
        ensures
            final(self)@ == full_adder_step(old(self)@),
    {
        let (bits, carry_in, carry_out) = match self.logic {
            ChipLogic::FullAdder { bits, carry_in, carry_out } => (bits, carry_in, carry_out),
            _ => (0, 0, 0),
        };
        let ghost v0 = self@.values;
        let mut c: u8 = if self.pin(carry_in) { 1 } else { 0 };
        let mut i: usize = 0;
        while i < bits
            invariant
                layout_ok(old(self)@),
                old(self)@.logic == (ChipLogic::FullAdder { bits, carry_in, carry_out }),
                v0 == old(self)@.values,
                self@ == (ChipView { values: self@.values, ..old(self)@ }),
                i <= bits,
                self@.values.len() == v0.len(),
                (c == 1) == fa_carry(v0, bits as int, carry_in as int, i as nat),
                c <= 1,
                forall|j: int|
                    0 <= j < v0.len() ==> #[trigger] self@.values[j] == if 2 * bits <= j < 2 * bits + i {
                        fa_sum(v0, bits as int, carry_in as int, (j - 2 * bits) as nat)
                    } else {
                        v0[j]
                    },
            decreases bits - i,
        {
            let a: u8 = if self.pin(i) { 1 } else { 0 };
            let b: u8 = if self.pin(i + bits) { 1 } else { 0 };
            proof {
                assert(pin(self@.values, i as int) == pin(v0, i as int));
                assert(pin(self@.values, i + bits) == pin(v0, i + bits));
            }
            let v = a + b + c;
            c = if v > 1 { 1 } else { 0 };
            self.write_output(i + bits * 2, v % 2 == 1);
            i = i + 1;
        }
        self.write_output(carry_out, c == 1);
        proof {
            assert(self@ =~= full_adder_step(old(self)@));
        }
    }

    fn exec_mux(&mut self)
        requires
            layout_ok(old(self)@),
            old(self)@.logic is Mux,
        ensures
            final(self)@ == mux_step(old(self)@),
    {
        let (select_bits, output_pin, select_pin, strobe) = match self.logic {
            ChipLogic::Mux { select_bits, output_pin, select_pin, strobe } => (select_bits, output_pin, select_pin, strobe),
            _ => (0, 0, 0, None),
        };
        let n = self.values.len();
        let sel = self.read_select(select_pin, select_bits);
        let mut val = self.pin(sel);
        let strobed = match strobe {
            Some(p) => self.pin(p),
            None => false,
        };
        if strobed {
            val = false;
        }
        self.write_output(output_pin, val);
        if (self.flags & 2) != 0 {
            self.write_output(output_pin + 1, !val);
        }
        proof {
            assert(self@ =~= mux_step(old(self)@));
        }
    }

    fn exec_demux(&mut self)
        requires
            layout_ok(old(self)@),
            old(self)@.logic is Demux,
        ensures
            final(self)@ == demux_step(old(self)@),
    {
        let (select_bits, input_pin, select_pin, output_pin, output_count) = match self.logic {
            ChipLogic::Demux { select_bits, input_pin, select_pin, output_pin, output_count } => (
                select_bits,
                input_pin,
                select_pin,
                output_pin,
                output_count,
            ),
            _ => (0, 0, 0, 0, 0),
        };
        let ghost v0 = self@.values;
        let idle = (self.flags & 16) != 0;
        let sel = self.read_select(select_pin, select_bits);
        let inp = self.pin(input_pin);
        let mut i: usize = 0;
        while i < output_count
            invariant
                layout_ok(old(self)@),
                old(self)@.logic == (ChipLogic::Demux { select_bits, input_pin, select_pin, output_pin, output_count }),
                v0 == old(self)@.values,
                self@ == (ChipView { values: self@.values, ..old(self)@ }),
                i <= output_count,
                self@.values.len() == v0.len(),
                forall|j: int|
                    0 <= j < v0.len() ==> #[trigger] self@.values[j] == if output_pin <= j < output_pin + i {
                        idle
                    } else {
                        v0[j]
                    },
            decreases output_count - i,
        {
            self.write_output(output_pin + i, idle);
            i = i + 1;
        }
        self.write_output(output_pin + sel, inp);
        proof {
            assert(self@ =~= demux_step(old(self)@));
        }
    }

    fn exec_decoder(&mut self)
        requires
            layout_ok(old(self)@),
            old(self)@.logic is SevenSegDecoder,
        ensures
            final(self)@ == decoder_step(old(self)@),
    {
        let (segment_count, has_blank, blank_on_f) = match self.logic {
            ChipLogic::SevenSegDecoder { segment_count, has_blank, blank_on_f } => (segment_count, has_blank, blank_on_f),
            _ => (7, false, false),
        };
        let ghost v0 = self@.values;
        let mut input: usize = 0;
        if self.pin(segment_count) {
            input += 8;
        }
        if self.pin(segment_count + 1) {
            input += 4;
        }
        if self.pin(segment_count + 2) {
            input += 2;
        }
        if self.pin(segment_count + 3) {
            input += 1;
        }
        let en = !(has_blank && !self.pin(segment_count + 4));
        let dark = !en || (input == 15 && blank_on_f);
        let mut i: usize = 0;
        while i < segment_count
            invariant
                layout_ok(old(self)@),
                old(self)@.logic == (ChipLogic::SevenSegDecoder { segment_count, has_blank, blank_on_f }),
                v0 == old(self)@.values,
                self@ == (ChipView { values: self@.values, ..old(self)@ }),
                i <= segment_count,
                input <= 15,
                self@.values.len() == v0.len(),
                forall|j: int|
                    0 <= j < v0.len() ==> #[trigger] self@.values[j] == if 0 <= j < i {
                        if dark {
                            false
                        } else {
                            crate::segments::segment_row(segment_count, input as int)[j]
                        }
                    } else {
                        v0[j]
                    },
            decreases segment_count - i,
        {
            if dark {
                self.write_output(i, false);
            } else {
                let b = crate::segments::decoder_segment(segment_count, input, i);
                self.write_output(i, b);
            }
            i = i + 1;
        }
        proof {
            assert(self@ =~= decoder_step(old(self)@));
        }
    }
    /// Number on the `k` pins from `start` on, most significant first.
    fn read_msb(&self, start: usize, k: usize) -> (r: u64)
        requires
            k <= 31,
            start + k <= usize::MAX,
        ensures
            r == msb_value(self@.values, start as int, k as nat),
            r < two_pow(k as nat),
    {
        let mut value: u64 = 0;
        let mut j: usize = 0;
        proof {
            lemma_two_pow_mono(0, 31);
        }
        while j < k
            invariant
                j <= k <= 31,
                start + k <= usize::MAX,
                value == msb_value(self@.values, start as int, j as nat),
                value < two_pow(j as nat),
                two_pow(j as nat) <= two_pow(31),
            decreases k - j,
        {
            proof {
                lemma_two_pow_mono((j + 1) as nat, 31);
                lemma_two_pow_31();
            }
            let b: u64 = if self.pin(start + j) { 1 } else { 0 };
            value = 2 * value + b;
            j = j + 1;
        }
        value
    }

    /// Shows `x` modulo `2^k` on the `k` pins from `start` on, most
    /// significant first.
    fn show_value(&mut self, start: usize, k: usize, x: i64)
        requires
            1 <= k <= 31,
            start + k <= old(self)@.values.len(),
        ensures
            final(self)@ == (ChipView { values: show(old(self)@.values, start as int, k as nat, x as int), ..old(self)@ }),
    {
        let m = pow2_i64(k);
        let u = match x.checked_rem_euclid(m) {
            Some(r) => r,
            None => 0,
        };
        let n = self.values.len();
        let ghost v0 = self@.values;
        let ghost b = bits_of(u as nat, k as nat);
        proof {
            lemma_bits_of_len(u as nat, k as nat);
            assert(two_pow(0) == 1);
            assert(u as nat / 1 == u as nat);
        }
        let mut w: i64 = u;
        let mut i: usize = 0;
        while i < k
            invariant
                1 <= k <= 31,
                n == v0.len(),
                start + k <= v0.len(),
                0 <= u < two_pow(k as nat),
                u == x as int % two_pow(k as nat) as int,
                b == bits_of(u as nat, k as nat),
                b.len() == k,
                self@ == (ChipView { values: self@.values, ..old(self)@ }),
                v0 == old(self)@.values,
                self@.values.len() == v0.len(),
                i <= k,
                w == u as nat / two_pow(i as nat),
                w >= 0,
                forall|j: int|
                    0 <= j < v0.len() ==> #[trigger] self@.values[j] == if start + k - i <= j < start + k {
                        b[j - start]
                    } else {
                        v0[j]
                    },
            decreases k - i,
        {
            proof {
                lemma_bits_of_index(u as nat, k as nat, i as nat);
                lemma_two_pow_mono(i as nat, (i + 1) as nat);
                vstd::arithmetic::div_mod::lemma_div_denominator(u as int, two_pow(i as nat) as int, 2);
                assert(two_pow((i + 1) as nat) == two_pow(i as nat) * 2);
            }
            self.write_output(start + k - 1 - i, w % 2 == 1);
            w = w / 2;
            i = i + 1;
        }
        proof {
            assert(self@.values =~= show(v0, start as int, k as nat, x as int));
            assert(self@ =~= (ChipView { values: show(old(self)@.values, start as int, k as nat, x as int), ..old(self)@ }));
        }
    }

    /// Sets the `k` pins from `start` on low.
    fn clear_pins(&mut self, start: usize, k: usize)
        requires
            start + k <= old(self)@.values.len(),
        ensures
            final(self)@ == (ChipView { values: clear(old(self)@.values, start as int, k as int), ..old(self)@ }),
    {
        let n = self.values.len();
        let ghost v0 = self@.values;
        let mut i: usize = 0;
        while i < k
            invariant
                n == v0.len(),
                start + k <= v0.len(),
                self@ == (ChipView { values: self@.values, ..old(self)@ }),
                v0 == old(self)@.values,
                self@.values.len() == v0.len(),
                i <= k,
                forall|j: int|
                    0 <= j < v0.len() ==> #[trigger] self@.values[j] == if start <= j < start + i {
                        false
                    } else {
                        v0[j]
                    },
            decreases k - i,
        {
            self.write_output(start + i, false);
            i = i + 1;
        }
        proof {
            assert(self@ =~= (ChipView { values: clear(old(self)@.values, start as int, k as int), ..old(self)@ }));
        }
    }

    #[verifier::spinoff_prover]
    #[verifier::rlimit(50)]
    fn exec_counter(&mut self)
        requires
            layout_ok(old(self)@),
            old(self)@.logic is Counter,
            counter_in_range(old(self)@),
        ensures
            final(self)@ == counter_step(old(self)@),
    {
        let (bits, invert_reset, modulus) = match self.logic {
            ChipLogic::Counter { bits, invert_reset, modulus } => (bits, invert_reset, modulus),
            _ => (1, false, 0),
        };
        let flags = self.flags;
        let neg = (flags & 8) != 0;
        if self.pin(0) != neg && self.last_clock == neg {
            let dir: i32 = if (flags & 4) != 0 && self.pin(bits + 2) { -1 } else { 1 };
            let read = self.read_msb(2, bits);
            proof {
                lemma_two_pow_mono(bits as nat, 31);
                lemma_two_pow_31();
            }
            let mut value: i32 = read as i32 + dir;
            if modulus != 0 {
                match (value + modulus).checked_rem_euclid(modulus) {
                    Some(r) => {
                        value = r;
                    },
                    None => {},
                }
            }
            self.show_value(2, bits, value as i64);
        }
        if !self.pin(1) == invert_reset {
            self.clear_pins(2, bits);
        }
        self.last_clock = self.pin(0);
        proof {
            assert(self@ =~= counter_step(old(self)@));
        }
    }
    fn exec_counter2(&mut self)
        requires
            layout_ok(old(self)@),
            old(self)@.logic is Counter2,
            step_in_range(old(self)@),
        ensures
            final(self)@ == counter2_step(old(self)@),
    {
        let (bits, modulus, clk, clr, enp, ent, rco, load) = match self.logic {
            ChipLogic::Counter2 { bits, modulus, clk, clr, enp, ent, rco, load } => (
                bits,
                modulus,
                clk,
                clr,
                enp,
                ent,
                rco,
                load,
            ),
            _ => (2, 0, 0, 0, 0, 0, 0, 0),
        };
        let ghost s0 = self@;
        let ghost v0 = self@.values;
        let ghost b = bits as nat;
        let ghost rm = real_modulus(b, modulus);
        let ghost rising = pin(v0, clk as int) && !s0.last_clock;
        let ghost counting = rising && pin(v0, enp as int) && pin(v0, ent as int);
        let ghost next = rem_trunc(msb_value(v0, 0, b) + 1int, rm);
        let mut carry = self.carry;
        let n = self.values.len();
        proof {
            lemma_two_pow_mono(bits as nat, 31);
            lemma_two_pow_31();
        }
        if self.pin(clk) && !self.last_clock {
            if self.pin(enp) && self.pin(ent) {
                proof {
                    if modulus == 0 {
                        assert(bits <= 30);
                        lemma_two_pow_mono(bits as nat, 30);
                        assert(two_pow(31) == 2 * two_pow(30));
                    }
                }
                let realmod: i32 = if modulus == 0 { pow2_i64(bits) as i32 } else { modulus };
                assert(realmod == rm);
                let read = self.read_msb(0, bits);
                let mut value: i32 = read as i32 + 1;
                match value.checked_rem(realmod) {
                    Some(r) => {
                        value = r;
                    },
                    None => {},
                }
                assert(value == next);
                self.show_value(0, bits, value as i64);
                carry = value == realmod - 1;
            }
            let ghost v1 = self@.values;
            assert(v1 == (if counting { show(v0, 0, b, next) } else { v0 }));
            assert(carry == (if counting { next == rm - 1 } else { s0.carry }));
            if !self.pin(load) {
                proof {
                    assert(pin(v1, load as int) == pin(v0, load as int));
                }
                proof {
                    if modulus == 0 {
                        assert(bits <= 30);
                        lemma_two_pow_mono(bits as nat, 30);
                        assert(two_pow(31) == 2 * two_pow(30));
                    }
                }
                let realmod: i32 = if modulus == 0 { pow2_i64(bits) as i32 } else { modulus };
                assert(realmod == rm);
                let mut i: usize = 0;
                while i < bits
                    invariant
                        layout_ok(old(self)@),
                        n == v1.len(),
                        old(self)@.logic == (ChipLogic::Counter2 { bits, modulus, clk, clr, enp, ent, rco, load }),
                        self@ == (ChipView { values: self@.values, ..old(self)@ }),
                        self@.values.len() == v1.len(),
                        i <= bits,
                        forall|j: int|
                            0 <= j < v1.len() ==> #[trigger] self@.values[j] == if 0 <= j < i {
                                pin(v1, j + bits)
                            } else {
                                v1[j]
                            },
                    decreases bits - i,
                {
                    let bb = self.pin(i + bits);
                    self.write_output(i, bb);
                    i = i + 1;
                }
                assert(self@.values =~= Seq::new(v1.len(), |j: int| if 0 <= j < bits { pin(v1, j + bits) } else { v1[j] }));
                let read = self.read_msb(0, bits);
                carry = read as i64 == realmod as i64 - 1;
            }
        }
        let ghost v2 = self@.values;
        let ghost c2 = carry;
        if !self.pin(clr) {
            self.clear_pins(0, bits);
            carry = false;
        }
        self.last_clock = self.pin(clk);
        let rco_val = carry && self.pin(ent);
        self.write_output(rco, rco_val);
        self.carry = carry;
        proof {
            assert(self@ =~= counter2_step(old(self)@));
        }
    }

    fn exec_ring(&mut self)
        requires
            layout_ok(old(self)@),
            old(self)@.logic is RingCounter,
        ensures
            final(self)@ == ring_step(old(self)@),
    {
        if self.just_loaded {
            self.just_loaded = false;
            return;
        }
        let invert_reset = (self.flags & 4) == 0;
        let (bits, clock_inhibit) = match self.logic {
            ChipLogic::RingCounter { bits, clock_inhibit } => (bits, clock_inhibit),
            _ => (2, None),
        };
        let ghost v0 = self@.values;
        let n = self.values.len();
        let running = match clock_inhibit {
            Some(p) => !self.pin(p),
            None => true,
        };
        let mut i: usize = 0;
        while i != bits && !self.pin(i + 2)
            invariant
                i <= bits,
                bits + 2 <= n,
                n == v0.len(),
                self@ == old(self)@,
                v0 == self@.values,
                first_high(v0, bits as int, 0) == first_high(v0, bits as int, i as int),
            decreases bits - i,
        {
            i += 1;
        }
        proof {
            assert(i == first_high(v0, bits as int, i as int));
        }
        if self.pin(0) && !self.last_clock && running {
            if i < bits {
                self.write_output(i + 2, false);
                i += 1;
            }
            i %= bits;
            self.write_output(i + 2, true);
        }
        if self.pin(1) != invert_reset || i == bits {
            let ghost v2 = self@.values;
            let mut k: usize = 1;
            while k < bits
                invariant
                    layout_ok(old(self)@),
                    n == v2.len(),
                    bits + 2 <= n,
                    old(self)@.logic == (ChipLogic::RingCounter { bits, clock_inhibit }),
                    self@ == (ChipView { values: self@.values, ..old(self)@ }),
                    self@.values.len() == v2.len(),
                    1 <= k <= bits,
                    forall|j: int|
                        0 <= j < v2.len() ==> #[trigger] self@.values[j] == if 3 <= j < k + 2 {
                            false
                        } else {
                            v2[j]
                        },
                decreases bits - k,
            {
                self.write_output(k + 2, false);
                k += 1;
            }
            self.write_output(2, true);
        }
        self.last_clock = self.pin(0);
        proof {
            assert(self@ =~= ring_step(old(self)@));
        }
    }

    fn exec_sipo(&mut self)
        requires
            layout_ok(old(self)@),
            old(self)@.logic is Sipo,
        ensures
            final(self)@ == sipo_step(old(self)@),
    {
        let bits = match self.logic {
            ChipLogic::Sipo { bits } => bits,
            _ => 1,
        };
        let clk = self.pin(1);
        if clk != self.clock_state {
            self.clock_state = clk;
            if clk && bits > 0 {
                let ghost v0 = self@.values;
                let n = self.values.len();
                let mut i: usize = bits - 1;
                while i > 0
                    invariant
                        layout_ok(old(self)@),
                        n == v0.len(),
                        old(self)@.logic == (ChipLogic::Sipo { bits }),
                        self@ == (ChipView { values: self@.values, clock_state: clk, ..old(self)@ }),
                        v0 == old(self)@.values,
                        self@.values.len() == v0.len(),
                        i < bits,
                        forall|j: int|
                            0 <= j < v0.len() ==> #[trigger] self@.values[j] == if 3 + i <= j < 2 + bits {
                                v0[j - 1]
                            } else {
                                v0[j]
                            },
                    decreases i,
                {
                    i -= 1;
                    let v = self.pin(2 + i);
                    self.write_output(2 + i + 1, v);
                }
                let d = self.pin(0);
                self.write_output(2, d);
            }
        }
        proof {
            assert(self@ =~= sipo_step(old(self)@));
        }
    }
    fn exec_piso(&mut self)
        requires
            layout_ok(old(self)@),
            old(self)@.logic is Piso,
        ensures
            final(self)@ == piso_step(old(self)@),
    {
        let new_bhvr = (self.flags & 2) != 0;
        let data_pin_index = match self.logic {
            ChipLogic::Piso { data_pin_index } => data_pin_index,
            _ => 3,
        };
        let ghost v0 = self@.values;
        let n = self.values.len();
        let nd = self.data.len();
        let ld = self.pin(0);
        if ld != self.load_state {
            let first = self.pin(data_pin_index);
            self.load_state = ld;
            if ld && nd > 0 {
                self.data_index = if new_bhvr { 0 } else { -1 };
                let mut i: usize = 0;
                while i < nd
                    invariant
                        layout_ok(old(self)@),
                        old(self)@.logic == (ChipLogic::Piso { data_pin_index }),
                        n == v0.len(),
                        nd == old(self)@.data.len(),
                        v0 == old(self)@.values,
                        self@ == (ChipView {
                            data: self@.data,
                            data_index: (if new_bhvr { 0i32 } else { -1i32 }),
                            load_state: ld,
                            ..old(self)@
                        }),
                        self@.data.len() == nd,
                        i <= nd,
                        forall|k: int| 0 <= k < nd ==> #[trigger] self@.data[k] == if k < i { pin(v0, data_pin_index + k) } else { old(self)@.data[k] },
                    decreases nd - i,
                {
                    let b = self.pin(data_pin_index + i);
                    self.data.set(i, b);
                    i = i + 1;
                }
            }
            if ld && new_bhvr {
                self.write_output(2, first);
            }
        }
        let clk = self.pin(1);
        let ser = new_bhvr && self.pin(3);
        if clk != self.clock_state {
            self.clock_state = clk;
            if clk && nd > 0 {
                if self.data_index >= 0 {
                    let idx = self.data_index as usize;
                    if idx < nd {
                        self.data.set(idx, ser);
                    }
                }
                self.data_index += 1;
                if self.data_index >= nd as i32 {
                    self.data_index = 0;
                }
                let idx = self.data_index as usize;
                let q = self.data[idx];
                self.write_output(2, q);
            }
        }
        proof {
            assert(self@ =~= piso_step(old(self)@));
        }
    }

    fn next_seq_bit(&mut self)
        requires
            layout_ok(old(self)@),
            old(self)@.logic is SeqGen,
        ensures
            final(self)@ == next_bit(old(self)@),
    {
        let play_once = (self.flags & 4) != 0;
        let bit_count = match self.logic {
            ChipLogic::SeqGen { bit_count } => bit_count,
            _ => 0,
        };
        let nw = self.words.len();
        if nw == 0 || bit_count == 0 {
            self.write_output(1, false);
        } else if self.bit_position >= bit_count && play_once {
            self.write_output(1, false);
        } else {
            if self.bit_position >= bit_count {
                self.bit_position = 0;
            }
            let idx = self.bit_position / 32;
            let bit = self.bit_position % 32;
            let v = idx < nw && ((self.words[idx] as u32) & (1u32 << (bit as u32))) != 0;
            self.bit_position += 1;
            self.write_output(1, v);
        }
        proof {
            assert(self@ =~= next_bit(old(self)@));
        }
    }

    fn exec_seqgen(&mut self)
        requires
            layout_ok(old(self)@),
            old(self)@.logic is SeqGen,
        ensures
            final(self)@ == seqgen_step(old(self)@),
    {
        let clk = self.pin(0);
        let rst = (self.flags & 8) != 0 && self.pin(2);
        if rst {
            self.bit_position = 0;
            self.clock_state = clk;
            self.next_seq_bit();
            return;
        }
        if clk != self.clock_state {
            self.clock_state = clk;
            if clk {
                self.next_seq_bit();
            }
        }
    }

    fn exec_latch(&mut self)
        requires
            layout_ok(old(self)@),
            old(self)@.logic is Latch,
        ensures
            final(self)@ == latch_step(old(self)@),
    {
        let edge = (self.flags & 4) == 0;
        let (bits, load_pin, reset_pin, set_pin) = match self.logic {
            ChipLogic::Latch { bits, load_pin, reset_pin, set_pin } => (bits, load_pin, reset_pin, set_pin),
            _ => (2, 0, None, None),
        };
        let ghost v0 = self@.values;
        let load = self.pin(load_pin);
        let setting = match set_pin {
            Some(sp) => self.pin(sp),
            None => false,
        };
        let resetting = match reset_pin {
            Some(rp) => self.pin(rp),
            None => false,
        };
        let should_load = load && (!edge || !self.last_load);
        if setting || resetting || should_load {
            let mut vals: Vec<bool> = Vec::new();
            let mut i: usize = 0;
            while i < bits
                invariant
                    i <= bits,
                    self@ == old(self)@,
                    v0 == old(self)@.values,
                    vals@.len() == i,
                    forall|k: int| 0 <= k < i ==> #[trigger] vals@[k] == if setting {
                        true
                    } else if resetting {
                        false
                    } else {
                        pin(v0, k)
                    },
                decreases bits - i,
            {
                let b = if setting {
                    true
                } else if resetting {
                    false
                } else {
                    self.pin(i)
                };
                vals.push(b);
                i = i + 1;
            }
            self.data = vals;
        }
        self.last_load = load;
        self.apply_latch_outputs(bits);
        proof {
            assert(self@ =~= latch_step(old(self)@));
        }
    }

    /// Shows the stored latch bits on the outputs `bits..2*bits`.
    fn apply_latch_outputs(&mut self, bits: usize)
        requires
            old(self)@.data.len() == bits,
            2 * bits <= old(self)@.values.len(),
        ensures
            final(self)@ == (ChipView {
                values: Seq::new(
                    old(self)@.values.len(),
                    |j: int| if bits <= j < 2 * bits { old(self)@.data[j - bits] } else { old(self)@.values[j] },
                ),
                ..old(self)@
            }),
    {
        let ghost v0 = self@.values;
        let n = self.values.len();
        let mut i: usize = 0;
        while i < bits
            invariant
                n == v0.len(),
                2 * bits <= n,
                self@.data.len() == bits,
                self@ == (ChipView { values: self@.values, ..old(self)@ }),
                v0 == old(self)@.values,
                self@.values.len() == v0.len(),
                i <= bits,
                forall|j: int|
                    0 <= j < v0.len() ==> #[trigger] self@.values[j] == if bits <= j < bits + i {
                        old(self)@.data[j - bits]
                    } else {
                        v0[j]
                    },
            decreases bits - i,
        {
            let b = self.data[i];
            self.write_output(i + bits, b);
            i = i + 1;
        }
        proof {
            assert(self@ =~= (ChipView {
                values: Seq::new(
                    old(self)@.values.len(),
                    |j: int| if bits <= j < 2 * bits { old(self)@.data[j - bits] } else { old(self)@.values[j] },
                ),
                ..old(self)@
            }));
        }
    }
    /// Evaluates the chip's logic once.
    pub fn execute(&mut self)
        requires
            layout_ok(old(self)@),
            step_in_range(old(self)@),
        ensures
            final(self)@ == chip_step(old(self)@),
            layout_ok(final(self)@),
    {
        proof {
            lemma_step_keeps_layout(old(self)@);
        }
        match self.logic {
            ChipLogic::DFlipFlop => self.exec_dff(),
            ChipLogic::JkFlipFlop => self.exec_jk(),
            ChipLogic::TFlipFlop => self.exec_t(),
            ChipLogic::HalfAdder => self.exec_half_adder(),
            ChipLogic::FullAdder { .. } => self.exec_full_adder(),
            ChipLogic::Latch { .. } => self.exec_latch(),
            ChipLogic::Mux { .. } => self.exec_mux(),
            ChipLogic::Demux { .. } => self.exec_demux(),
            ChipLogic::Counter { .. } => self.exec_counter(),
            ChipLogic::Counter2 { .. } => self.exec_counter2(),
            ChipLogic::RingCounter { .. } => self.exec_ring(),
            ChipLogic::Sipo { .. } => self.exec_sipo(),
            ChipLogic::Piso { .. } => self.exec_piso(),
            ChipLogic::SeqGen { .. } => self.exec_seqgen(),
            ChipLogic::SevenSegDecoder { .. } => self.exec_decoder(),
            ChipLogic::SevenSeg => {},
        }
    }

    /// Takes the input levels (`levels[i]` for each input pin `i`) and
    /// evaluates the logic.
    pub fn start_iteration(&mut self, levels: &Vec<bool>)
        requires
            layout_ok(old(self)@),
            levels@.len() == old(self)@.values.len(),
            step_in_range(with_inputs(old(self)@, levels@)),
        ensures
            final(self)@ == chip_step(with_inputs(old(self)@, levels@)),
            layout_ok(final(self)@),
    {
        let n = self.values.len();
        let mut i: usize = 0;
        while i < n
            invariant
                n == old(self)@.values.len(),
                n == old(self)@.pins.len(),
                levels@.len() == n,
                i <= n,
                self@ == (ChipView { values: self@.values, ..old(self)@ }),
                self@.values.len() == n,
                forall|j: int|
                    0 <= j < n ==> #[trigger] self@.values[j] == if j < i && !old(self)@.pins[j].output {
                        levels@[j]
                    } else {
                        old(self)@.values[j]
                    },
            decreases n - i,
        {
            if !self.pins[i].output {
                self.values.set(i, levels[i]);
            }
            i = i + 1;
        }
        proof {
            assert(self@ =~= with_inputs(old(self)@, levels@));
        }
        self.execute();
    }

    /// Returns the chip to its reset state.
    pub fn reset(&mut self)
        requires
            layout_ok(old(self)@),
        ensures
            final(self)@ == reset_state(old(self)@),
            layout_ok(final(self)@),
    {
        let n = self.values.len();
        let flip = match self.logic {
            ChipLogic::DFlipFlop => true,
            ChipLogic::TFlipFlop => true,
            _ => false,
        } && n > 2;
        let mut i: usize = 0;
        while i < n
            invariant
                n == old(self)@.values.len(),
                i <= n,
                self@ == (ChipView { values: self@.values, ..old(self)@ }),
                self@.values.len() == n,
                forall|j: int| 0 <= j < n ==> #[trigger] self@.values[j] == if j < i { flip && j == 2 } else { old(self)@.values[j] },
            decreases n - i,
        {
            self.values.set(i, flip && i == 2);
            i = i + 1;
        }
        self.last_clock = false;
        self.just_loaded = false;
        let clear_data = match self.logic {
            ChipLogic::Latch { .. } => true,
            ChipLogic::Piso { .. } => true,
            _ => false,
        };
        if clear_data {
            let nd = self.data.len();
            let mut k: usize = 0;
            while k < nd
                invariant
                    nd == old(self)@.data.len(),
                    k <= nd,
                    self@.data.len() == nd,
                    forall|j: int| 0 <= j < nd ==> #[trigger] self@.data[j] == if j < k { false } else { old(self)@.data[j] },
                    self@.values.len() == n,
                    forall|j: int| 0 <= j < n ==> #[trigger] self@.values[j] == (flip && j == 2),
                    self@ == (ChipView { values: self@.values, data: self@.data, last_clock: false, just_loaded: false, ..old(self)@ }),
                decreases nd - k,
            {
                self.data.set(k, false);
                k = k + 1;
            }
        }
        match self.logic {
            ChipLogic::Sipo { .. } => {
                self.clock_state = false;
            },
            ChipLogic::Piso { .. } => {
                self.data_index = 0;
                self.clock_state = false;
                self.load_state = false;
            },
            ChipLogic::Counter2 { .. } => {
                self.carry = false;
            },
            ChipLogic::SeqGen { .. } => {
                self.bit_position = 0;
            },
            _ => {},
        }
        proof {
            assert(self@ =~= reset_state(old(self)@));
        }
    }

    /// Level of pin `n`; a pin that does not exist reads low.
    pub fn level(&self, n: usize) -> (r: bool)
        ensures
            r == pin(self@.values, n as int),
    {
        self.pin(n)
    }

    /// Number of pins.
    pub fn pin_count(&self) -> (r: usize)
        ensures
            r == self@.pins.len(),
    {
        self.pins.len()
    }

    /// Pin `n`.
    pub fn pin_info(&self, n: usize) -> (r: ChipPin)
        requires
            n < self@.pins.len(),
        ensures
            r == self@.pins[n as int],
    {
        self.pins[n]
    }

    /// Number of voltage sources: one per output pin.
    pub fn voltage_source_count(&self) -> (r: usize)
        ensures
            r == outputs_upto(self@.pins, self@.pins.len() as int),
    {
        let mut k: usize = 0;
        let mut i: usize = 0;
        while i < self.pins.len()
            invariant
                i <= self@.pins.len(),
                k == outputs_upto(self@.pins, i as int),
                k <= i,
            decreases self@.pins.len() - i,
        {
            if self.pins[i].output {
                k = k + 1;
            }
            i = i + 1;
        }
        k
    }

    /// Pin `n` drives its level against ground.
    pub fn has_ground_connection(&self, n: usize) -> (r: bool)
        ensures
            r == (n < self@.pins.len() && self@.pins[n as int].output),
    {
        n < self.pins.len() && self.pins[n].output
    }

    /// The pin of voltage source `local`: the `local`-th output pin.
    pub fn output_pin(&self, local: usize) -> (r: Option<usize>)
        ensures
            r matches Some(i) ==> i < self@.pins.len() && self@.pins[i as int].output && outputs_upto(self@.pins, i as int)
                == local,
            r is None ==> outputs_upto(self@.pins, self@.pins.len() as int) <= local,
    {
        let mut k: usize = 0;
        let mut i: usize = 0;
        while i < self.pins.len()
            invariant
                i <= self@.pins.len(),
                k == outputs_upto(self@.pins, i as int),
                k <= local,
                k <= i,
            decreases self@.pins.len() - i,
        {
            if self.pins[i].output {
                if k == local {
                    return Some(i);
                }
                k = k + 1;
            }
            i = i + 1;
        }
        None
    }
    /// A chip with pins `pins`, the state pins taking the saved levels in
    /// order.
    fn assemble(
        pins: Vec<ChipPin>,
        state: &Vec<bool>,
        flags: i32,
        size_x: i32,
        size_y: i32,
        logic: ChipLogic,
        just_loaded: bool,
    ) -> (r: ChipElm)
        ensures
            r@ == fresh(pins@, state_values(pins@, state@), flags, size_x, size_y, logic, just_loaded),
    {
        let mut values: Vec<bool> = Vec::new();
        let mut si: usize = 0;
        let mut i: usize = 0;
        while i < pins.len()
            invariant
                i <= pins@.len(),
                si == state_index(pins@, i as int),
                si <= i,
                values@ == state_values(pins@, state@).take(i as int),
            decreases pins@.len() - i,
        {
            let v = if pins[i].state {
                let b = si < state.len() && state[si];
                si = si + 1;
                b
            } else {
                false
            };
            values.push(v);
            proof {
                assert(values@ =~= state_values(pins@, state@).take(i + 1));
            }
            i = i + 1;
        }
        proof {
            assert(values@ =~= state_values(pins@, state@));
        }
        ChipElm {
            pins,
            values,
            flags,
            logic,
            last_clock: false,
            just_loaded,
            clock_state: false,
            load_state: false,
            last_load: false,
            carry: false,
            data: Vec::new(),
            data_index: 0,
            bit_position: 0,
            words: Vec::new(),
            size_x,
            size_y,
        }
    }

    /// D flip-flop with saved output `q`.
    pub fn d_flip_flop(flags: i32, q: bool) -> (r: ChipElm)
        ensures
            r@ == fresh(
                dff_pins(flags),
                Seq::new(dff_pins(flags).len(), |i: int| (i == 1 && q) || (i == 2 && !q)),
                flags,
                2,
                3,
                ChipLogic::DFlipFlop,
                true,
            ),
            layout_ok(r@),
    {
        Self::flip_flop(flags, q, ChipLogic::DFlipFlop, true)
    }

    /// T flip-flop with saved output `q`.
    pub fn t_flip_flop(flags: i32, q: bool) -> (r: ChipElm)
        ensures
            r@ == fresh(
                dff_pins(flags),
                Seq::new(dff_pins(flags).len(), |i: int| (i == 1 && q) || (i == 2 && !q)),
                flags,
                2,
                3,
                ChipLogic::TFlipFlop,
                false,
            ),
            layout_ok(r@),
    {
        Self::flip_flop(flags, q, ChipLogic::TFlipFlop, false)
    }

    fn flip_flop(flags: i32, q: bool, logic: ChipLogic, just_loaded: bool) -> (r: ChipElm)
        requires
            logic is DFlipFlop || logic is TFlipFlop,
        ensures
            r@ == fresh(
                dff_pins(flags),
                Seq::new(dff_pins(flags).len(), |i: int| (i == 1 && q) || (i == 2 && !q)),
                flags,
                2,
                3,
                logic,
                just_loaded,
            ),
            layout_ok(r@),
    {
        let has_set = (flags & 4) != 0;
        let has_reset = (flags & 2) != 0 || has_set;
        let mut pins: Vec<ChipPin> = Vec::new();
        pins.push(ChipPin { pos: 0, side: Side::W, output: false, state: false });
        pins.push(ChipPin { pos: 0, side: Side::E, output: true, state: true });
        pins.push(ChipPin { pos: if has_set { 1 } else { 2 }, side: Side::E, output: true, state: false });
        pins.push(ChipPin { pos: 1, side: Side::W, output: false, state: false });
        if has_set {
            pins.push(ChipPin { pos: 2, side: Side::E, output: false, state: false });
            pins.push(ChipPin { pos: 2, side: Side::W, output: false, state: false });
        } else if has_reset {
            pins.push(ChipPin { pos: 2, side: Side::W, output: false, state: false });
        }
        proof {
            assert(pins@ =~= dff_pins(flags));
            assert(!pins@[0].state && pins@[1].state);
            reveal_with_fuel(state_index, 3);
            assert(state_index(pins@, 1) == 0);
            assert(state_index(pins@, 2) == 1);
        }
        let state = vec![q];
        let ghost ps = pins@;
        let mut chip = Self::assemble(pins, &state, flags, 2, 3, logic, just_loaded);
        let q1 = chip.pin(1);
        chip.write_output(2, !q1);
        proof {
            assert forall|i: int| 0 <= i < ps.len() && i != 1 implies !ps[i].state by {}
            assert(chip@.values =~= Seq::new(dff_pins(flags).len(), |i: int| (i == 1 && q) || (i == 2 && !q)));
        }
        chip
    }
    /// JK flip-flop with saved output `q`.
    pub fn jk_flip_flop(flags: i32, q: bool) -> (r: ChipElm)
        ensures
            r@ == fresh(
                jk_pins(flags),
                Seq::new(jk_pins(flags).len(), |i: int| (i == 3 && q) || (i == 4 && !q)),
                flags,
                2,
                3,
                ChipLogic::JkFlipFlop,
                true,
            ),
            layout_ok(r@),
    {
        let mut pins: Vec<ChipPin> = Vec::new();
        pins.push(ChipPin { pos: 0, side: Side::W, output: false, state: false });
        pins.push(ChipPin { pos: 1, side: Side::W, output: false, state: false });
        pins.push(ChipPin { pos: 2, side: Side::W, output: false, state: false });
        pins.push(ChipPin { pos: 0, side: Side::E, output: true, state: true });
        pins.push(ChipPin { pos: 2, side: Side::E, output: true, state: false });
        if (flags & 2) != 0 {
            pins.push(ChipPin { pos: 1, side: Side::E, output: false, state: false });
        }
        proof {
            assert(pins@ =~= jk_pins(flags));
            reveal_with_fuel(state_index, 5);
            assert(state_index(pins@, 3) == 0);
            assert(state_index(pins@, 4) == 1);
        }
        let state = vec![q];
        let ghost ps = pins@;
        let mut chip = Self::assemble(pins, &state, flags, 2, 3, ChipLogic::JkFlipFlop, true);
        let q1 = chip.pin(3);
        chip.write_output(4, !q1);
        proof {
            assert forall|i: int| 0 <= i < ps.len() && i != 3 implies !ps[i].state by {}
            assert(chip@.values =~= Seq::new(jk_pins(flags).len(), |i: int| (i == 3 && q) || (i == 4 && !q)));
        }
        chip
    }

    /// Half adder.
    pub fn half_adder(flags: i32) -> (r: ChipElm)
        ensures
            r@ == fresh(half_adder_pins(), Seq::new(4, |i: int| false), flags, 2, 2, ChipLogic::HalfAdder, false),
            layout_ok(r@),
    {
        let mut pins: Vec<ChipPin> = Vec::new();
        pins.push(ChipPin { pos: 0, side: Side::E, output: true, state: false });
        pins.push(ChipPin { pos: 1, side: Side::E, output: true, state: false });
        pins.push(ChipPin { pos: 0, side: Side::W, output: false, state: false });
        pins.push(ChipPin { pos: 1, side: Side::W, output: false, state: false });
        proof {
            assert(pins@ =~= half_adder_pins());
        }
        let state: Vec<bool> = Vec::new();
        let chip = Self::assemble(pins, &state, flags, 2, 2, ChipLogic::HalfAdder, false);
        proof {
            assert(chip@.values =~= Seq::new(4, |i: int| false));
        }
        chip
    }

    /// Full adder of `bits` bits (at least one).
    pub fn full_adder(flags: i32, bits: usize) -> (r: ChipElm)
        requires
            bits < 0x4000_0000,
        ensures
            ({
                let b: int = if bits < 1 { 1 } else { bits as int };
                r@ == fresh(
                    full_adder_pins(b),
                    Seq::new((3 * b + 2) as nat, |i: int| false),
                    flags,
                    2,
                    (2 * b + 1) as i32,
                    ChipLogic::FullAdder { bits: b as usize, carry_in: (3 * b) as usize, carry_out: (3 * b + 1) as usize },
                    false,
                )
            }),
            layout_ok(r@),
    {
        let bits = if bits < 1 { 1 } else { bits };
        let bi = bits as i32;
        let n = bits * 3 + 2;
        let ghost spec = full_adder_pins(bits as int);
        let mut pins: Vec<ChipPin> = Vec::new();
        let mut i: usize = 0;
        while i < n
            invariant
                1 <= bits < 0x4000_0000,
                bi == bits,
                n == 3 * bits + 2,
                spec == full_adder_pins(bits as int),
                i <= n,
                pins@ =~= spec.take(i as int),
            decreases n - i,
        {
            let p = if i < bits {
                ChipPin { pos: bi - 1 - i as i32, side: Side::W, output: false, state: false }
            } else if i < 2 * bits {
                ChipPin { pos: bi + (bi - 1 - (i - bits) as i32), side: Side::W, output: false, state: false }
            } else if i < 3 * bits {
                ChipPin { pos: 2 + (bi - 1 - (i - 2 * bits) as i32), side: Side::E, output: true, state: false }
            } else if i == 3 * bits {
                ChipPin { pos: 2 * bi, side: Side::W, output: false, state: false }
            } else {
                ChipPin { pos: 0, side: Side::E, output: true, state: false }
            };
            pins.push(p);
            proof {
                assert(pins@ =~= spec.take(i + 1));
            }
            i = i + 1;
        }
        proof {
            assert(pins@ =~= spec);
        }
        let state: Vec<bool> = Vec::new();
        let chip = Self::assemble(
            pins,
            &state,
            flags,
            2,
            bi * 2 + 1,
            ChipLogic::FullAdder { bits, carry_in: bits * 3, carry_out: bits * 3 + 1 },
            false,
        );
        proof {
            assert(chip@.values =~= Seq::new((3 * bits + 2) as nat, |i: int| false));
        }
        chip
    }
    /// Latch of `bits` bits (at least two); `state` holds the saved output
    /// levels, which are also the stored bits.
    pub fn latch(flags: i32, bits: usize, state: &Vec<bool>) -> (r: ChipElm)
        requires
            bits < 0x4000_0000,
        ensures
            ({
                let b: int = if bits < 2 { 2 } else { bits as int };
                let has_reset = flags & 8 != 0;
                let has_set = flags & 16 != 0;
                let extra: int = (if has_reset { 1int } else { 0int }) + (if has_set { 1int } else { 0int });
                &&& r@.pins == latch_pins(b, flags)
                &&& r@.values == state_values(latch_pins(b, flags), state@)
                &&& r@.data == Seq::new(b as nat, |i: int| i < state@.len() && state@[i])
                &&& r@ == (ChipView { values: r@.values, data: r@.data, ..fresh(
                    latch_pins(b, flags),
                    r@.values,
                    flags,
                    2,
                    (b + 1 + extra) as i32,
                    ChipLogic::Latch {
                        bits: b as usize,
                        load_pin: (2 * b) as usize,
                        reset_pin: if has_reset { Some((2 * b + 1) as usize) } else { None },
                        set_pin: if has_set { Some((2 * b + 1 + extra - 1) as usize) } else { None },
                    },
                    false,
                ) })
            }),
            layout_ok(r@),
    {
        let bits = if bits < 2 { 2 } else { bits };
        let bi = bits as i32;
        let has_reset = (flags & 8) != 0;
        let has_set = (flags & 16) != 0;
        let extra: usize = (if has_reset { 1 } else { 0 }) + (if has_set { 1 } else { 0 });
        let n = bits * 2 + 1 + extra;
        let saved = (flags & 2) != 0;
        let ghost spec = latch_pins(bits as int, flags);
        let mut pins: Vec<ChipPin> = Vec::new();
        let mut i: usize = 0;
        while i < n
            invariant
                2 <= bits < 0x4000_0000,
                bi == bits,
                extra <= 2,
                extra == (if has_reset { 1int } else { 0int }) + (if has_set { 1int } else { 0int }),
                has_reset == (flags & 8 != 0),
                has_set == (flags & 16 != 0),
                saved == (flags & 2 != 0),
                n == 2 * bits + 1 + extra,
                spec == latch_pins(bits as int, flags),
                i <= n,
                pins@ =~= spec.take(i as int),
            decreases n - i,
        {
            let p = if i < bits {
                ChipPin { pos: bi - 1 - i as i32, side: Side::W, output: false, state: false }
            } else if i < 2 * bits {
                ChipPin { pos: bi - 1 - (i - bits) as i32, side: Side::E, output: true, state: saved }
            } else if i == 2 * bits {
                ChipPin { pos: bi, side: Side::W, output: false, state: false }
            } else if i == 2 * bits + 1 && has_reset {
                ChipPin { pos: bi + 1, side: Side::W, output: false, state: false }
            } else {
                ChipPin { pos: bi + 1 + (if has_reset { 1 } else { 0 }), side: Side::W, output: false, state: false }
            };
            pins.push(p);
            proof {
                assert(pins@ =~= spec.take(i + 1));
            }
            i = i + 1;
        }
        proof {
            assert(pins@ =~= spec);
        }
        let mut data: Vec<bool> = Vec::new();
        let mut k: usize = 0;
        while k < bits
            invariant
                k <= bits,
                data@ =~= Seq::new(k as nat, |i: int| i < state@.len() && state@[i]),
            decreases bits - k,
        {
            data.push(k < state.len() && state[k]);
            proof {
                assert(data@ =~= Seq::new((k + 1) as nat, |i: int| i < state@.len() && state@[i]));
            }
            k = k + 1;
        }
        let reset_pin = if has_reset { Some(bits * 2 + 1) } else { None };
        let set_pin = if has_set { Some(bits * 2 + extra) } else { None };
        let mut chip = Self::assemble(
            pins,
            state,
            flags,
            2,
            bi + 1 + extra as i32,
            ChipLogic::Latch { bits, load_pin: bits * 2, reset_pin, set_pin },
            false,
        );
        chip.data = data;
        chip
    }

    /// Multiplexer with `select_bits` select inputs (clamped to 1 to 6).
    pub fn multiplexer(flags: i32, select_bits: usize) -> (r: ChipElm)
        ensures
            ({
                let sb: int = if select_bits < 1 { 1 } else if select_bits > 6 { 6 } else { select_bits as int };
                let oc = two_pow(sb as nat) as int;
                let invert = flags & 2 != 0;
                let strobe = flags & 4 != 0;
                let n = oc + sb + 1 + (if invert { 1int } else { 0int }) + (if strobe { 1int } else { 0int });
                r@ == fresh(
                    mux_pins(sb, flags),
                    Seq::new(n as nat, |i: int| false),
                    flags,
                    (sb + 1) as i32,
                    (oc + 1) as i32,
                    ChipLogic::Mux {
                        select_bits: sb as usize,
                        output_pin: (oc + sb) as usize,
                        select_pin: oc as usize,
                        strobe: if strobe { Some((n - 1) as usize) } else { None },
                    },
                    false,
                )
            }),
            layout_ok(r@),
    {
        let sb = if select_bits < 1 { 1 } else if select_bits > 6 { 6 } else { select_bits };
        let oc = pow2_i64(sb) as usize;
        proof {
            lemma_two_pow_le6(sb as nat);
        }
        let invert = (flags & 2) != 0;
        let has_strobe = (flags & 4) != 0;
        let n = oc + sb + 1 + (if invert { 1 } else { 0 }) + (if has_strobe { 1 } else { 0 });
        let ghost spec = mux_pins(sb as int, flags);
        let mut pins: Vec<ChipPin> = Vec::new();
        let mut i: usize = 0;
        while i < n
            invariant
                1 <= sb <= 6,
                oc == two_pow(sb as nat),
                1 <= oc <= 64,
                invert == (flags & 2 != 0),
                has_strobe == (flags & 4 != 0),
                n == oc + sb + 1 + (if invert { 1int } else { 0int }) + (if has_strobe { 1int } else { 0int }),
                spec == mux_pins(sb as int, flags),
                i <= n,
                pins@ =~= spec.take(i as int),
            decreases n - i,
        {
            let p = if i < oc {
                ChipPin { pos: i as i32, side: Side::W, output: false, state: false }
            } else if i < oc + sb {
                ChipPin { pos: (i - oc) as i32 + 1, side: Side::S, output: false, state: false }
            } else if i == oc + sb {
                ChipPin { pos: 0, side: Side::E, output: true, state: false }
            } else if i == oc + sb + 1 && invert {
                ChipPin { pos: 1, side: Side::E, output: true, state: false }
            } else {
                ChipPin { pos: 0, side: Side::S, output: false, state: false }
            };
            pins.push(p);
            proof {
                assert(pins@ =~= spec.take(i + 1));
            }
            i = i + 1;
        }
        proof {
            assert(pins@ =~= spec);
        }
        let strobe = if has_strobe { Some(n - 1) } else { None };
        let state: Vec<bool> = Vec::new();
        let chip = Self::assemble(
            pins,
            &state,
            flags,
            sb as i32 + 1,
            oc as i32 + 1,
            ChipLogic::Mux { select_bits: sb, output_pin: oc + sb, select_pin: oc, strobe },
            false,
        );
        proof {
            assert(chip@.values =~= Seq::new(n as nat, |i: int| false));
        }
        chip
    }

    /// Demultiplexer with `select_bits` select inputs (clamped to 1 to 6).
    pub fn demultiplexer(flags: i32, select_bits: usize) -> (r: ChipElm)
        ensures
            ({
                let sb: int = if select_bits < 1 { 1 } else if select_bits > 6 { 6 } else { select_bits as int };
                let oc = two_pow(sb as nat) as int;
                r@ == fresh(
                    demux_pins(sb),
                    Seq::new((oc + sb + 1) as nat, |i: int| false),
                    flags,
                    (1 + sb) as i32,
                    (1 + oc) as i32,
                    ChipLogic::Demux {
                        select_bits: sb as usize,
                        input_pin: (oc + sb) as usize,
                        select_pin: oc as usize,
                        output_pin: 0,
                        output_count: oc as usize,
                    },
                    false,
                )
            }),
            layout_ok(r@),
    {
        let sb = if select_bits < 1 { 1 } else if select_bits > 6 { 6 } else { select_bits };
        let oc = pow2_i64(sb) as usize;
        proof {
            lemma_two_pow_le6(sb as nat);
        }
        let n = oc + sb + 1;
        let ghost spec = demux_pins(sb as int);
        let mut pins: Vec<ChipPin> = Vec::new();
        let mut i: usize = 0;
        while i < n
            invariant
                1 <= sb <= 6,
                oc == two_pow(sb as nat),
                1 <= oc <= 64,
                n == oc + sb + 1,
                spec == demux_pins(sb as int),
                i <= n,
                pins@ =~= spec.take(i as int),
            decreases n - i,
        {
            let p = if i < oc {
                ChipPin { pos: i as i32, side: Side::E, output: true, state: false }
            } else if i < oc + sb {
                ChipPin { pos: (i - oc) as i32, side: Side::S, output: false, state: false }
            } else {
                ChipPin { pos: 0, side: Side::W, output: false, state: false }
            };
            pins.push(p);
            proof {
                assert(pins@ =~= spec.take(i + 1));
            }
            i = i + 1;
        }
        proof {
            assert(pins@ =~= spec);
        }
        let state: Vec<bool> = Vec::new();
        let chip = Self::assemble(
            pins,
            &state,
            flags,
            1 + sb as i32,
            1 + oc as i32,
            ChipLogic::Demux { select_bits: sb, input_pin: oc + sb, select_pin: oc, output_pin: 0, output_count: oc },
            false,
        );
        proof {
            assert(chip@.values =~= Seq::new((oc + sb + 1) as nat, |i: int| false));
        }
        chip
    }
    /// Up/down counter of `bits` bits (at least one); `state` holds the
    /// saved count levels, most significant first.
    pub fn counter(flags: i32, bits: usize, state: &Vec<bool>, invert_reset: bool, modulus: i32) -> (r: ChipElm)
        requires
            bits < 0x4000_0000,
        ensures
            ({
                let b: int = if bits < 1 { 1 } else { bits as int };
                r@ == fresh(
                    counter_pins(b, flags),
                    state_values(counter_pins(b, flags), state@),
                    flags,
                    2,
                    b as i32,
                    ChipLogic::Counter { bits: b as usize, invert_reset, modulus },
                    false,
                )
            }),
            bits <= 31 ==> layout_ok(r@),
    {
        let bits = if bits < 1 { 1 } else { bits };
        let bi = bits as i32;
        let ud = (flags & 4) != 0;
        let n = bits + 2 + (if ud { 1 } else { 0 });
        let ghost spec = counter_pins(bits as int, flags);
        let mut pins: Vec<ChipPin> = Vec::new();
        let mut i: usize = 0;
        while i < n
            invariant
                1 <= bits < 0x4000_0000,
                bi == bits,
                ud == (flags & 4 != 0),
                n == bits + 2 + (if ud { 1int } else { 0int }),
                spec == counter_pins(bits as int, flags),
                i <= n,
                pins@ =~= spec.take(i as int),
            decreases n - i,
        {
            let p = if i == 0 {
                ChipPin { pos: 0, side: Side::W, output: false, state: false }
            } else if i == 1 {
                ChipPin { pos: bi - 1, side: Side::W, output: false, state: false }
            } else if i < bits + 2 {
                ChipPin { pos: (i - 2) as i32, side: Side::E, output: true, state: true }
            } else {
                ChipPin { pos: bi - 2, side: Side::W, output: false, state: false }
            };
            pins.push(p);
            proof {
                assert(pins@ =~= spec.take(i + 1));
            }
            i = i + 1;
        }
        proof {
            assert(pins@ =~= spec);
        }
        Self::assemble(pins, state, flags, 2, bi, ChipLogic::Counter { bits, invert_reset, modulus }, false)
    }

    /// Synchronous counter of `bits` bits (at least two); `state` holds the
    /// saved count levels, most significant first.
    pub fn counter2(flags: i32, bits: usize, state: &Vec<bool>, modulus: i32) -> (r: ChipElm)
        requires
            bits < 0x2000_0000,
        ensures
            ({
                let b: int = if bits < 2 { 2 } else { bits as int };
                r@ == fresh(
                    counter2_pins(b),
                    state_values(counter2_pins(b), state@),
                    flags,
                    2,
                    (b + 3) as i32,
                    ChipLogic::Counter2 {
                        bits: b as usize,
                        modulus,
                        clk: (2 * b) as usize,
                        clr: (2 * b + 1) as usize,
                        enp: (2 * b + 2) as usize,
                        ent: (2 * b + 5) as usize,
                        rco: (2 * b + 3) as usize,
                        load: (2 * b + 4) as usize,
                    },
                    false,
                )
            }),
            bits <= 31 ==> layout_ok(r@),
    {
        let bits = if bits < 2 { 2 } else { bits };
        let bi = bits as i32;
        let n = bits * 2 + 6;
        let ghost spec = counter2_pins(bits as int);
        let mut pins: Vec<ChipPin> = Vec::new();
        let mut i: usize = 0;
        while i < n
            invariant
                2 <= bits < 0x2000_0000,
                bi == bits,
                n == 2 * bits + 6,
                spec == counter2_pins(bits as int),
                i <= n,
                pins@ =~= spec.take(i as int),
            decreases n - i,
        {
            let p = if i < bits {
                ChipPin { pos: 1 + i as i32, side: Side::E, output: true, state: true }
            } else if i < 2 * bits {
                ChipPin { pos: 1 + (i - bits) as i32, side: Side::W, output: false, state: false }
            } else if i == 2 * bits {
                ChipPin { pos: 0, side: Side::W, output: false, state: false }
            } else if i == 2 * bits + 1 {
                ChipPin { pos: bi + 1, side: Side::W, output: false, state: false }
            } else if i == 2 * bits + 2 {
                ChipPin { pos: bi + 2, side: Side::W, output: false, state: false }
            } else if i == 2 * bits + 3 {
                ChipPin { pos: 0, side: Side::E, output: true, state: false }
            } else if i == 2 * bits + 4 {
                ChipPin { pos: bi + 1, side: Side::E, output: false, state: false }
            } else {
                ChipPin { pos: bi + 2, side: Side::E, output: false, state: false }
            };
            pins.push(p);
            proof {
                assert(pins@ =~= spec.take(i + 1));
            }
            i = i + 1;
        }
        proof {
            assert(pins@ =~= spec);
        }
        let p = bits * 2;
        Self::assemble(
            pins,
            state,
            flags,
            2,
            bi + 3,
            ChipLogic::Counter2 {
                bits,
                modulus,
                clk: p,
                clr: p + 1,
                enp: p + 2,
                rco: p + 3,
                load: p + 4,
                ent: p + 5,
            },
            false,
        )
    }

    /// Ring counter of `bits` bits (at least two); `state` holds the saved
    /// output levels.
    pub fn ring_counter(flags: i32, bits: usize, state: &Vec<bool>) -> (r: ChipElm)
        requires
            bits < 0x4000_0000,
        ensures
            ({
                let b: int = if bits < 2 { 2 } else { bits as int };
                let n = b + 2 + (if ring_inhibit(b, flags) { 1int } else { 0int });
                r@ == fresh(
                    ring_pins(b, flags),
                    state_values(ring_pins(b, flags), state@),
                    flags,
                    b as i32,
                    2,
                    ChipLogic::RingCounter {
                        bits: b as usize,
                        clock_inhibit: if ring_inhibit(b, flags) { Some((n - 1) as usize) } else { None },
                    },
                    true,
                )
            }),
            layout_ok(r@),
    {
        let bits = if bits < 2 { 2 } else { bits };
        let bi = bits as i32;
        let inhibit = (flags & 2) != 0 && bits >= 3;
        let n = bits + 2 + (if inhibit { 1 } else { 0 });
        let ghost spec = ring_pins(bits as int, flags);
        let mut pins: Vec<ChipPin> = Vec::new();
        let mut i: usize = 0;
        while i < n
            invariant
                2 <= bits < 0x4000_0000,
                bi == bits,
                inhibit == ring_inhibit(bits as int, flags),
                n == bits + 2 + (if inhibit { 1int } else { 0int }),
                spec == ring_pins(bits as int, flags),
                i <= n,
                pins@ =~= spec.take(i as int),
            decreases n - i,
        {
            let p = if i == 0 {
                ChipPin { pos: 1, side: Side::W, output: false, state: false }
            } else if i == 1 {
                ChipPin { pos: bi - 1, side: Side::S, output: false, state: false }
            } else if i < bits + 2 {
                ChipPin { pos: (i - 2) as i32, side: Side::N, output: true, state: true }
            } else {
                ChipPin { pos: 1, side: Side::S, output: false, state: false }
            };
            pins.push(p);
            proof {
                assert(pins@ =~= spec.take(i + 1));
            }
            i = i + 1;
        }
        proof {
            assert(pins@ =~= spec);
        }
        let clock_inhibit = if inhibit { Some(n - 1) } else { None };
        Self::assemble(pins, state, flags, bi, 2, ChipLogic::RingCounter { bits, clock_inhibit }, true)
    }

    /// Serial-in parallel-out shift register of `bits` bits (at least one),
    /// with output levels `q_bits`.
    pub fn sipo(flags: i32, bits: usize, q_bits: &Vec<bool>) -> (r: ChipElm)
        requires
            bits < 0x4000_0000,
        ensures
            ({
                let b: int = if bits < 1 { 1 } else { bits as int };
                r@ == fresh(
                    sipo_pins(b),
                    Seq::new((b + 2) as nat, |i: int| i >= 2 && i - 2 < q_bits@.len() && q_bits@[i - 2]),
                    flags,
                    (b + 1) as i32,
                    3,
                    ChipLogic::Sipo { bits: b as usize },
                    false,
                )
            }),
            layout_ok(r@),
    {
        let bits = if bits < 1 { 1 } else { bits };
        let bi = bits as i32;
        let n = bits + 2;
        let ghost spec = sipo_pins(bits as int);
        let mut pins: Vec<ChipPin> = Vec::new();
        let mut i: usize = 0;
        while i < n
            invariant
                1 <= bits < 0x4000_0000,
                n == bits + 2,
                spec == sipo_pins(bits as int),
                i <= n,
                pins@ =~= spec.take(i as int),
            decreases n - i,
        {
            let p = if i == 0 {
                ChipPin { pos: 1, side: Side::W, output: false, state: false }
            } else if i == 1 {
                ChipPin { pos: 2, side: Side::W, output: false, state: false }
            } else {
                ChipPin { pos: (i - 1) as i32, side: Side::N, output: true, state: false }
            };
            pins.push(p);
            proof {
                assert(pins@ =~= spec.take(i + 1));
            }
            i = i + 1;
        }
        proof {
            assert(pins@ =~= spec);
        }
        let state: Vec<bool> = Vec::new();
        let mut chip = Self::assemble(pins, &state, flags, bi + 1, 3, ChipLogic::Sipo { bits }, false);
        let mut k: usize = 0;
        while k < bits
            invariant
                1 <= bits < 0x4000_0000,
                k <= bits,
                chip@ == (ChipView { values: chip@.values, ..fresh(
                    sipo_pins(bits as int),
                    chip@.values,
                    flags,
                    (bits + 1) as i32,
                    3,
                    ChipLogic::Sipo { bits },
                    false,
                ) }),
                chip@.values.len() == bits + 2,
                forall|j: int|
                    0 <= j < bits + 2 ==> #[trigger] chip@.values[j] == (j >= 2 && j - 2 < k && j - 2 < q_bits@.len()
                        && q_bits@[j - 2]),
            decreases bits - k,
        {
            if k < q_bits.len() && q_bits[k] {
                chip.write_output(2 + k, true);
            }
            k = k + 1;
        }
        proof {
            assert(chip@.values =~= Seq::new((bits + 2) as nat, |i: int| i >= 2 && i - 2 < q_bits@.len() && q_bits@[i - 2]));
        }
        chip
    }
    /// Parallel-in serial-out shift register of `bits` bits (at least one)
    /// holding `data`, cut or padded with low bits to `bits`.
    pub fn piso(flags: i32, bits: usize, data: Vec<bool>) -> (r: ChipElm)
        requires
            bits < 0x4000_0000,
        ensures
            ({
                let b: int = if bits < 1 { 1 } else { bits as int };
                let new = flags & 2 != 0;
                let d = Seq::new(b as nat, |i: int| i < data@.len() && data@[i]);
                let dpi: int = if new { 4 } else { 3 };
                r@ == (ChipView { data: d, ..fresh(
                    piso_pins(b, flags),
                    Seq::new((dpi + b) as nat, |i: int| i == 2 && new && d[0]),
                    flags,
                    (b + 2) as i32,
                    3,
                    ChipLogic::Piso { data_pin_index: dpi as usize },
                    false,
                ) })
            }),
            layout_ok(r@),
    {
        let bits = if bits < 1 { 1 } else { bits };
        let bi = bits as i32;
        let new_bhvr = (flags & 2) != 0;
        let dpi: usize = if new_bhvr { 4 } else { 3 };
        let n = dpi + bits;
        let ghost spec = piso_pins(bits as int, flags);
        let mut pins: Vec<ChipPin> = Vec::new();
        let mut i: usize = 0;
        while i < n
            invariant
                1 <= bits < 0x4000_0000,
                bi == bits,
                new_bhvr == (flags & 2 != 0),
                dpi == (if new_bhvr { 4int } else { 3int }),
                n == dpi + bits,
                spec == piso_pins(bits as int, flags),
                i <= n,
                pins@ =~= spec.take(i as int),
            decreases n - i,
        {
            let p = if i == 0 {
                ChipPin { pos: 1, side: Side::W, output: false, state: false }
            } else if i == 1 {
                ChipPin { pos: 2, side: Side::W, output: false, state: false }
            } else if i == 2 {
                ChipPin { pos: 1, side: Side::E, output: true, state: false }
            } else if i < dpi {
                ChipPin { pos: 0, side: Side::W, output: false, state: false }
            } else {
                ChipPin { pos: bi - (i - dpi) as i32, side: Side::N, output: false, state: false }
            };
            pins.push(p);
            proof {
                assert(pins@ =~= spec.take(i + 1));
            }
            i = i + 1;
        }
        proof {
            assert(pins@ =~= spec);
        }
        let mut d: Vec<bool> = Vec::new();
        let mut k: usize = 0;
        while k < bits
            invariant
                k <= bits,
                d@ =~= Seq::new(k as nat, |j: int| j < data@.len() && data@[j]),
            decreases bits - k,
        {
            d.push(k < data.len() && data[k]);
            proof {
                assert(d@ =~= Seq::new((k + 1) as nat, |j: int| j < data@.len() && data@[j]));
            }
            k = k + 1;
        }
        let first = d[0];
        let state: Vec<bool> = Vec::new();
        let mut chip = Self::assemble(pins, &state, flags, bi + 2, 3, ChipLogic::Piso { data_pin_index: dpi }, false);
        chip.data = d;
        if new_bhvr {
            chip.write_output(2, first);
        }
        proof {
            assert(chip@.values =~= Seq::new((dpi + bits) as nat, |i: int| i == 2 && new_bhvr && chip@.data[0]));
        }
        chip
    }

    /// Sequence generator playing the first `bit_count` bits of `data`
    /// (at most all of them).
    pub fn seq_gen(flags: i32, bit_count: usize, data: Vec<i32>) -> (r: ChipElm)
        requires
            data@.len() * 32 <= usize::MAX,
        ensures
            ({
                let bc = if bit_count > data@.len() * 32 { (data@.len() * 32) as usize } else { bit_count };
                r@ == (ChipView { words: data@, ..fresh(
                    seqgen_pins(flags),
                    Seq::new(seqgen_pins(flags).len(), |i: int| false),
                    flags,
                    2,
                    2,
                    ChipLogic::SeqGen { bit_count: bc },
                    false,
                ) })
            }),
            layout_ok(r@),
    {
        let mut pins: Vec<ChipPin> = Vec::new();
        pins.push(ChipPin { pos: 0, side: Side::W, output: false, state: false });
        pins.push(ChipPin { pos: 1, side: Side::E, output: true, state: false });
        if (flags & 8) != 0 {
            pins.push(ChipPin { pos: 1, side: Side::W, output: false, state: false });
        }
        proof {
            assert(pins@ =~= seqgen_pins(flags));
        }
        let max = data.len() * 32;
        let bc = if bit_count > max { max } else { bit_count };
        let state: Vec<bool> = Vec::new();
        let mut chip = Self::assemble(pins, &state, flags, 2, 2, ChipLogic::SeqGen { bit_count: bc }, false);
        chip.words = data;
        proof {
            assert(chip@.values =~= Seq::new(seqgen_pins(flags).len(), |i: int| false));
        }
        chip
    }

    /// Segment decoder: segment type 1 drives fourteen segments, 2 sixteen,
    /// any other seven.
    pub fn seven_seg_decoder(flags: i32, segment_type: i32) -> (r: ChipElm)
        ensures
            ({
                let sc = decoder_segments(segment_type);
                r@ == fresh(
                    decoder_pins(sc as int, flags),
                    Seq::new(decoder_pins(sc as int, flags).len(), |i: int| false),
                    flags,
                    3,
                    sc as i32,
                    ChipLogic::SevenSegDecoder { segment_count: sc, has_blank: flags & 2 != 0, blank_on_f: flags & 4 != 0 },
                    false,
                )
            }),
            layout_ok(r@),
    {
        let sc: usize = if segment_type == 1 { 14 } else if segment_type == 2 { 16 } else { 7 };
        let has_blank = (flags & 2) != 0;
        let n = sc + 4 + (if has_blank { 1 } else { 0 });
        let ghost spec = decoder_pins(sc as int, flags);
        let mut pins: Vec<ChipPin> = Vec::new();
        let mut i: usize = 0;
        while i < n
            invariant
                sc == 7 || sc == 14 || sc == 16,
                has_blank == (flags & 2 != 0),
                n == sc + 4 + (if has_blank { 1int } else { 0int }),
                spec == decoder_pins(sc as int, flags),
                i <= n,
                pins@ =~= spec.take(i as int),
            decreases n - i,
        {
            let p = if i < sc {
                ChipPin { pos: i as i32, side: Side::E, output: true, state: false }
            } else {
                ChipPin { pos: (i - sc) as i32, side: Side::W, output: false, state: false }
            };
            pins.push(p);
            proof {
                assert(pins@ =~= spec.take(i + 1));
            }
            i = i + 1;
        }
        proof {
            assert(pins@ =~= spec);
        }
        let state: Vec<bool> = Vec::new();
        let chip = Self::assemble(
            pins,
            &state,
            flags,
            3,
            sc as i32,
            ChipLogic::SevenSegDecoder { segment_count: sc, has_blank, blank_on_f: (flags & 4) != 0 },
            false,
        );
        proof {
            assert(chip@.values =~= Seq::new(decoder_pins(sc as int, flags).len(), |i: int| false));
        }
        chip
    }

    /// Segment display of `base_segment_count` segments (fourteen, sixteen,
    /// or else seven), with a decimal point when `extra_segment > 0` and a
    /// common pin when `diode_direction` is not 0.
    pub fn seven_seg(flags: i32, base_segment_count: usize, extra_segment: i32, diode_direction: i32) -> (r: ChipElm)
        ensures
            ({
                let base = display_base(base_segment_count);
                let pins = display_pins(base, extra_segment, diode_direction);
                let size = display_size(base, extra_segment, diode_direction);
                r@ == fresh(pins, Seq::new(pins.len(), |i: int| false), flags, size.0, size.1, ChipLogic::SevenSeg, false)
            }),
            layout_ok(r@),
    {
        let base: usize = if base_segment_count == 14 { 14 } else if base_segment_count == 16 { 16 } else { 7 };
        let sc = base + (if extra_segment > 0 { 1 } else { 0 });
        let pin_count = if diode_direction == 0 { sc } else { sc + 1 };
        let left = (base + 1) / 2;
        let mut size_y = left as i32;
        let size_x: i32 = if base == 7 {
            if pin_count > 7 { 5 } else { 4 }
        } else {
            5
        };
        if pin_count as i32 > size_y * 2 {
            size_y += 1;
        }
        let backward = sc == 7 && diode_direction == 0 && extra_segment == 0;
        let s0: i32 = if backward { 1 } else { 0 };
        let rest_side = if backward { Side::S } else { Side::E };
        let ghost spec = display_pins(base as int, extra_segment, diode_direction);
        let mut pins: Vec<ChipPin> = Vec::new();
        let mut i: usize = 0;
        while i < pin_count
            invariant
                base == 7 || base == 14 || base == 16,
                sc == base + (if extra_segment > 0 { 1int } else { 0int }),
                pin_count == (if diode_direction == 0 { sc as int } else { sc + 1 }),
                left == (base + 1) / 2,
                backward == (sc == 7 && diode_direction == 0 && extra_segment == 0),
                s0 == (if backward { 1int } else { 0int }),
                rest_side == (if backward { Side::S } else { Side::E }),
                spec == display_pins(base as int, extra_segment, diode_direction),
                i <= pin_count,
                pins@ =~= spec.take(i as int),
            decreases pin_count - i,
        {
            let p = if i < left {
                ChipPin { pos: i as i32, side: Side::W, output: false, state: false }
            } else if i < sc {
                ChipPin { pos: s0 + (i - left) as i32, side: rest_side, output: false, state: false }
            } else if sc != 7 {
                ChipPin { pos: left as i32, side: Side::W, output: false, state: false }
            } else {
                ChipPin { pos: s0 + (sc - left) as i32, side: Side::E, output: false, state: false }
            };
            pins.push(p);
            proof {
                assert(pins@ =~= spec.take(i + 1));
            }
            i = i + 1;
        }
        proof {
            assert(pins@ =~= spec);
        }
        let state: Vec<bool> = Vec::new();
        let chip = Self::assemble(pins, &state, flags, size_x, size_y, ChipLogic::SevenSeg, false);
        proof {
            assert(chip@.values =~= Seq::new(spec.len(), |i: int| false));
        }
        chip
    }
}


/// A logic level as a number: 1 for high, 0 for low.
pub open spec fn bit(b: bool) -> int {
    if b { 1 } else { 0 }
}

/// On an active clock edge of a JK flip-flop (pins J 0, clock 1, K 2, Q 3,
/// Q-bar 4) whose reset is not asserted: J high and K low make Q high, J low
/// and K high make Q low, both high toggle Q and both low keep it; Q-bar is
/// the opposite of Q.
pub proof fn lemma_jk_clock_edge(s: ChipView)
    requires
        s.logic is JkFlipFlop,
        s.values.len() >= 5,
        !s.just_loaded,
        if s.flags & 4 != 0 {
            s.values[1] && !s.last_clock
        } else {
            !s.values[1] && s.last_clock
        },
        !(s.flags & 2 != 0 && s.values.len() > 5 && s.values[5] != (s.flags & 8 != 0)),
    ensures
        ({
            let j = s.values[0];
            let k = s.values[2];
            let q = s.values[3];
            let out = chip_step(s).values;
            &&& j && !k ==> out[3]
            &&& !j && k ==> !out[3]
            &&& j && k ==> out[3] == !q
            &&& !j && !k ==> out[3] == q
            &&& out[4] == !out[3]
        }),
{
}

/// A half adder (inputs A at pin 2 and B at pin 3) shows their sum in
/// binary: 2 * carry (pin 1) + sum (pin 0) == A + B.
pub proof fn lemma_half_adder_adds(s: ChipView)
    requires
        s.logic is HalfAdder,
        s.values.len() >= 4,
    ensures
        2 * bit(chip_step(s).values[1]) + bit(chip_step(s).values[0]) == bit(s.values[2]) + bit(s.values[3]),
        chip_step(s).values[2] == s.values[2],
        chip_step(s).values[3] == s.values[3],
{
}

/// After a reset a latch holds no stored bit, so its first evaluation with
/// load, set and reset low shows low on every latch output.
pub proof fn lemma_latch_reset_clears(s: ChipView, levels: Seq<bool>)
    requires
        layout_ok(s),
        s.logic is Latch,
        levels.len() == s.values.len(),
        ({
            let t = with_inputs(reset_state(s), levels);
            &&& !pin(t.values, s.logic->Latch_load_pin as int)
            &&& (s.logic->Latch_reset_pin matches Some(p) ==> !pin(t.values, p as int))
            &&& (s.logic->Latch_set_pin matches Some(p) ==> !pin(t.values, p as int))
        }),
    ensures
        forall|i: int| 0 <= i < s.logic->Latch_bits ==> !(#[trigger] reset_state(s).data[i]),
        ({
            let bits = s.logic->Latch_bits as int;
            let out = chip_step(with_inputs(reset_state(s), levels)).values;
            forall|j: int| bits <= j < 2 * bits ==> !(#[trigger] out[j])
        }),
{
}


/// D flip-flop (D pin 0, Q 1, Q-bar 2, clock 3): with set and reset not
/// asserted, a rising clock edge stores D in Q and otherwise Q keeps its
/// level; an asserted set makes Q high, an asserted reset alone makes it
/// low. Q-bar shows the opposite of Q unless set and reset are both
/// asserted.
pub proof fn lemma_dff_behaviour(s: ChipView)
    requires
        s.logic is DFlipFlop,
        s.values.len() >= 4,
        !s.just_loaded,
    ensures
        ({
            let v = s.values;
            let invert = s.flags & 8 != 0;
            let set = dff_has_set(s.flags) && v.len() > 5 && v[5] != invert;
            let reset = dff_has_reset(s.flags) && v.len() > 4 && v[4] != invert;
            let out = chip_step(s).values;
            &&& !set && !reset && v[3] && !s.last_clock ==> out[1] == v[0]
            &&& !set && !reset && !(v[3] && !s.last_clock) ==> out[1] == v[1]
            &&& set ==> out[1]
            &&& reset && !set ==> !out[1]
            &&& !(set && reset) ==> out[2] == !out[1]
            &&& out[0] == v[0]
            &&& out[3] == v[3]
        }),
{
}

/// T flip-flop (T pin 0, Q 1, Q-bar 2, clock 3): with set and reset low, a
/// rising clock edge with T high toggles Q and anything else keeps Q; Q-bar
/// is the opposite of Q.
pub proof fn lemma_t_flip_flop_toggles(s: ChipView)
    requires
        s.logic is TFlipFlop,
        s.values.len() >= 4,
        !(dff_has_set(s.flags) && pin(s.values, 5)),
        !(dff_has_reset(s.flags) && pin(s.values, 4)),
    ensures
        ({
            let v = s.values;
            let out = chip_step(s).values;
            &&& v[3] && !s.last_clock && v[0] ==> out[1] == !v[1]
            &&& !(v[3] && !s.last_clock && v[0]) ==> out[1] == v[1]
            &&& out[2] == !out[1]
        }),
{
}

/// Latch (data pins 0..bits, outputs bits..2*bits): an asserted set makes
/// every output high, else an asserted reset makes every output low, else a
/// load copies the data pins to the outputs, and without any of these the
/// outputs show the stored bits.
pub proof fn lemma_latch_behaviour(s: ChipView)
    requires
        layout_ok(s),
        s.logic is Latch,
    ensures
        ({
            let v = s.values;
            let bits = s.logic->Latch_bits as int;
            let setting = s.logic->Latch_set_pin matches Some(p) && pin(v, p as int);
            let resetting = s.logic->Latch_reset_pin matches Some(p) && pin(v, p as int);
            let load = pin(v, s.logic->Latch_load_pin as int);
            let loading = load && (s.flags & 4 != 0 || !s.last_load);
            let out = chip_step(s).values;
            &&& forall|j: int| bits <= j < 2 * bits && setting ==> #[trigger] out[j]
            &&& forall|j: int| bits <= j < 2 * bits && resetting && !setting ==> !#[trigger] out[j]
            &&& forall|j: int|
                bits <= j < 2 * bits && loading && !setting && !resetting ==> #[trigger] out[j] == v[j - bits]
            &&& forall|j: int|
                bits <= j < 2 * bits && !loading && !setting && !resetting ==> #[trigger] out[j] == s.data[j - bits]
            &&& forall|j: int| 0 <= j < bits ==> #[trigger] out[j] == v[j]
        }),
{
}

/// Multiplexer: the output shows the data input whose number the select
/// pins give (least significant first), low while the strobe is high; with
/// flag 2 the next pin shows the opposite.
pub proof fn lemma_mux_selects(s: ChipView)
    requires
        layout_ok(s),
        s.logic is Mux,
    ensures
        ({
            let v = s.values;
            let m = s.logic;
            let sel = lsb_value(v, m->Mux_select_pin as int, m->Mux_select_bits as nat);
            let strobe = m->Mux_strobe matches Some(p) && pin(v, p as int);
            let out = chip_step(s).values;
            &&& out[m->Mux_output_pin as int] == (v[sel as int] && !strobe)
            &&& s.flags & 2 != 0 ==> out[m->Mux_output_pin + 1] == !out[m->Mux_output_pin as int]
            &&& forall|j: int| 0 <= j < m->Mux_output_pin ==> #[trigger] out[j] == v[j]
        }),
{
    let m = s.logic;
    lemma_lsb_value_below(s.values, m->Mux_select_pin as int, m->Mux_select_bits as nat);
}

/// Demultiplexer: the output whose number the select pins give (least
/// significant first) shows the input; every other output is low, or high
/// with flag 16.
pub proof fn lemma_demux_routes(s: ChipView)
    requires
        layout_ok(s),
        s.logic is Demux,
    ensures
        ({
            let v = s.values;
            let m = s.logic;
            let sel = lsb_value(v, m->Demux_select_pin as int, m->Demux_select_bits as nat);
            let inp = pin(v, m->Demux_input_pin as int);
            let out = chip_step(s).values;
            &&& out[sel as int] == inp
            &&& forall|j: int| 0 <= j < m->Demux_output_count && j != sel ==> #[trigger] out[j] == (s.flags & 16 != 0)
            &&& forall|j: int| m->Demux_output_count <= j < v.len() ==> #[trigger] out[j] == v[j]
        }),
{
    let m = s.logic;
    lemma_lsb_value_below(s.values, m->Demux_select_pin as int, m->Demux_select_bits as nat);
}

/// Number on `k` pins is below `2^k`.
proof fn lemma_lsb_value_below(v: Seq<bool>, start: int, k: nat)
    ensures
        lsb_value(v, start, k) < two_pow(k),
    decreases k,
{
    if k > 0 {
        lemma_lsb_value_below(v, start, (k - 1) as nat);
    }
}

/// Shift register (serial input pin 0, clock 1, outputs 2..2+bits): a rising
/// clock moves every output one place on and the first output takes the
/// serial input; otherwise the outputs keep their levels.
pub proof fn lemma_sipo_shifts(s: ChipView)
    requires
        layout_ok(s),
        s.logic is Sipo,
    ensures
        ({
            let v = s.values;
            let bits = s.logic->Sipo_bits as int;
            let out = chip_step(s).values;
            let rising = v[1] && !s.clock_state;
            &&& rising ==> out[2] == v[0]
            &&& forall|j: int| 3 <= j < 2 + bits && rising ==> #[trigger] out[j] == v[j - 1]
            &&& !rising ==> out == v
        }),
{
}

/// Segment decoder: unless blanked, the segment pins show the glyph of the
/// digit on the four inputs after them (first input most significant).
pub proof fn lemma_decoder_shows_digit(s: ChipView)
    requires
        layout_ok(s),
        s.logic is SevenSegDecoder,
    ensures
        ({
            let v = s.values;
            let sc = s.logic->SevenSegDecoder_segment_count as int;
            let digit = 8 * bit(v[sc]) + 4 * bit(v[sc + 1]) + 2 * bit(v[sc + 2]) + bit(v[sc + 3]);
            let blank = (s.logic->SevenSegDecoder_has_blank && !v[sc + 4]) || (digit == 15
                && s.logic->SevenSegDecoder_blank_on_f);
            let out = chip_step(s).values;
            &&& forall|j: int|
                0 <= j < sc && !blank ==> #[trigger] out[j] == crate::segments::segment_row(
                    s.logic->SevenSegDecoder_segment_count,
                    digit,
                )[j]
            &&& forall|j: int| 0 <= j < sc && blank ==> !#[trigger] out[j]
            &&& forall|j: int| sc <= j < v.len() ==> #[trigger] out[j] == v[j]
        }),
{
}


/// Value of the first `k` sum bits of the ripple-carry adder.
spec fn fa_sum_value(v: Seq<bool>, bits: int, cin: int, k: nat) -> int
    decreases k,
{
    if k == 0 {
        0
    } else {
        fa_sum_value(v, bits, cin, (k - 1) as nat) + bit(fa_sum(v, bits, cin, (k - 1) as nat)) * two_pow(
            (k - 1) as nat,
        )
    }
}

#[verifier::spinoff_prover]
#[verifier::rlimit(30)]
proof fn lemma_fa_partial(v: Seq<bool>, bits: int, cin: int, k: nat)
    ensures
        fa_sum_value(v, bits, cin, k) + two_pow(k) * bit(fa_carry(v, bits, cin, k)) == lsb_value(v, 0, k)
            + lsb_value(v, bits, k) + bit(pin(v, cin)),
    decreases k,
{
    if k > 0 {
        let j = (k - 1) as nat;
        lemma_fa_partial(v, bits, cin, j);
        let p = two_pow(j) as int;
        let a = bit(pin(v, j as int));
        let b = bit(pin(v, j + bits));
        let c = bit(fa_carry(v, bits, cin, j));
        let sb = bit(fa_sum(v, bits, cin, j));
        let c2 = bit(fa_carry(v, bits, cin, k));
        assert(fa_sum_value(v, bits, cin, k) == fa_sum_value(v, bits, cin, j) + sb * p);
        assert(sb + 2 * c2 == a + b + c);
        assert(two_pow(k) == 2 * p);
        assert(0 + k - 1 == j as int);
        if pin(v, j as int) {
            assert(a * p == p);
        } else {
            assert(a * p == 0);
        }
        if pin(v, j + bits) {
            assert(b * p == p);
        } else {
            assert(b * p == 0);
        }
        assert(lsb_value(v, 0, k) == lsb_value(v, 0, j) + a * p);
        assert(bits + k - 1 == j + bits);
        assert(lsb_value(v, bits, k) == lsb_value(v, bits, j) + b * p);
        assert(sb * p + (2 * p) * c2 == p * c + a * p + b * p) by (nonlinear_arith)
            requires
                sb + 2 * c2 == a + b + c,
        ;
    }
}

#[verifier::spinoff_prover]
proof fn lemma_fa_outputs(s: ChipView, k: nat)
    requires
        layout_ok(s),
        s.logic is FullAdder,
        k <= s.logic->FullAdder_bits,
    ensures
        lsb_value(chip_step(s).values, 2 * s.logic->FullAdder_bits, k) == fa_sum_value(
            s.values,
            s.logic->FullAdder_bits as int,
            s.logic->FullAdder_carry_in as int,
            k,
        ),
    decreases k,
{
    if k > 0 {
        lemma_fa_outputs(s, (k - 1) as nat);
    }
}

/// Full adder (inputs A on pins 0..bits and B on bits..2*bits, sum on
/// 2*bits..3*bits, all least significant first): the sum pins and the
/// carry out together hold A + B + carry in.
#[verifier::spinoff_prover]
pub proof fn lemma_full_adder_adds(s: ChipView)
    requires
        layout_ok(s),
        s.logic is FullAdder,
    ensures
        ({
            let bits = s.logic->FullAdder_bits;
            let out = chip_step(s).values;
            lsb_value(out, 2 * bits, bits as nat) + two_pow(bits as nat) * bit(out[s.logic->FullAdder_carry_out as int])
                == lsb_value(s.values, 0, bits as nat) + lsb_value(s.values, bits as int, bits as nat) + bit(
                s.values[s.logic->FullAdder_carry_in as int],
            )
        }),
{
    let bits = s.logic->FullAdder_bits;
    lemma_fa_outputs(s, bits as nat);
    lemma_fa_partial(s.values, bits as int, s.logic->FullAdder_carry_in as int, bits as nat);
}


/// Pins holding the bits of `u` read back as `u` modulo `2^k`.
#[verifier::spinoff_prover]
proof fn lemma_msb_bits(w: Seq<bool>, start: int, u: nat, k: nat)
    requires
        forall|i: int| 0 <= i < k ==> #[trigger] pin(w, start + i) == bits_of(u, k)[i],
    ensures
        msb_value(w, start, k) == u % two_pow(k),
    decreases k,
{
    if k == 0 {
        assert(two_pow(0) == 1);
    } else {
        let j = (k - 1) as nat;
        lemma_bits_of_len(u / 2, j);
        assert forall|i: int| 0 <= i < j implies #[trigger] pin(w, start + i) == bits_of(u / 2, j)[i] by {
            assert(pin(w, start + i) == bits_of(u, k)[i]);
            assert(bits_of(u, k) == bits_of(u / 2, j).push(u % 2 == 1));
        }
        lemma_msb_bits(w, start, u / 2, j);
        assert(pin(w, start + j) == bits_of(u, k)[j as int]);
        assert(bits_of(u, k)[j as int] == (u % 2 == 1));
        lemma_two_pow_mono(j, j);
        vstd::arithmetic::div_mod::lemma_breakdown(u as int, 2, two_pow(j) as int);
        assert(two_pow(k) == 2 * two_pow(j));
        assert(start + k - 1 == start + j);
    }
}

/// Up/down counter (clock pin 0, reset pin 1, count on pins 2..2+bits, most
/// significant first): on an active clock edge with the reset not asserted
/// the count goes one up, or one down when flag 4 enables counting down and
/// its pin is high, wrapped into `0..modulus` when the modulus is not 0, and
/// shown modulo `2^bits`.
#[verifier::spinoff_prover]
pub proof fn lemma_counter_counts(s: ChipView)
    requires
        layout_ok(s),
        s.logic is Counter,
        counter_edge(s),
        !s.values[1] != s.logic->Counter_invert_reset,
    ensures
        ({
            let v = s.values;
            let bits = s.logic->Counter_bits as nat;
            let modulus = s.logic->Counter_modulus;
            let down = s.flags & 4 != 0 && pin(v, bits + 2int);
            let x = msb_value(v, 2, bits) + if down { -1int } else { 1int };
            let y = if modulus != 0 { (x + modulus) % (modulus as int) } else { x };
            msb_value(chip_step(s).values, 2, bits) == y % (two_pow(bits) as int)
        }),
{
    let v = s.values;
    let bits = s.logic->Counter_bits as nat;
    let next = counter_next(s, bits, s.logic->Counter_modulus);
    let v1 = show(v, 2, bits, next);
    lemma_two_pow_mono(0, bits);
    let u = (next % two_pow(bits) as int) as nat;
    lemma_bits_of_len(u, bits);
    assert(pin(v1, 1) == pin(v, 1));
    assert(chip_step(s).values == v1);
    assert forall|i: int| 0 <= i < bits implies #[trigger] pin(v1, 2 + i) == bits_of(u, bits)[i] by {
        assert(v1[2 + i] == bits_of(u, bits)[2 + i - 2]);
    }
    lemma_msb_bits(v1, 2, u, bits);
    assert(u < two_pow(bits));
    vstd::arithmetic::div_mod::lemma_small_mod(u, two_pow(bits));
}


proof fn lemma_first_high_at(v: Seq<bool>, bits: int, k: int, i: int)
    requires
        0 <= k <= i < bits,
        pin(v, i + 2),
        forall|j: int| k <= j < i ==> !#[trigger] pin(v, j + 2),
    ensures
        first_high(v, bits, k) == i,
    decreases i - k,
{
    if k < i {
        lemma_first_high_at(v, bits, k + 1, i);
    }
}

/// Ring counter (clock pin 0, reset pin 1, outputs 2..2+bits) holding one
/// high output at place `i`: a rising clock, when not inhibited and not
/// reset, moves the high output to the next place, from the last back to
/// the first, and every other output is low.
pub proof fn lemma_ring_moves(s: ChipView, i: int)
    requires
        layout_ok(s),
        s.logic is RingCounter,
        !s.just_loaded,
        0 <= i < s.logic->RingCounter_bits,
        s.values[i + 2],
        forall|j: int| 0 <= j < s.logic->RingCounter_bits && j != i ==> !#[trigger] s.values[j + 2],
        s.values[0] && !s.last_clock,
        !(s.logic->RingCounter_clock_inhibit matches Some(p) && pin(s.values, p as int)),
        s.values[1] == (s.flags & 4 == 0),
    ensures
        ({
            let bits = s.logic->RingCounter_bits as int;
            let next = if i + 1 == bits { 0 } else { i + 1 };
            let out = chip_step(s).values;
            &&& out[next + 2]
            &&& forall|j: int| 0 <= j < bits && j != next ==> !#[trigger] out[j + 2]
        }),
{
    let bits = s.logic->RingCounter_bits as int;
    assert forall|j: int| 0 <= j < i implies !#[trigger] pin(s.values, j + 2) by {
        assert(!s.values[j + 2]);
    }
    lemma_first_high_at(s.values, bits, 0, i);
    let v = s.values;
    let next = if i + 1 == bits { 0 } else { i + 1 };
    assert((i + 1) % bits == next) by {
        if i + 1 < bits {
            vstd::arithmetic::div_mod::lemma_small_mod((i + 1) as nat, bits as nat);
        } else {
            vstd::arithmetic::div_mod::lemma_mod_self_0(bits);
        }
    }
    let v1 = put(v, i + 2, false);
    let v2 = put(v1, next + 2, true);
    assert(pin(v2, 1) == pin(v, 1));
    assert(ring_step(s).values == v2);
}


/// Bit `b` (below 32) of a word, counted from the least significant.
proof fn lemma_word_bit(w: i32, b: usize)
    requires
        b < 32,
    ensures
        word_bit(w, b) == (((w as u32) >> (b as u32)) & 1u32 == 1u32),
{
    let x = w as u32;
    let c = b as u32;
    assert((x & (1u32 << c)) != 0 <==> ((x >> c) & 1u32 == 1u32)) by (bit_vector)
        requires
            c < 32,
    ;
}

/// Sequence generator (clock pin 0, output pin 1): on a rising clock with
/// no reset, while its bits last (or always, when it repeats), the output
/// shows the next bit of the data words, 32 to a word and least significant
/// first, and the position moves on by one, starting over after the last
/// bit.
pub proof fn lemma_seqgen_plays(s: ChipView)
    requires
        layout_ok(s),
        s.logic is SeqGen,
        !(s.flags & 8 != 0 && pin(s.values, 2)),
        s.values[0] && !s.clock_state,
        s.words.len() > 0,
        s.logic->SeqGen_bit_count > 0,
        !(s.bit_position >= s.logic->SeqGen_bit_count && s.flags & 4 != 0),
    ensures
        ({
            let bc = s.logic->SeqGen_bit_count;
            let bp = if s.bit_position >= bc { 0 } else { s.bit_position };
            let t = chip_step(s);
            &&& t.values[1] == (bp / 32 < s.words.len() && ((s.words[(bp / 32) as int] as u32) >> ((bp % 32) as u32))
                & 1u32 == 1u32)
            &&& t.bit_position == bp + 1
        }),
{
    let bc = s.logic->SeqGen_bit_count;
    let bp = if s.bit_position >= bc { 0 } else { s.bit_position };
    if bp / 32 < s.words.len() {
        lemma_word_bit(s.words[(bp / 32) as int], bp % 32);
    }
}

/// Parallel-in shift register (load pin 0, clock 1, output 2, data pins
/// from `data_pin_index`): a rising load without a rising clock stores the
/// data pins, and with flag 2 the output shows the first of them at once.
pub proof fn lemma_piso_loads(s: ChipView)
    requires
        layout_ok(s),
        s.logic is Piso,
        s.values[0] && !s.load_state,
        !(s.values[1] && !s.clock_state),
    ensures
        ({
            let dpi = s.logic->Piso_data_pin_index as int;
            let t = chip_step(s);
            &&& t.data.len() == s.data.len()
            &&& forall|k: int| 0 <= k < s.data.len() ==> #[trigger] t.data[k] == s.values[dpi + k]
            &&& s.flags & 2 != 0 ==> t.values[2] == s.values[dpi]
        }),
{
}


/// A reset sets every pin low but the Q-bar (pin 2) of a D or T flip-flop,
/// which goes high; it forgets the clock, clears the stored bits of latches
/// and parallel-in registers, and starts registers and sequence generators
/// from their first place; the pins and the chip's kind stay.
pub proof fn lemma_reset_clears(s: ChipView)
    ensures
        ({
            let r = reset_state(s);
            let ff = s.logic is DFlipFlop || s.logic is TFlipFlop;
            &&& r.values.len() == s.values.len()
            &&& forall|i: int| 0 <= i < s.values.len() && i != 2 ==> !#[trigger] r.values[i]
            &&& s.values.len() > 2 ==> r.values[2] == ff
            &&& !r.last_clock
            &&& !r.just_loaded
            &&& r.pins == s.pins
            &&& r.logic == s.logic
            &&& r.flags == s.flags
            &&& (s.logic is Latch || s.logic is Piso) ==> r.data.len() == s.data.len() && forall|i: int|
                0 <= i < s.data.len() ==> !#[trigger] r.data[i]
            &&& s.logic is Piso ==> r.data_index == 0 && !r.clock_state && !r.load_state
            &&& s.logic is Sipo ==> !r.clock_state
            &&& s.logic is SeqGen ==> r.bit_position == 0
            &&& s.logic is Counter2 ==> !r.carry
        }),
{
}

/// Taking inputs: every input pin gets its level from `levels`, and every
/// output pin keeps its own.
pub proof fn lemma_inputs_taken(s: ChipView, levels: Seq<bool>)
    ensures
        with_inputs(s, levels).values.len() == s.values.len(),
        forall|i: int|
            0 <= i < s.values.len() ==> #[trigger] with_inputs(s, levels).values[i] == if s.pins[i].output {
                s.values[i]
            } else {
                levels[i]
            },
{
}


/// Synchronous counter (count pins 0..bits, most significant first; data
/// pins bits..2*bits): a low clear makes the count and the ripple-carry
/// output low; otherwise a rising clock with load low copies the data pins
/// into the count, and with load high and both enables high counts one up
/// modulo the modulus (`2^bits` when 0). The ripple carry shows the carry
/// while enable T is high.
#[verifier::spinoff_prover]
pub proof fn lemma_counter2_behaviour(s: ChipView)
    requires
        layout_ok(s),
        s.logic is Counter2,
        step_in_range(s),
    ensures
        ({
            let m = s.logic;
            let v = s.values;
            let bits = m->Counter2_bits as int;
            let out = chip_step(s).values;
            let rising = v[m->Counter2_clk as int] && !s.last_clock;
            let counting = rising && v[m->Counter2_enp as int] && v[m->Counter2_ent as int];
            let rm = if m->Counter2_modulus == 0 { two_pow(bits as nat) as int } else { m->Counter2_modulus as int };
            let x: int = msb_value(v, 0, bits as nat) + 1int;
            let next = if rm > 0 { x % rm } else { x % (-rm) };
            &&& !v[m->Counter2_clr as int] ==> (forall|j: int| 0 <= j < bits ==> !#[trigger] out[j]) && !out[m->Counter2_rco as int]
            &&& v[m->Counter2_clr as int] && rising && !v[m->Counter2_load as int] ==> forall|j: int|
                0 <= j < bits ==> #[trigger] out[j] == v[j + bits]
            &&& v[m->Counter2_clr as int] && counting && v[m->Counter2_load as int] ==> msb_value(out, 0, bits as nat)
                == next % (two_pow(bits as nat) as int)
            &&& out[m->Counter2_rco as int] == (chip_step(s).carry && out[m->Counter2_ent as int])
        }),
{
    let m = s.logic;
    let v = s.values;
    let bits = m->Counter2_bits as nat;
    let rising = v[m->Counter2_clk as int] && !s.last_clock;
    let counting = rising && v[m->Counter2_enp as int] && v[m->Counter2_ent as int];
    if v[m->Counter2_clr as int] && counting && v[m->Counter2_load as int] {
        let rm = real_modulus(bits, m->Counter2_modulus);
        let next = rem_trunc(msb_value(v, 0, bits) + 1int, rm);
        let v1 = show(v, 0, bits, next);
        lemma_two_pow_mono(0, bits);
        let u = (next % two_pow(bits) as int) as nat;
        lemma_bits_of_len(u, bits);
        assert(pin(v1, m->Counter2_load as int) == pin(v, m->Counter2_load as int));
        assert(pin(v1, m->Counter2_clr as int) == pin(v, m->Counter2_clr as int));
        assert forall|i: int| 0 <= i < bits implies #[trigger] pin(v1, 0 + i) == bits_of(u, bits)[i] by {
            assert(v1[i] == bits_of(u, bits)[i - 0]);
        }
        lemma_msb_bits(v1, 0, u, bits);
        assert(u < two_pow(bits));
        vstd::arithmetic::div_mod::lemma_small_mod(u, two_pow(bits));
        let out = chip_step(s).values;
        assert forall|i: int| 0 <= i < bits implies #[trigger] pin(out, 0 + i) == pin(v1, 0 + i) by {
        }
        lemma_msb_same(out, v1, 0, bits);
    }
}

proof fn lemma_msb_same(a: Seq<bool>, b: Seq<bool>, start: int, k: nat)
    requires
        forall|i: int| 0 <= i < k ==> #[trigger] pin(a, start + i) == pin(b, start + i),
    ensures
        msb_value(a, start, k) == msb_value(b, start, k),
    decreases k,
{
    if k > 0 {
        assert(pin(a, start + (k - 1)) == pin(b, start + (k - 1)));
        lemma_msb_same(a, b, start, (k - 1) as nat);
    }
}

} // verus!
