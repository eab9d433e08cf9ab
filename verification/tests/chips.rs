use circuit_engine::chip::ChipElm;

/// Drives the input pins (`levels[i]` for every pin; output entries are
/// ignored) and evaluates the chip once.
fn drive(c: &mut ChipElm, levels: &[bool]) {
    let mut v = vec![false; c.pin_count()];
    for (i, b) in levels.iter().enumerate() {
        v[i] = *b;
    }
    c.start_iteration(&v);
}

fn levels(c: &ChipElm) -> Vec<bool> {
    (0..c.pin_count()).map(|i| c.level(i)).collect()
}

#[test]
fn d_flip_flop_stores_on_rising_edge() {
    let mut c = ChipElm::d_flip_flop(0, false);
    assert_eq!(c.pin_count(), 4);
    // first evaluation after loading only clears the loaded mark
    drive(&mut c, &[true, false, false, false]);
    assert!(!c.level(1) && c.level(2));
    drive(&mut c, &[true, false, false, true]);
    assert!(c.level(1) && !c.level(2));
    // clock stays high: D changes are ignored
    drive(&mut c, &[false, false, false, true]);
    assert!(c.level(1));
    drive(&mut c, &[false, false, false, false]);
    drive(&mut c, &[false, false, false, true]);
    assert!(!c.level(1) && c.level(2));
}

#[test]
fn d_flip_flop_set_and_reset() {
    let mut c = ChipElm::d_flip_flop(4, false);
    assert_eq!(c.pin_count(), 6);
    drive(&mut c, &[false; 6]);
    drive(&mut c, &[false, false, false, false, false, true]);
    assert!(c.level(1) && !c.level(2));
    drive(&mut c, &[false, false, false, false, true, false]);
    assert!(!c.level(1) && c.level(2));
}

#[test]
fn jk_flip_flop_toggles_on_falling_edge() {
    let mut c = ChipElm::jk_flip_flop(0, false);
    drive(&mut c, &[true, true, true, false, false]);
    drive(&mut c, &[true, true, true, false, false]);
    assert!(!c.level(3));
    drive(&mut c, &[true, false, true, false, false]);
    assert!(c.level(3) && !c.level(4));
    drive(&mut c, &[true, true, true, false, false]);
    drive(&mut c, &[true, false, true, false, false]);
    assert!(!c.level(3) && c.level(4));
}

#[test]
fn t_flip_flop_toggles() {
    let mut c = ChipElm::t_flip_flop(0, false);
    drive(&mut c, &[true, false, false, true]);
    assert!(c.level(1));
    drive(&mut c, &[true, false, false, false]);
    drive(&mut c, &[true, false, false, true]);
    assert!(!c.level(1) && c.level(2));
}

#[test]
fn adders_add() {
    let mut h = ChipElm::half_adder(0);
    drive(&mut h, &[false, false, true, true]);
    assert!(!h.level(0) && h.level(1));
    // 2-bit adder: pins 0..2 = A (LSB first), 2..4 = B, 4..6 = sum, 6 = cin, 7 = cout
    let mut f = ChipElm::full_adder(0, 2);
    assert_eq!(f.pin_count(), 8);
    // A = 3, B = 1, cin = 1: 5 = 0b101
    drive(&mut f, &[true, true, true, false, false, false, true, false]);
    assert_eq!(levels(&f)[4..6].to_vec(), vec![true, false]);
    assert!(f.level(7));
}

#[test]
fn latch_loads_on_edge_and_sets() {
    let mut c = ChipElm::latch(0, 2, &vec![]);
    assert_eq!(c.pin_count(), 5);
    drive(&mut c, &[true, false, false, false, true]);
    assert!(c.level(2) && !c.level(3));
    // load stays high: no new load on level
    drive(&mut c, &[false, true, false, false, true]);
    assert!(c.level(2) && !c.level(3));
    let mut s = ChipElm::latch(16, 2, &vec![]);
    drive(&mut s, &[false, false, false, false, false, true]);
    assert!(s.level(2) && s.level(3));
}

#[test]
fn mux_selects_and_demux_routes() {
    let mut m = ChipElm::multiplexer(0, 1);
    // data 0, data 1, select, output
    drive(&mut m, &[false, true, true, false]);
    assert!(m.level(3));
    drive(&mut m, &[false, true, false, false]);
    assert!(!m.level(3));
    let mut d = ChipElm::demultiplexer(0, 2);
    assert_eq!(d.pin_count(), 7);
    // outputs 0..4, select 4..6 (LSB first), input 6; select 2
    drive(&mut d, &[false, false, false, false, false, true, true]);
    assert_eq!(levels(&d)[0..4].to_vec(), vec![false, false, true, false]);
}

#[test]
fn counter_counts_and_wraps() {
    let mut c = ChipElm::counter(0, 2, &vec![], false, 3);
    assert_eq!(c.pin_count(), 4);
    // clock, reset (active high: keep low), outputs msb, lsb
    for expected in [[false, true], [true, false], [false, false]] {
        drive(&mut c, &[false, false]);
        drive(&mut c, &[true, false]);
        assert_eq!(levels(&c)[2..4].to_vec(), expected.to_vec());
    }
    drive(&mut c, &[false, false]);
    drive(&mut c, &[true, false]);
    assert_eq!(levels(&c)[2..4].to_vec(), vec![false, true]);
    drive(&mut c, &[true, true]);
    assert_eq!(levels(&c)[2..4].to_vec(), vec![false, false]);
}

#[test]
fn synchronous_counter_loads_and_carries() {
    let mut c = ChipElm::counter2(0, 2, &vec![], 0);
    assert_eq!(c.pin_count(), 10);
    // q1 q0 | d1 d0 | clk clr enp rco load ent
    drive(&mut c, &[false, false, true, true, false, true, true, false, false, true]);
    drive(&mut c, &[false, false, true, true, true, true, true, false, false, true]);
    assert!(c.level(0) && c.level(1));
    assert!(c.level(7));
    drive(&mut c, &[false, false, false, false, false, false, true, false, true, true]);
    assert!(!c.level(0) && !c.level(1) && !c.level(7));
}

#[test]
fn ring_counter_moves_its_bit() {
    let mut c = ChipElm::ring_counter(4, 3, &vec![true, false, false]);
    // first evaluation after loading only clears the loaded mark
    drive(&mut c, &[false, false]);
    drive(&mut c, &[true, false]);
    assert_eq!(levels(&c)[2..5].to_vec(), vec![false, true, false]);
    drive(&mut c, &[false, false]);
    drive(&mut c, &[true, false]);
    drive(&mut c, &[false, false]);
    drive(&mut c, &[true, false]);
    assert_eq!(levels(&c)[2..5].to_vec(), vec![true, false, false]);
}

#[test]
fn shift_registers_shift() {
    let mut s = ChipElm::sipo(0, 3, &vec![]);
    drive(&mut s, &[true, true]);
    drive(&mut s, &[false, false]);
    drive(&mut s, &[false, true]);
    assert_eq!(levels(&s)[2..5].to_vec(), vec![false, true, false]);
    let mut p = ChipElm::piso(0, 3, vec![]);
    assert_eq!(p.pin_count(), 6);
    // load 1 0 1
    drive(&mut p, &[true, false, false, true, false, true]);
    drive(&mut p, &[false, true, false, false, false, false]);
    assert!(p.level(2));
    drive(&mut p, &[false, false]);
    drive(&mut p, &[false, true]);
    assert!(!p.level(2));
    drive(&mut p, &[false, false]);
    drive(&mut p, &[false, true]);
    assert!(p.level(2));
}

#[test]
fn sequence_generator_plays_bits() {
    let mut g = ChipElm::seq_gen(0, 3, vec![0b101]);
    let mut seen = Vec::new();
    for _ in 0..4 {
        drive(&mut g, &[false]);
        drive(&mut g, &[true]);
        seen.push(g.level(1));
    }
    assert_eq!(seen, vec![true, false, true, true]);
    let mut once = ChipElm::seq_gen(4, 1, vec![1]);
    drive(&mut once, &[true]);
    drive(&mut once, &[false]);
    drive(&mut once, &[true]);
    assert!(!once.level(1));
}

#[test]
fn decoder_shows_digits() {
    let mut d = ChipElm::seven_seg_decoder(0, 0);
    assert_eq!(d.pin_count(), 11);
    // digit 1 = 0b0001
    let mut ins = vec![false; 11];
    ins[10] = true;
    d.start_iteration(&ins);
    assert_eq!(levels(&d)[0..7].to_vec(), vec![false, true, true, false, false, false, false]);
}

#[test]
fn display_and_reset() {
    let s = ChipElm::seven_seg(0, 7, 0, 0);
    assert_eq!(s.pin_count(), 7);
    assert_eq!(s.voltage_source_count(), 0);
    let mut c = ChipElm::d_flip_flop(0, true);
    assert!(c.level(1));
    assert_eq!(c.voltage_source_count(), 2);
    assert_eq!(c.output_pin(1), Some(2));
    assert!(c.has_ground_connection(1) && !c.has_ground_connection(0));
    c.reset();
    assert!(!c.level(1) && c.level(2));
}

#[test]
fn counter_of_31_bits_counts() {
    let mut state = vec![true; 30];
    state.push(false);
    let mut c = ChipElm::counter(0, 31, &state, false, 0);
    assert_eq!(c.pin_count(), 33);
    let mut v = vec![false; 33];
    v[0] = true;
    c.start_iteration(&v);
    assert!((2..33).all(|i| c.level(i)));
}
