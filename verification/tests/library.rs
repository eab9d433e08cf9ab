use circuit_engine::analysis::{analyze, Topology};
use circuit_engine::dump::{int_text, parse_dump, parse_i, parse_i32, DumpLine};
use circuit_engine::error::SimError;
use circuit_engine::examples::{by_id, examples};
use circuit_engine::geom::{analog_chip_posts, dsign, pot_wiper_axis, pot_wiper_offset, unescape};
use circuit_engine::kinds::{gate_kind, ElementKind, GateFn};
use circuit_engine::logic::{gate_output, input_tag, Selector};
use circuit_engine::netlist::ElementTopology;
use circuit_engine::segments::decoder_segment;
use circuit_engine::text::json_escape;
use circuit_engine::union_find::UnionFind;

type Pt = (i32, i32);

fn part(posts: Vec<Pt>) -> ElementTopology {
    let n = posts.len();
    ElementTopology {
        connected_posts: vec![None; n],
        ground_connection: vec![false; n],
        connection: vec![vec![true; n]; n],
        matrix_connection: vec![vec![true; n]; n],
        posts,
        is_ground: false,
        is_independent_voltage: false,
        is_removable_wire: false,
        net_name: None,
        internal_nodes: 0,
        non_linear: false,
        voltage_sources: Vec::new(),
    }
}

fn source(a: Pt, b: Pt) -> ElementTopology {
    let mut e = part(vec![a, b]);
    e.is_independent_voltage = true;
    e.voltage_sources = vec![(Some(0), Some(1))];
    e
}

fn earth(a: Pt) -> ElementTopology {
    let mut e = part(vec![a]);
    e.is_ground = true;
    e.is_removable_wire = true;
    e.ground_connection = vec![true];
    e
}

fn label(a: Pt, name: &str) -> ElementTopology {
    let mut e = part(vec![a]);
    e.net_name = Some(name.to_string());
    e.connection = vec![vec![false]];
    e.matrix_connection = vec![vec![false]];
    e
}

fn topo(elems: &Vec<ElementTopology>) -> Topology {
    match analyze(elems) {
        Ok(t) => t,
        Err(e) => panic!("analysis failed: {}", e.message()),
    }
}

#[test]
fn union_find_joins_sets() {
    let mut uf = UnionFind::new();
    let a = uf.find((0, 0));
    assert_eq!(a, (0, 0));
    uf.union((0, 0), (5, 5));
    uf.union((7, 7), (5, 5));
    assert_eq!(uf.find((7, 7)), uf.find((0, 0)));
    assert_ne!(uf.find((9, 9)), uf.find((0, 0)));
}

#[test]
fn empty_circuit_is_an_error() {
    let r = analyze(&Vec::new());
    assert!(matches!(r, Err(SimError::EmptyCircuit)));
}

#[test]
fn lone_resistor_floats() {
    let t = topo(&vec![part(vec![(0, 0), (100, 0)])]);
    // no ground and no source: node 0 is unused, both posts get nodes 1 and 2
    assert_eq!(t.nodes.len(), 3);
    assert_eq!(t.element_nodes[0], vec![1, 2]);
    // node 1 floats; node 2 is reached from it through the resistor
    assert_eq!(t.unconnected, vec![1]);
    assert_eq!(t.matrices.len(), 1);
    assert_eq!(t.matrices[0].node_ids, vec![1, 2]);
}

#[test]
fn source_post_becomes_ground_without_ground_symbol() {
    let t = topo(&vec![source((0, 100), (0, 0)), part(vec![(0, 0), (0, 100)])]);
    assert_eq!(t.element_nodes[0], vec![0, 1]);
    assert_eq!(t.element_nodes[1], vec![1, 0]);
    assert_eq!(t.voltage_sources.len(), 1);
    let vs = t.voltage_sources[0];
    assert_eq!((vs.n1, vs.n2, vs.matrix, vs.row), (0, 1, 0, 1));
    assert_eq!(t.matrices[0].node_count, 1);
    assert_eq!(t.matrices[0].size, 2);
    assert!(t.unconnected.is_empty());
}

#[test]
fn labels_join_nets() {
    let elems = vec![
        earth((0, 0)),
        part(vec![(0, 0), (10, 0)]),
        label((10, 0), "out"),
        label((50, 50), "out"),
        part(vec![(50, 50), (0, 0)]),
    ];
    let t = topo(&elems);
    assert_eq!(t.element_nodes[1][1], t.element_nodes[4][0]);
    assert_eq!(t.element_nodes[1][0], 0);
    assert_eq!(t.nodes.len(), 2);
}

#[test]
fn internal_nodes_are_fresh_and_linked() {
    let mut d = part(vec![(0, 0), (10, 0)]);
    d.internal_nodes = 1;
    d.non_linear = true;
    d.connection = vec![vec![true, true]; 3];
    d.matrix_connection = vec![vec![true; 3]; 3];
    let t = topo(&vec![earth((0, 0)), d]);
    assert_eq!(t.element_nodes[1], vec![0, 1, 2]);
    assert!(t.nodes[2].internal);
    assert!(!t.nodes[1].internal);
    assert!(t.nonlinear);
    assert_eq!(t.nodes[2].links.len(), 1);
    assert_eq!((t.nodes[2].links[0].elm, t.nodes[2].links[0].post), (1, 2));
    assert_eq!(t.nodes[0].links.len(), 2);
}

#[test]
fn separate_systems_get_rows_in_order() {
    let elems = vec![
        earth((0, 0)),
        part(vec![(0, 0), (10, 0)]),
        part(vec![(10, 0), (20, 0)]),
        earth((100, 0)),
        part(vec![(100, 0), (110, 0)]),
    ];
    let t = topo(&elems);
    // both ground symbols are node 0; nodes 1 and 2 form one system and
    // node 3, coupled to the others only through ground, another
    assert_eq!(t.matrices.len(), 2);
    assert_eq!(t.matrices[0].node_ids, vec![1, 2]);
    assert_eq!(t.matrices[1].node_ids, vec![3]);
    assert_eq!(t.nodes[3].row, 0);
    assert_eq!(t.nodes[3].matrix, Some(1));
    assert_eq!(t.nodes[2].row, 1);
    assert_eq!(t.nodes[0].matrix, None);
}

#[test]
fn dsign_follows_vertical_then_horizontal() {
    assert_eq!(dsign((0, 0), (0, 5)), 1);
    assert_eq!(dsign((0, 5), (0, 0)), -1);
    assert_eq!(dsign((3, 0), (0, 0)), -1);
    assert_eq!(dsign((0, 0), (0, 0)), 0);
}

#[test]
fn unescape_resolves_escapes() {
    assert_eq!(unescape("a\\sb\\p\\q\\h\\a\\n\\r\\x"), "a b+=#&\n\rx");
    assert_eq!(unescape("\\0"), "");
    assert_eq!(unescape("plain"), "plain");
    assert_eq!(unescape("end\\"), "end\\");
}

#[test]
fn json_escape_quotes_and_backslashes() {
    assert_eq!(json_escape("a\"b\\c"), "a\\\"b\\\\c");
    assert_eq!(json_escape("none"), "none");
}

#[test]
fn analog_chip_posts_full_and_half_size() {
    assert_eq!(analog_chip_posts((10, 20), 0), vec![(10, 20), (10, 52), (106, 20), (106, 52)]);
    assert_eq!(analog_chip_posts((10, 20), 1), vec![(10, 20), (10, 36), (58, 20), (58, 36)]);
}

#[test]
fn decoder_segments_of_digits() {
    let eight: Vec<bool> = (0..7).map(|i| decoder_segment(7, 8, i)).collect();
    assert_eq!(eight, vec![true; 7]);
    assert!(!decoder_segment(7, 0, 6));
    assert!(decoder_segment(7, 1, 1) && !decoder_segment(7, 1, 0));
    assert_eq!(decoder_segment(14, 99, 4), decoder_segment(14, 15, 4));
    assert!(decoder_segment(16, 0, 0));
}

#[test]
fn parse_i32_follows_rust() {
    let p = |s: &str| parse_i32(&s.chars().collect());
    assert_eq!(p("+12"), Some(12));
    assert_eq!(p("-2147483648"), Some(i32::MIN));
    assert_eq!(p("2147483647"), Some(i32::MAX));
    assert_eq!(p("2147483648"), None);
    assert_eq!(p(""), None);
    assert_eq!(p("-"), None);
    assert_eq!(p("1e3"), None);
}

#[test]
fn int_text_is_decimal() {
    assert_eq!(int_text(0), "0");
    assert_eq!(int_text(-120), "-120");
    assert_eq!(int_text(i32::MIN), "-2147483648");
}

#[test]
fn parse_i_reads_and_advances() {
    let toks: Vec<String> = vec!["7".into(), "x".into()];
    let mut pos = 0;
    assert!(matches!(parse_i(&toks, &mut pos, "a"), Ok(7)));
    assert_eq!(pos, 1);
    match parse_i(&toks, &mut pos, "b") {
        Err(SimError::Parse(m)) => assert_eq!(m, "missing b"),
        _ => panic!("expected error"),
    }
    assert_eq!(pos, 2);
    assert!(parse_i(&toks, &mut pos, "c").is_err());
    assert_eq!(pos, 2);
}

fn first_error(text: &str) -> String {
    match parse_dump(text).1 {
        Some(e) => e.message(),
        None => String::new(),
    }
}

#[test]
fn parse_dump_errors() {
    assert_eq!(first_error("r 0 0"), "parse error: missing x2");
    assert_eq!(first_error("x 0 0 1 1 0"), "parse error: unsupported element dump type 120");
    assert_eq!(first_error("12a 0"), "parse error: bad dump type 12a");
    assert_eq!(first_error("ab 0"), "parse error: unrecognized dump type ab");
    assert_eq!(first_error("$"), "parse error: missing option-flags");
    assert_eq!(first_error("34 whatever\n  \nh 1 2"), "");
}

#[test]
fn parse_dump_stops_at_first_error() {
    let (records, err) = parse_dump("w 0 0 1 1 0\nq 1 2 3 4 5\nw 1 1 2 2 0\n");
    assert_eq!(records.len(), 1);
    assert!(err.is_some());
    match &records[0] {
        DumpLine::Element { dump_type, x2, y2, flags, rest, .. } => {
            assert_eq!((*dump_type, *x2, *y2, *flags), (119, 1, 1, 0));
            assert!(rest.is_empty());
        },
        _ => panic!("expected element"),
    }
}

#[test]
fn examples_are_found_by_id() {
    assert_eq!(examples().len(), 6);
    let e = by_id("rc").unwrap();
    assert_eq!(e.name, "RC step");
    assert!(e.dump.starts_with("$ 0 0.000001"));
    assert!(by_id("nope").is_none());
    for ex in examples() {
        let (records, err) = parse_dump(ex.dump);
        assert!(err.is_none(), "{}", ex.id);
        assert!(!records.is_empty());
    }
}

#[test]
fn gates_compute_their_function() {
    let ins = vec![true, false, true];
    assert!(!gate_output(GateFn::And, false, &ins));
    assert!(gate_output(GateFn::And, true, &ins));
    assert!(gate_output(GateFn::Or, false, &ins));
    assert!(!gate_output(GateFn::Xor, false, &ins));
    assert!(gate_output(GateFn::Xor, true, &ins));
    assert_eq!(gate_kind(GateFn::Or, true), ElementKind::NorGate);
}

#[test]
fn selector_wraps_and_clamps() {
    let mut s = Selector { position: 0, pos_count: 3 };
    s.toggle();
    s.toggle();
    assert_eq!(s.position, 2);
    s.toggle();
    assert_eq!(s.position, 0);
    s.set_position(9);
    assert_eq!(s.position, 2);
    s.set_position(-4);
    assert_eq!(s.position, 0);
    assert_eq!(input_tag(0, 0), "L");
    assert_eq!(input_tag(0, 1), "H");
    assert_eq!(input_tag(1, 2), "2");
}

#[test]
fn kind_names() {
    assert_eq!(ElementKind::Resistor.name(), "resistor");
    assert_eq!(ElementKind::Voltage.name(), "voltage source");
}

#[test]
fn error_messages() {
    assert_eq!(SimError::SingularMatrix.message(), "Singular matrix!");
    assert_eq!(SimError::ConvergenceFailed.message(), "Convergence failed!");
    assert_eq!(SimError::EmptyCircuit.message(), "Empty circuit");
    assert_eq!(SimError::Parse("x".into()).message(), "parse error: x");
    assert_eq!(SimError::Invalid("bad".into()).message(), "bad");
}

#[test]
fn pot_wiper_offsets() {
    assert_eq!(pot_wiper_offset((0, 0), (100, 0), 0), 8);
    assert_eq!(pot_wiper_offset((0, 0), (100, 0), 4), -8);
    assert_eq!(pot_wiper_offset((0, 0), (0, 50), 0), 8);
    assert_eq!(pot_wiper_offset((0, 0), (30, 10), 0), -10);
    assert_eq!(pot_wiper_offset((0, 0), (30, 10), 2), 30);
    assert_eq!(pot_wiper_offset((30, 0), (0, 10), 0), 10);
}

#[test]
fn unescape_works_on_characters() {
    assert_eq!(unescape("\u{e9}"), "\u{e9}");
    assert_eq!(unescape("caf\u{e9} \u{fc}ber"), "caf\u{e9} \u{fc}ber");
    assert_eq!(unescape("\\\u{e9}"), "\u{e9}");
    assert_eq!(unescape("\u{fc}\\s"), "\u{fc} ");
}

fn element_records(text: &str) -> usize {
    let (records, err) = parse_dump(text);
    assert!(err.is_none());
    records.iter().filter(|r| matches!(r, DumpLine::Element { .. })).count()
}

#[test]
fn dump_element_lines_counted() {
    assert_eq!(element_records(""), 0);
    assert_eq!(element_records("34 x\n% y"), 0);
    assert_eq!(element_records("$ 1 0.1\nr 0 0 1 1 0 5\no 1\n\n\" m\nw 1 1 2 2 0\n38 z\n"), 2);
}

#[test]
fn kind_names_are_distinct_and_trimmed() {
    let kinds = [
        ElementKind::Resistor,
        ElementKind::Capacitor,
        ElementKind::Voltage,
        ElementKind::Rail,
        ElementKind::Switch,
        ElementKind::SwitchSpdt,
        ElementKind::Vcvs,
        ElementKind::Vccs,
        ElementKind::Ccvs,
        ElementKind::Cccs,
        ElementKind::HalfAdder,
        ElementKind::FullAdder,
        ElementKind::Inverter,
        ElementKind::InvertingSchmitt,
    ];
    for (i, a) in kinds.iter().enumerate() {
        let n = a.name();
        assert!(!n.is_empty());
        assert_eq!(n, n.trim());
        for b in kinds.iter().skip(i + 1) {
            assert_ne!(n, b.name());
        }
    }
}

#[test]
fn errors_compare_equal() {
    let (_, err) = parse_dump("ab 0");
    assert_eq!(err, Some(SimError::Parse("unrecognized dump type ab".to_string())));
    assert_ne!(SimError::EmptyCircuit, SimError::SingularMatrix);
}

#[test]
fn pot_wiper_on_axis_bodies() {
    // vertical body, wiper one grid step across the middle
    assert_eq!(pot_wiper_axis((0, 0), (0, 64), 0), Some((8, 32)));
    assert_eq!(pot_wiper_axis((0, 0), (0, 64), 4), Some((-8, 32)));
    assert_eq!(pot_wiper_axis((0, 64), (0, 0), 0), Some((-8, 32)));
    // horizontal body
    assert_eq!(pot_wiper_axis((0, 0), (64, 0), 0), Some((32, -8)));
    assert_eq!(pot_wiper_axis((64, 0), (0, 0), 4), Some((32, -8)));
    // odd sums round half away from zero
    assert_eq!(pot_wiper_axis((0, 0), (3, 0), 0), Some((2, -8)));
    assert_eq!(pot_wiper_axis((0, 0), (-3, 0), 0), Some((-2, 8)));
    // flag 2 takes the body's length as the offset
    assert_eq!(pot_wiper_axis((0, 0), (0, 64), 2), Some((-64, 32)));
    assert_eq!(pot_wiper_axis((0, 0), (64, 0), 2), Some((32, -8)));
    // a single point stays put; slanted or far bodies are not handled
    assert_eq!(pot_wiper_axis((5, 5), (5, 5), 0), Some((5, 5)));
    assert_eq!(pot_wiper_axis((0, 0), (16, 16), 0), None);
    assert_eq!(pot_wiper_axis((0, 0), (0, 0x200000), 0), None);
}
