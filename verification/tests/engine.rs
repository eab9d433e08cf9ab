use circuit_engine::analysis::{analyze, Topology};
use circuit_engine::dump::{parse_dump, DumpLine};
use circuit_engine::examples::examples;
use circuit_engine::netlist::ElementTopology;

type Pt = (i32, i32);

fn element(posts: Vec<Pt>) -> ElementTopology {
    let n = posts.len();
    ElementTopology {
        connected_posts: vec![None; n],
        ground_connection: vec![false; n],
        connection: vec![vec![true; n]; n],
        matrix_connection: vec![vec![true; n]; n],
        posts,
        is_ground: false,
        is_independent_voltage: false,
        is_removable_wire: false,
        net_name: None,
        internal_nodes: 0,
        non_linear: false,
        voltage_sources: Vec::new(),
    }
}

fn resistor(x1: i32, y1: i32, x2: i32, y2: i32) -> ElementTopology {
    element(vec![(x1, y1), (x2, y2)])
}

fn voltage(x1: i32, y1: i32, x2: i32, y2: i32) -> ElementTopology {
    let mut e = element(vec![(x1, y1), (x2, y2)]);
    e.is_independent_voltage = true;
    e.voltage_sources = vec![(Some(0), Some(1))];
    e
}

fn wire(x1: i32, y1: i32, x2: i32, y2: i32) -> ElementTopology {
    let mut e = element(vec![(x1, y1), (x2, y2)]);
    e.is_removable_wire = true;
    e.connected_posts = vec![Some((x2, y2)), Some((x1, y1))];
    e
}

fn ground(x1: i32, y1: i32) -> ElementTopology {
    let mut e = element(vec![(x1, y1)]);
    e.is_ground = true;
    e.is_removable_wire = true;
    e.ground_connection = vec![true];
    e
}

fn divider() -> Vec<ElementTopology> {
    vec![
        voltage(0, 100, 0, 0),
        resistor(0, 0, 100, 0),
        resistor(100, 0, 100, 100),
        wire(100, 100, 0, 100),
    ]
}

fn analyzed(elems: &Vec<ElementTopology>) -> Topology {
    match analyze(elems) {
        Ok(t) => t,
        Err(e) => panic!("analysis failed: {}", e.message()),
    }
}

/// Topology of the element records of a dump (two-post elements only).
fn dump_elements(records: &[DumpLine]) -> Vec<ElementTopology> {
    let mut out = Vec::new();
    for r in records {
        if let DumpLine::Element { dump_type, x1, y1, x2, y2, .. } = r {
            let t = *dump_type as u8 as char;
            out.push(match t {
                'v' => voltage(*x1, *y1, *x2, *y2),
                'w' => wire(*x1, *y1, *x2, *y2),
                'g' => ground(*x1, *y1),
                _ => resistor(*x1, *y1, *x2, *y2),
            });
        }
    }
    out
}

#[test]
fn wire_merges_nodes() {
    let c = analyzed(&divider());
    // ground + source+ + mid = 3 nodes (indices 0..=2)
    assert_eq!(c.nodes.len(), 3);
}

#[test]
fn two_grounded_islands() {
    let elems = vec![
        voltage(0, 100, 0, 0),
        resistor(0, 0, 0, 100),
        voltage(200, 100, 200, 0),
        resistor(200, 0, 200, 100),
        ground(0, 100),
        ground(200, 100),
    ];
    let c = analyzed(&elems);
    assert_eq!(c.matrices.len(), 2);
}

#[test]
fn parse_dump_divider() {
    let text = "\
$ 1 0.000005 10 50 5 50
v 0 100 0 0 0 0 40 10 0 0 0.5
r 0 0 100 0 0 1000
r 100 0 100 100 0 1000
w 100 100 0 100 0
";
    let (records, err) = parse_dump(text);
    assert!(err.is_none());
    assert_eq!(records.len(), 5);
    match &records[0] {
        DumpLine::Options { flags, rest } => {
            assert_eq!(*flags, 1);
            let dt: f64 = rest[0].parse().unwrap();
            assert!((dt - 5e-6).abs() < 1e-18);
        },
        other => panic!("expected options, got {:?}", other),
    }
    let c = analyzed(&dump_elements(&records));
    assert_eq!(c.nodes.len(), 3);
}

#[test]
fn parse_dump_skips_scopes() {
    let text = "\
v 176 256 176 80 0 0 40 5 0 0 0.5
r 176 80 336 80 0 180
c 336 80 336 256 0 1e-6 0 0 0
w 176 256 336 256 0
o 2 64 0 4099 5 0.05 0 2 2 3
& 2 0 0.000001 0.000101 Capacitance
";
    let (records, err) = parse_dump(text);
    assert!(err.is_none());
    assert_eq!(records.len(), 4);
    let c = analyzed(&dump_elements(&records));
    assert!(c.nodes.len() >= 2);
}

#[test]
fn examples_parse_and_analyze() {
    for e in examples() {
        let (records, err) = parse_dump(e.dump);
        assert!(err.is_none(), "example {} has a malformed line", e.id);
        let elems = dump_elements(&records);
        assert!(!elems.is_empty(), "example {} has no elements", e.id);
        let c = analyzed(&elems);
        assert!(c.nodes.len() >= 1);
        assert!(c.matrices.len() >= 1);
    }
}

#[test]
fn analysis_repeats_its_numbering() {
    let mut elems = divider();
    elems.push(resistor(300, 0, 300, 100));
    let a = analyzed(&elems);
    let b = analyzed(&elems);
    assert_eq!(a.element_nodes, b.element_nodes);
    assert_eq!(a.nodes.len(), b.nodes.len());
    for (x, y) in a.nodes.iter().zip(b.nodes.iter()) {
        assert_eq!(x.internal, y.internal);
        assert_eq!(x.matrix, y.matrix);
        assert_eq!(x.row, y.row);
        assert_eq!(x.links.len(), y.links.len());
    }
    assert_eq!(a.unconnected, b.unconnected);
    assert!(!a.unconnected.is_empty());
    assert_eq!(a.matrices.len(), b.matrices.len());
    for (x, y) in a.matrices.iter().zip(b.matrices.iter()) {
        assert_eq!(x.node_ids, y.node_ids);
        assert_eq!(x.size, y.size);
    }
    assert_eq!(a.voltage_sources.len(), b.voltage_sources.len());
    for (x, y) in a.voltage_sources.iter().zip(b.voltage_sources.iter()) {
        assert_eq!((x.matrix, x.row, x.n1, x.n2), (y.matrix, y.row, y.n1, y.n2));
    }
}
