//! Element kinds and the small enums that select an element's variant.
use vstd::prelude::*;

verus! {

/// Schematic / inspector kind of an element.
#[derive(Clone, Copy, Debug, PartialEq, Eq, Structural)]
pub enum ElementKind {
    Resistor,
    Capacitor,
    Inductor,
    Voltage,
    Rail,
    Current,
    Diode,
    Zener,
    Led,
    Wire,
    Ground,
    Switch,
    SwitchSpdt,
    LabeledNode,
    Pot,
    Probe,
    Output,
    TestPoint,
    Ammeter,
    OpAmp,
    Vcvs,
    Vccs,
    Transistor,
    Mosfet,
    Jfet,
    Transformer,
    TappedTransformer,
    AnalogSwitch,
    AnalogSwitchSpdt,
    Gyrator,
    Fuse,
    SparkGap,
    Memristor,
    Ldr,
    Thermistor,
    Relay,
    Schmitt,
    InvertingSchmitt,
    Ccvs,
    Cccs,
    Ccii,
    Varactor,
    Crystal,
    Sweep,
    AmSource,
    FmSource,
    Antenna,
    LogicInput,
    LogicOutput,
    Inverter,
    AndGate,
    NandGate,
    OrGate,
    NorGate,
    XorGate,
    XnorGate,
    DFlipFlop,
    JkFlipFlop,
    TFlipFlop,
    HalfAdder,
    FullAdder,
    Latch,
    Multiplexer,
    Demultiplexer,
}

/// Display name of each element kind.
pub open spec fn kind_name(k: ElementKind) -> Seq<char> {
    match k {
        ElementKind::Resistor => "resistor"@,
        ElementKind::Capacitor => "capacitor"@,
        ElementKind::Inductor => "inductor"@,
        ElementKind::Voltage => "voltage source"@,
        ElementKind::Rail => "voltage rail"@,
        ElementKind::Current => "current source"@,
        ElementKind::Diode => "diode"@,
        ElementKind::Zener => "zener"@,
        ElementKind::Led => "LED"@,
        ElementKind::Wire => "wire"@,
        ElementKind::Ground => "ground"@,
        ElementKind::Switch => "switch"@,
        ElementKind::SwitchSpdt => "SPDT switch"@,
        ElementKind::LabeledNode => "labeled node"@,
        ElementKind::Pot => "potentiometer"@,
        ElementKind::Probe => "probe"@,
        ElementKind::Output => "output"@,
        ElementKind::TestPoint => "test point"@,
        ElementKind::Ammeter => "ammeter"@,
        ElementKind::OpAmp => "op-amp"@,
        ElementKind::Vcvs => "VCVS"@,
        ElementKind::Vccs => "VCCS"@,
        ElementKind::Transistor => "transistor"@,
        ElementKind::Mosfet => "MOSFET"@,
        ElementKind::Jfet => "JFET"@,
        ElementKind::Transformer => "transformer"@,
        ElementKind::TappedTransformer => "tapped transformer"@,
        ElementKind::AnalogSwitch => "analog switch"@,
        ElementKind::AnalogSwitchSpdt => "analog SPDT"@,
        ElementKind::Gyrator => "gyrator"@,
        ElementKind::Fuse => "fuse"@,
        ElementKind::SparkGap => "spark gap"@,
        ElementKind::Memristor => "memristor"@,
        ElementKind::Ldr => "photoresistor"@,
        ElementKind::Thermistor => "thermistor"@,
        ElementKind::Relay => "relay"@,
        ElementKind::Schmitt => "Schmitt trigger"@,
        ElementKind::InvertingSchmitt => "inverting Schmitt"@,
        ElementKind::Ccvs => "CCVS"@,
        ElementKind::Cccs => "CCCS"@,
        ElementKind::Ccii => "CCII"@,
        ElementKind::Varactor => "varactor"@,
        ElementKind::Crystal => "crystal"@,
        ElementKind::Sweep => "AC sweep"@,
        ElementKind::AmSource => "AM source"@,
        ElementKind::FmSource => "FM source"@,
        ElementKind::Antenna => "antenna"@,
        ElementKind::LogicInput => "logic input"@,
        ElementKind::LogicOutput => "logic output"@,
        ElementKind::Inverter => "inverter"@,
        ElementKind::AndGate => "AND gate"@,
        ElementKind::NandGate => "NAND gate"@,
        ElementKind::OrGate => "OR gate"@,
        ElementKind::NorGate => "NOR gate"@,
        ElementKind::XorGate => "XOR gate"@,
        ElementKind::XnorGate => "XNOR gate"@,
        ElementKind::DFlipFlop => "D flip-flop"@,
        ElementKind::JkFlipFlop => "JK flip-flop"@,
        ElementKind::TFlipFlop => "T flip-flop"@,
        ElementKind::HalfAdder => "half adder"@,
        ElementKind::FullAdder => "adder"@,
        ElementKind::Latch => "latch"@,
        ElementKind::Multiplexer => "multiplexer"@,
        ElementKind::Demultiplexer => "demultiplexer"@,
    }
}

/// An ASCII letter.
pub open spec fn is_letter(c: char) -> bool {
    ('a' <= c <= 'z') || ('A' <= c <= 'Z')
}

/// A number that tells the kind names apart: built from the length and the
/// first and third characters.
spec fn name_code(s: Seq<char>) -> int {
    s.len() * 0x200000 * 0x200000 + (s[0] as int) * 0x200000 + (s[2] as int)
}

/// The kind whose name has code `c`.
spec fn kind_of_code(c: int) -> Option<ElementKind> {
    if c == 35184611164275 {
        Some(ElementKind::Resistor)
    } else if c == 39582626218096 {
        Some(ElementKind::Capacitor)
    } else if c == 35184592289892 {
        Some(ElementKind::Inductor)
    } else if c == 61572898619500 {
        Some(ElementKind::Voltage)
    } else if c == 52776805597292 {
        Some(ElementKind::Rail)
    } else if c == 61572858773618 {
        Some(ElementKind::Current)
    } else if c == 21990442270831 {
        Some(ElementKind::Diode)
    } else if c == 21990488408174 {
        Some(ElementKind::Zener)
    } else if c == 13194298916932 {
        Some(ElementKind::Led)
    } else if c == 17592435605618 {
        Some(ElementKind::Wire)
    } else if c == 26388495073391 {
        Some(ElementKind::Ground)
    } else if c == 26388520239209 {
        Some(ElementKind::Switch)
    } else if c == 48378685685828 {
        Some(ElementKind::SwitchSpdt)
    } else if c == 52776784625762 {
        Some(ElementKind::LabeledNode)
    } else if c == 57174839525492 {
        Some(ElementKind::Pot)
    } else if c == 21990467436655 {
        Some(ElementKind::Probe)
    } else if c == 26388511850612 {
        Some(ElementKind::Output)
    } else if c == 43980708380787 {
        Some(ElementKind::TestPoint)
    } else if c == 30786529001581 {
        Some(ElementKind::Ammeter)
    } else if c == 26388511850541 {
        Some(ElementKind::OpAmp)
    } else if c == 17592366399574 {
        Some(ElementKind::Vcvs)
    } else if c == 17592366399555 {
        Some(ElementKind::Vccs)
    } else if c == 43980708380769 {
        Some(ElementKind::Transistor)
    } else if c == 26388440547411 {
        Some(ElementKind::Mosfet)
    } else if c == 17592341233733 {
        Some(ElementKind::Jfet)
    } else if c == 48378754891873 {
        Some(ElementKind::Transformer)
    } else if c == 79165080469616 {
        Some(ElementKind::TappedTransformer)
    } else if c == 57174808068193 {
        Some(ElementKind::AnalogSwitch)
    } else if c == 48378715045985 {
        Some(ElementKind::AnalogSwitchSpdt)
    } else if c == 30786541584498 {
        Some(ElementKind::Gyrator)
    } else if c == 17592399954035 {
        Some(ElementKind::Fuse)
    } else if c == 39582659772513 {
        Some(ElementKind::SparkGap)
    } else if c == 39582647189613 {
        Some(ElementKind::Memristor)
    } else if c == 57174839525487 {
        Some(ElementKind::Ldr)
    } else if c == 43980708380773 {
        Some(ElementKind::Thermistor)
    } else if c == 21990471630956 {
        Some(ElementKind::Relay)
    } else if c == 65970871730280 {
        Some(ElementKind::Schmitt)
    } else if c == 74767010889846 {
        Some(ElementKind::InvertingSchmitt)
    } else if c == 17592326553686 {
        Some(ElementKind::Ccvs)
    } else if c == 17592326553667 {
        Some(ElementKind::Cccs)
    } else if c == 17592326553673 {
        Some(ElementKind::Ccii)
    } else if c == 35184619552882 {
        Some(ElementKind::Varactor)
    } else if c == 30786533195897 {
        Some(ElementKind::Crystal)
    } else if c == 35184508403744 {
        Some(ElementKind::Sweep)
    } else if c == 39582554914848 {
        Some(ElementKind::AmSource)
    } else if c == 39582565400608 {
        Some(ElementKind::FmSource)
    } else if c == 30786529001588 {
        Some(ElementKind::Antenna)
    } else if c == 48378738114663 {
        Some(ElementKind::LogicInput)
    } else if c == 52776784625767 {
        Some(ElementKind::LogicOutput)
    } else if c == 35184592289910 {
        Some(ElementKind::Inverter)
    } else if c == 35184508403780 {
        Some(ElementKind::AndGate)
    } else if c == 39582582177870 {
        Some(ElementKind::NandGate)
    } else if c == 30786491252768 {
        Some(ElementKind::OrGate)
    } else if c == 35184535666770 {
        Some(ElementKind::NorGate)
    } else if c == 35184556638290 {
        Some(ElementKind::XorGate)
    } else if c == 39582603149391 {
        Some(ElementKind::XnorGate)
    } else if c == 48378654228582 {
        Some(ElementKind::DFlipFlop)
    } else if c == 52776713322528 {
        Some(ElementKind::JkFlipFlop)
    } else if c == 48378687783014 {
        Some(ElementKind::TFlipFlop)
    } else if c == 43980683214956 {
        Some(ElementKind::HalfAdder)
    } else if c == 21990435979364 {
        Some(ElementKind::FullAdder)
    } else if c == 21990459048052 {
        Some(ElementKind::Latch)
    } else if c == 48378740211820 {
        Some(ElementKind::Multiplexer)
    } else if c == 57174814359661 {
        Some(ElementKind::Demultiplexer)
    } else {
        None
    }
}

proof fn lemma_kind_name_code(k: ElementKind)
    ensures
        kind_name(k).len() >= 3,
        kind_of_code(name_code(kind_name(k))) == Some(k),
        is_letter(kind_name(k)[0]),
        is_letter(kind_name(k).last()),
{
    match k {
        ElementKind::Resistor => {
            reveal_strlit("resistor");
        },
        ElementKind::Capacitor => {
            reveal_strlit("capacitor");
        },
        ElementKind::Inductor => {
            reveal_strlit("inductor");
        },
        ElementKind::Voltage => {
            reveal_strlit("voltage source");
        },
        ElementKind::Rail => {
            reveal_strlit("voltage rail");
        },
        ElementKind::Current => {
            reveal_strlit("current source");
        },
        ElementKind::Diode => {
            reveal_strlit("diode");
        },
        ElementKind::Zener => {
            reveal_strlit("zener");
        },
        ElementKind::Led => {
            reveal_strlit("LED");
        },
        ElementKind::Wire => {
            reveal_strlit("wire");
        },
        ElementKind::Ground => {
            reveal_strlit("ground");
        },
        ElementKind::Switch => {
            reveal_strlit("switch");
        },
        ElementKind::SwitchSpdt => {
            reveal_strlit("SPDT switch");
        },
        ElementKind::LabeledNode => {
            reveal_strlit("labeled node");
        },
        ElementKind::Pot => {
            reveal_strlit("potentiometer");
        },
        ElementKind::Probe => {
            reveal_strlit("probe");
        },
        ElementKind::Output => {
            reveal_strlit("output");
        },
        ElementKind::TestPoint => {
            reveal_strlit("test point");
        },
        ElementKind::Ammeter => {
            reveal_strlit("ammeter");
        },
        ElementKind::OpAmp => {
            reveal_strlit("op-amp");
        },
        ElementKind::Vcvs => {
            reveal_strlit("VCVS");
        },
        ElementKind::Vccs => {
            reveal_strlit("VCCS");
        },
        ElementKind::Transistor => {
            reveal_strlit("transistor");
        },
        ElementKind::Mosfet => {
            reveal_strlit("MOSFET");
        },
        ElementKind::Jfet => {
            reveal_strlit("JFET");
        },
        ElementKind::Transformer => {
            reveal_strlit("transformer");
        },
        ElementKind::TappedTransformer => {
            reveal_strlit("tapped transformer");
        },
        ElementKind::AnalogSwitch => {
            reveal_strlit("analog switch");
        },
        ElementKind::AnalogSwitchSpdt => {
            reveal_strlit("analog SPDT");
        },
        ElementKind::Gyrator => {
            reveal_strlit("gyrator");
        },
        ElementKind::Fuse => {
            reveal_strlit("fuse");
        },
        ElementKind::SparkGap => {
            reveal_strlit("spark gap");
        },
        ElementKind::Memristor => {
            reveal_strlit("memristor");
        },
        ElementKind::Ldr => {
            reveal_strlit("photoresistor");
        },
        ElementKind::Thermistor => {
            reveal_strlit("thermistor");
        },
        ElementKind::Relay => {
            reveal_strlit("relay");
        },
        ElementKind::Schmitt => {
            reveal_strlit("Schmitt trigger");
        },
        ElementKind::InvertingSchmitt => {
            reveal_strlit("inverting Schmitt");
        },
        ElementKind::Ccvs => {
            reveal_strlit("CCVS");
        },
        ElementKind::Cccs => {
            reveal_strlit("CCCS");
        },
        ElementKind::Ccii => {
            reveal_strlit("CCII");
        },
        ElementKind::Varactor => {
            reveal_strlit("varactor");
        },
        ElementKind::Crystal => {
            reveal_strlit("crystal");
        },
        ElementKind::Sweep => {
            reveal_strlit("AC sweep");
        },
        ElementKind::AmSource => {
            reveal_strlit("AM source");
        },
        ElementKind::FmSource => {
            reveal_strlit("FM source");
        },
        ElementKind::Antenna => {
            reveal_strlit("antenna");
        },
        ElementKind::LogicInput => {
            reveal_strlit("logic input");
        },
        ElementKind::LogicOutput => {
            reveal_strlit("logic output");
        },
        ElementKind::Inverter => {
            reveal_strlit("inverter");
        },
        ElementKind::AndGate => {
            reveal_strlit("AND gate");
        },
        ElementKind::NandGate => {
            reveal_strlit("NAND gate");
        },
        ElementKind::OrGate => {
            reveal_strlit("OR gate");
        },
        ElementKind::NorGate => {
            reveal_strlit("NOR gate");
        },
        ElementKind::XorGate => {
            reveal_strlit("XOR gate");
        },
        ElementKind::XnorGate => {
            reveal_strlit("XNOR gate");
        },
        ElementKind::DFlipFlop => {
            reveal_strlit("D flip-flop");
        },
        ElementKind::JkFlipFlop => {
            reveal_strlit("JK flip-flop");
        },
        ElementKind::TFlipFlop => {
            reveal_strlit("T flip-flop");
        },
        ElementKind::HalfAdder => {
            reveal_strlit("half adder");
        },
        ElementKind::FullAdder => {
            reveal_strlit("adder");
        },
        ElementKind::Latch => {
            reveal_strlit("latch");
        },
        ElementKind::Multiplexer => {
            reveal_strlit("multiplexer");
        },
        ElementKind::Demultiplexer => {
            reveal_strlit("demultiplexer");
        },
    }
}

/// Kind names tell the kinds apart; each is non-empty and starts and ends
/// with a letter, so it has no surrounding white space.
pub proof fn lemma_kind_names_distinct(a: ElementKind, b: ElementKind)
    ensures
        a != b ==> kind_name(a) != kind_name(b),
        kind_name(a).len() > 0,
        is_letter(kind_name(a)[0]),
        is_letter(kind_name(a).last()),
{
    lemma_kind_name_code(a);
    lemma_kind_name_code(b);
}

impl ElementKind {
    /// Human-readable name of the kind.
    pub fn name(self) -> (r: &'static str)
        ensures
            r@ == kind_name(self),
    {
        match self {
            ElementKind::Resistor => "resistor",
            ElementKind::Capacitor => "capacitor",
            ElementKind::Inductor => "inductor",
            ElementKind::Voltage => "voltage source",
            ElementKind::Rail => "voltage rail",
            ElementKind::Current => "current source",
            ElementKind::Diode => "diode",
            ElementKind::Zener => "zener",
            ElementKind::Led => "LED",
            ElementKind::Wire => "wire",
            ElementKind::Ground => "ground",
            ElementKind::Switch => "switch",
            ElementKind::SwitchSpdt => "SPDT switch",
            ElementKind::LabeledNode => "labeled node",
            ElementKind::Pot => "potentiometer",
            ElementKind::Probe => "probe",
            ElementKind::Output => "output",
            ElementKind::TestPoint => "test point",
            ElementKind::Ammeter => "ammeter",
            ElementKind::OpAmp => "op-amp",
            ElementKind::Vcvs => "VCVS",
            ElementKind::Vccs => "VCCS",
            ElementKind::Transistor => "transistor",
            ElementKind::Mosfet => "MOSFET",
            ElementKind::Jfet => "JFET",
            ElementKind::Transformer => "transformer",
            ElementKind::TappedTransformer => "tapped transformer",
            ElementKind::AnalogSwitch => "analog switch",
            ElementKind::AnalogSwitchSpdt => "analog SPDT",
            ElementKind::Gyrator => "gyrator",
            ElementKind::Fuse => "fuse",
            ElementKind::SparkGap => "spark gap",
            ElementKind::Memristor => "memristor",
            ElementKind::Ldr => "photoresistor",
            ElementKind::Thermistor => "thermistor",
            ElementKind::Relay => "relay",
            ElementKind::Schmitt => "Schmitt trigger",
            ElementKind::InvertingSchmitt => "inverting Schmitt",
            ElementKind::Ccvs => "CCVS",
            ElementKind::Cccs => "CCCS",
            ElementKind::Ccii => "CCII",
            ElementKind::Varactor => "varactor",
            ElementKind::Crystal => "crystal",
            ElementKind::Sweep => "AC sweep",
            ElementKind::AmSource => "AM source",
            ElementKind::FmSource => "FM source",
            ElementKind::Antenna => "antenna",
            ElementKind::LogicInput => "logic input",
            ElementKind::LogicOutput => "logic output",
            ElementKind::Inverter => "inverter",
            ElementKind::AndGate => "AND gate",
            ElementKind::NandGate => "NAND gate",
            ElementKind::OrGate => "OR gate",
            ElementKind::NorGate => "NOR gate",
            ElementKind::XorGate => "XOR gate",
            ElementKind::XnorGate => "XNOR gate",
            ElementKind::DFlipFlop => "D flip-flop",
            ElementKind::JkFlipFlop => "JK flip-flop",
            ElementKind::TFlipFlop => "T flip-flop",
            ElementKind::HalfAdder => "half adder",
            ElementKind::FullAdder => "adder",
            ElementKind::Latch => "latch",
            ElementKind::Multiplexer => "multiplexer",
            ElementKind::Demultiplexer => "demultiplexer",
        }
    }
}
/// Boolean function computed by a combinational gate.
#[derive(Clone, Copy, Debug, PartialEq, Eq, Structural)]
pub enum GateFn {
    And,
    Or,
    Xor,
}

/// Variant of a two-terminal diode.
#[derive(Clone, Copy, Debug, PartialEq, Eq, Structural)]
pub enum DiodeStyle {
    Junction,
    Zener,
    Led,
}

/// Variant of a probe-like element.
#[derive(Clone, Copy, Debug, PartialEq, Eq, Structural)]
pub enum ProbeStyle {
    Output,
    Probe,
    TestPoint,
    Ammeter,
}

/// Variant of a one-terminal analog source.
#[derive(Clone, Copy, Debug, PartialEq, Eq, Structural)]
pub enum AnalogSourceKind {
    Sweep,
    Am,
    Fm,
    Antenna,
}

/// Kind of a gate computing `op`, negated when `inverting`.
pub open spec fn gate_kind_spec(op: GateFn, inverting: bool) -> ElementKind {
    match op {
        GateFn::And => if inverting { ElementKind::NandGate } else { ElementKind::AndGate },
        GateFn::Or => if inverting { ElementKind::NorGate } else { ElementKind::OrGate },
        GateFn::Xor => if inverting { ElementKind::XnorGate } else { ElementKind::XorGate },
    }
}

/// Kind of a gate computing `op`, negated when `inverting`.
pub fn gate_kind(op: GateFn, inverting: bool) -> (k: ElementKind)
    ensures
        k == gate_kind_spec(op, inverting),
{
    match (op, inverting) {
        (GateFn::And, false) => ElementKind::AndGate,
        (GateFn::And, true) => ElementKind::NandGate,
        (GateFn::Or, false) => ElementKind::OrGate,
        (GateFn::Or, true) => ElementKind::NorGate,
        (GateFn::Xor, false) => ElementKind::XorGate,
        (GateFn::Xor, true) => ElementKind::XnorGate,
    }
}

/// Kind of a diode of style `style`.
pub open spec fn diode_kind_spec(style: DiodeStyle) -> ElementKind {
    match style {
        DiodeStyle::Junction => ElementKind::Diode,
        DiodeStyle::Zener => ElementKind::Zener,
        DiodeStyle::Led => ElementKind::Led,
    }
}

/// Kind of a diode of the given style.
pub fn diode_kind(style: DiodeStyle) -> (k: ElementKind)
    ensures
        k == diode_kind_spec(style),
{
    match style {
        DiodeStyle::Junction => ElementKind::Diode,
        DiodeStyle::Zener => ElementKind::Zener,
        DiodeStyle::Led => ElementKind::Led,
    }
}

/// Kind of a probe of style `style`.
pub open spec fn probe_kind_spec(style: ProbeStyle) -> ElementKind {
    match style {
        ProbeStyle::Output => ElementKind::Output,
        ProbeStyle::Probe => ElementKind::Probe,
        ProbeStyle::TestPoint => ElementKind::TestPoint,
        ProbeStyle::Ammeter => ElementKind::Ammeter,
    }
}

/// Kind of a probe-like element of the given style.
pub fn probe_kind(style: ProbeStyle) -> (k: ElementKind)
    ensures
        k == probe_kind_spec(style),
{
    match style {
        ProbeStyle::Output => ElementKind::Output,
        ProbeStyle::Probe => ElementKind::Probe,
        ProbeStyle::TestPoint => ElementKind::TestPoint,
        ProbeStyle::Ammeter => ElementKind::Ammeter,
    }
}

/// Number of electrical terminals of a probe-like element: outputs and test
/// points touch one node, probes and ammeters two.
pub fn probe_post_count(style: ProbeStyle) -> (n: usize)
    ensures
        n == (match style {
            ProbeStyle::Output | ProbeStyle::TestPoint => 1usize,
            ProbeStyle::Probe | ProbeStyle::Ammeter => 2usize,
        }),
{
    match style {
        ProbeStyle::Output | ProbeStyle::TestPoint => 1,
        ProbeStyle::Probe | ProbeStyle::Ammeter => 2,
    }
}

/// Number of branch-current unknowns of a probe-like element: only the
/// ammeter (a 0 V source) has one.
pub fn probe_voltage_source_count(style: ProbeStyle) -> (n: usize)
    ensures
        n == (if style == ProbeStyle::Ammeter { 1usize } else { 0usize }),
{
    match style {
        ProbeStyle::Ammeter => 1,
        _ => 0,
    }
}

/// Kind of an analog source of kind `kind`.
pub open spec fn analog_source_kind_spec(kind: AnalogSourceKind) -> ElementKind {
    match kind {
        AnalogSourceKind::Sweep => ElementKind::Sweep,
        AnalogSourceKind::Am => ElementKind::AmSource,
        AnalogSourceKind::Fm => ElementKind::FmSource,
        AnalogSourceKind::Antenna => ElementKind::Antenna,
    }
}

/// Kind of a one-terminal analog source.
pub fn analog_source_kind(kind: AnalogSourceKind) -> (k: ElementKind)
    ensures
        k == analog_source_kind_spec(kind),
{
    match kind {
        AnalogSourceKind::Sweep => ElementKind::Sweep,
        AnalogSourceKind::Am => ElementKind::AmSource,
        AnalogSourceKind::Fm => ElementKind::FmSource,
        AnalogSourceKind::Antenna => ElementKind::Antenna,
    }
}

} // verus!
