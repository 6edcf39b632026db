//! The hierarchy of a complex block: pb_types, their modes and ports, and what
//! the views read of them (pins per kind, the children shown for a mode, the
//! names of child instances, the expanded blocks).
use vstd::prelude::*;
use crate::text::{decimal, decimal_chars, string_from_chars};

verus! {

broadcast use vstd::string::group_string_axioms;

/// What a port is for: a clock, or anything else (or unsaid).
#[derive(Debug, Clone, Copy, PartialEq, Eq, Structural)]
pub enum PortClass {
    Clock,
    Other,
}

/// A port of a pb_type.
pub struct PortInfo {
    pub name: String,
    pub num_pins: i32,
    pub port_class: PortClass,
}

/// A port, by direction.
pub enum Port {
    Input(PortInfo),
    Output(PortInfo),
    Clock(PortInfo),
}

/// The primitive a pb_type is, where it is one the views draw specially
/// (`Generic` where it is none of them).
#[derive(Debug, Clone, Copy, PartialEq, Eq, Structural)]
pub enum PBTypeClass {
    Generic,
    Lut,
    FlipFlop,
    Memory,
}

/// The ports an interconnect joins: space-separated lists of port references.
pub struct InterconnectInfo {
    pub name: String,
    pub input: String,
    pub output: String,
}

/// An interconnect between the ports of a pb_type and those of its children.
pub enum Interconnect {
    Direct(InterconnectInfo),
    Mux(InterconnectInfo),
    Complete(InterconnectInfo),
}

/// A mode of a pb_type: one choice of its children and their interconnects.
pub struct Mode {
    pub name: String,
    pub pb_types: Vec<PBType>,
    pub interconnects: Vec<Interconnect>,
}

/// A pb_type: a block of the hierarchy, with its ports and either modes or
/// children.
pub struct PBType {
    pub name: String,
    pub num_pb: i32,
    pub blif_model: Option<String>,
    pub class: PBTypeClass,
    pub ports: Vec<Port>,
    pub modes: Vec<Mode>,
    pub pb_types: Vec<PBType>,
    pub interconnects: Vec<Interconnect>,
}

/// The kinds of port whose pins are counted.
#[derive(Debug, Clone, Copy, PartialEq, Eq, Structural)]
pub enum PortType {
    Input,
    Output,
    Clock,
}

/// The pins of `p` that count for `kind`.
pub open spec fn pins_of(p: Port, kind: PortType) -> int {
    match (kind, p) {
        (PortType::Input, Port::Input(ip)) => ip.num_pins as int,
        (PortType::Output, Port::Output(op)) => op.num_pins as int,
        (PortType::Clock, Port::Clock(cp)) => cp.num_pins as int,
        _ => 0,
    }
}

/// The pins of the ports of `ports` of the kind `kind`.
pub open spec fn pin_sum(ports: Seq<Port>, kind: PortType) -> int
    decreases ports.len(),
{
    if ports.len() == 0 {
        0
    } else {
        pin_sum(ports.drop_last(), kind) + pins_of(ports.last(), kind)
    }
}

/// Every running total of the pin count fits in an `i32`.
pub open spec fn pin_sums_fit(ports: Seq<Port>, kind: PortType) -> bool {
    forall|k: int| 0 <= k <= ports.len() ==> i32::MIN <= #[trigger] pin_sum(ports.take(k), kind) <= i32::MAX
}

/// The number of pins of `pb_type` of the kind `port_type`.
pub fn count_pins(pb_type: &PBType, port_type: PortType) -> (r: i32)
    requires
        pin_sums_fit(pb_type.ports@, port_type),
    ensures
        r == pin_sum(pb_type.ports@, port_type),
{
    let ports = &pb_type.ports;
    let mut total: i32 = 0;
    let mut i: usize = 0;
    assert(ports@.take(0) =~= Seq::<Port>::empty());
    while i < ports.len()
        invariant
            i <= ports.len(),
            pin_sums_fit(ports@, port_type),
            total == pin_sum(ports@.take(i as int), port_type),
        decreases ports.len() - i,
    {
        assert(ports@.take(i + 1).drop_last() =~= ports@.take(i as int));
        assert(i32::MIN <= pin_sum(ports@.take(i + 1), port_type) <= i32::MAX);
        let n = match (port_type, &ports[i]) {
            (PortType::Input, Port::Input(ip)) => ip.num_pins,
            (PortType::Output, Port::Output(op)) => op.num_pins,
            (PortType::Clock, Port::Clock(cp)) => cp.num_pins,
            _ => 0,
        };
        total = total + n;
        i = i + 1;
    }
    assert(ports@.take(i as int) =~= ports@);
    total
}

/// The mode index shown for `pb_type`: `mode_index` where the pb_type has that
/// mode, else 0.
pub open spec fn valid_mode(pb: PBType, mode_index: usize) -> usize {
    if pb.modes.len() == 0 {
        0
    } else if mode_index < pb.modes.len() {
        mode_index
    } else {
        0
    }
}

/// Corrects a mode index for `pb_type`: one past its modes becomes 0 (and with
/// no modes the index does not matter and is 0).
pub fn validate_mode_index(pb_type: &PBType, mode_index: usize) -> (r: usize)
    ensures
        r == valid_mode(*pb_type, mode_index),
{
    if pb_type.modes.len() == 0 {
        0
    } else if mode_index < pb_type.modes.len() {
        mode_index
    } else {
        0
    }
}

/// The children of `pb` shown for `mode_index`: those of that mode (of the first
/// mode where the index is past the modes), or, with no modes, its own children.
pub open spec fn children_for_mode(pb: PBType, mode_index: usize) -> Seq<PBType> {
    if pb.modes.len() > 0 {
        if mode_index < pb.modes.len() {
            pb.modes@[mode_index as int].pb_types@
        } else {
            pb.modes@[0].pb_types@
        }
    } else {
        pb.pb_types@
    }
}

/// The children of `pb_type` shown for `mode_index`.
pub fn get_children_for_mode(pb_type: &PBType, mode_index: usize) -> (r: &Vec<PBType>)
    ensures
        r@ == children_for_mode(*pb_type, mode_index),
        pb_type.modes.len() > 0 ==> r@ == pb_type.modes@[valid_mode(*pb_type, mode_index) as int].pb_types@,
{
    if pb_type.modes.len() > 0 {
        if mode_index < pb_type.modes.len() {
            &pb_type.modes[mode_index].pb_types
        } else {
            &pb_type.modes[0].pb_types
        }
    } else {
        &pb_type.pb_types
    }
}

/// The name of the child instance `index` of `child`: its name alone where there
/// is one instance, else its name with the index in brackets.
pub open spec fn child_instance_name(child: PBType, index: usize) -> Seq<char> {
    if child.num_pb == 1 {
        child.name@
    } else {
        child.name@ + seq!['['] + decimal(index as nat) + seq![']']
    }
}

/// The name of the child instance `index` of `child_pb`.
pub fn generate_child_instance_name(child_pb: &PBType, index: usize) -> (r: String)
    ensures
        r@ == child_instance_name(*child_pb, index),
{
    if child_pb.num_pb == 1 {
        child_pb.name.clone()
    } else {
        let mut s = String::from_str(child_pb.name.as_str());
        s.append("[");
        let d = decimal_chars(index as u64);
        let d = string_from_chars(&d);
        s.append(d.as_str());
        s.append("]");
        assert(s@ =~= child_pb.name@ + seq!['['] + decimal(index as nat) + seq![']']) by {
            reveal_strlit("[");
            reveal_strlit("]");
        }
        s
    }
}

/// How the children of a block are laid out.
#[derive(Debug, Clone, Copy, PartialEq, Eq, Structural)]
pub enum LayoutDirection {
    Vertical,
    Horizontal,
}

/// Several kinds of children (a LUT and a flip-flop) side by side; one kind (an
/// array of the same block) one above the other.
pub fn get_layout_direction(pb_types: &Vec<PBType>) -> (r: LayoutDirection)
    ensures
        r == (if pb_types.len() > 1 {
            LayoutDirection::Horizontal
        } else {
            LayoutDirection::Vertical
        }),
{
    if pb_types.len() > 1 {
        LayoutDirection::Horizontal
    } else {
        LayoutDirection::Vertical
    }
}

/// The interconnects of `pb` shown for `mode_index`, chosen as the children are.
pub open spec fn interconnects_for_mode(pb: PBType, mode_index: usize) -> Seq<Interconnect> {
    if pb.modes.len() > 0 {
        if mode_index < pb.modes.len() {
            pb.modes@[mode_index as int].interconnects@
        } else {
            pb.modes@[0].interconnects@
        }
    } else {
        pb.interconnects@
    }
}

/// The interconnects of `pb_type` shown for `mode_index`.
pub fn get_interconnects_for_mode(pb_type: &PBType, mode_index: usize) -> (r: &Vec<Interconnect>)
    ensures
        r@ == interconnects_for_mode(*pb_type, mode_index),
        pb_type.modes.len() > 0 ==> r@ == pb_type.modes@[valid_mode(*pb_type, mode_index) as int].interconnects@,
{
    if pb_type.modes.len() > 0 {
        if mode_index < pb_type.modes.len() {
            &pb_type.modes[mode_index].interconnects
        } else {
            &pb_type.modes[0].interconnects
        }
    } else {
        &pb_type.interconnects
    }
}

/// A block with modes shows, for a mode index, the children and the
/// interconnects of one and the same mode: the mode that `validate_mode_index`
/// keeps, which is the mode at that index when there is one.
pub proof fn law_shown_children_and_interconnects_are_of_the_chosen_mode(pb: PBType, mode_index: usize)
    requires
        pb.modes.len() > 0,
    ensures
        children_for_mode(pb, mode_index) == pb.modes@[valid_mode(pb, mode_index) as int].pb_types@,
        interconnects_for_mode(pb, mode_index) == pb.modes@[valid_mode(pb, mode_index) as int].interconnects@,
        mode_index < pb.modes.len() ==> valid_mode(pb, mode_index) == mode_index,
{
}

} // verus!
