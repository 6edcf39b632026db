use fpga_arch_viewer::port_ref::{resolve_bus_list, resolve_port_pos, PortHit};
use fpga_arch_viewer::complex_block_view::{find_block, ComplexBlockView};
use fpga_arch_viewer::intra_tile::{collapse_all_blocks, expand_all_blocks, IntraTileState};
use fpga_arch_viewer::layout::FPGAArch;
use fpga_arch_viewer::pb_type::{
    count_pins, generate_child_instance_name, get_children_for_mode, get_layout_direction, validate_mode_index,
    Interconnect, InterconnectInfo, LayoutDirection, Mode, PBType, PBTypeClass, Port, PortClass, PortInfo, PortType,
};
use fpga_arch_viewer::port_ref::{
    expand_port_list, is_clock_complete_interconnect, is_clock_port, mentions_clock, pb_name_from_port, strip_prefix,
};
use fpga_arch_viewer::primitive::{find_pb_types_for_model, is_sequential_block, Model, ModelPort};
use fpga_arch_viewer::primitive_render::count_num_visible_io;

fn port(name: &str, num_pins: i32, port_class: PortClass) -> PortInfo {
    PortInfo { name: name.to_string(), num_pins, port_class }
}

fn leaf(name: &str, num_pb: i32, blif: Option<&str>, ports: Vec<Port>) -> PBType {
    PBType {
        name: name.to_string(),
        num_pb,
        blif_model: blif.map(|b| b.to_string()),
        class: PBTypeClass::Generic,
        ports,
        modes: Vec::new(),
        pb_types: Vec::new(),
        interconnects: Vec::new(),
    }
}

fn lut() -> PBType {
    leaf("lut", 1, Some(".names"), vec![Port::Input(port("in", 4, PortClass::Other)), Port::Output(port("out", 1, PortClass::Other))])
}

fn ff() -> PBType {
    leaf(
        "ff",
        1,
        Some(".latch"),
        vec![
            Port::Input(port("D", 1, PortClass::Other)),
            Port::Output(port("Q", 1, PortClass::Other)),
            Port::Clock(port("clk", 1, PortClass::Clock)),
        ],
    )
}

fn ble() -> PBType {
    let mut b = leaf(
        "ble",
        2,
        None,
        vec![
            Port::Input(port("in", 4, PortClass::Other)),
            Port::Output(port("out", 1, PortClass::Other)),
            Port::Input(port("clk_in", 1, PortClass::Other)),
        ],
    );
    b.modes = vec![Mode { name: "default".to_string(), pb_types: vec![lut(), ff()], interconnects: Vec::new() }];
    b
}

fn clb() -> PBType {
    let mut c = leaf(
        "clb",
        1,
        None,
        vec![
            Port::Input(port("I", 10, PortClass::Other)),
            Port::Output(port("O", 2, PortClass::Other)),
            Port::Clock(port("clk", 1, PortClass::Clock)),
        ],
    );
    c.pb_types = vec![ble()];
    c
}

#[test]
fn expands_bit_ranges() {
    assert_eq!(expand_port_list("fle[3:0].out"), vec!["fle[3].out", "fle[2].out", "fle[1].out", "fle[0].out"]);
    assert_eq!(
        expand_port_list("lut5[0:0].in[4:0]"),
        vec!["lut5[0].in[4]", "lut5[0].in[3]", "lut5[0].in[2]", "lut5[0].in[1]", "lut5[0].in[0]"]
    );
    assert_eq!(expand_port_list("a[0:1].b[1:0]"), vec!["a[0].b[1]", "a[0].b[0]", "a[1].b[1]", "a[1].b[0]"]);
    assert_eq!(expand_port_list("  clb.I  ble[1:0].in "), vec!["clb.I", "ble[1].in", "ble[0].in"]);
    assert_eq!(expand_port_list("x[-1:1]"), vec!["x[-1]", "x[0]", "x[1]"]);
}

#[test]
fn keeps_references_without_ranges() {
    assert_eq!(expand_port_list("a[x:y] b[2] c[ d"), vec!["a[x:y]", "b[2]", "c[", "d"]);
    assert_eq!(expand_port_list("   "), Vec::<String>::new());
    assert_eq!(expand_port_list("a[1:2:3]"), vec!["a[1:2:3]"]);
}

#[test]
fn names_in_references() {
    assert_eq!(pb_name_from_port("clb.I"), Some("clb".to_string()));
    assert_eq!(pb_name_from_port("I"), Some("I".to_string()));
    assert_eq!(strip_prefix("adder.a"), "a");
    assert_eq!(strip_prefix("a.b.c"), "b.c");
    assert_eq!(strip_prefix("a"), "a");
}

#[test]
fn clock_ports() {
    let c = clb();
    let children = vec![ble()];
    assert!(is_clock_port("clk", &c, &children));
    assert!(is_clock_port("clk[0]", &c, &children));
    assert!(!is_clock_port("I[3]", &c, &children));
    // An input whose name reads as a clock.
    assert!(is_clock_port("ble[0].clk_in", &c, &children));
    assert!(!is_clock_port("ble[0].in[1]", &c, &children));
    // Not found anywhere: the name decides, in any case.
    assert!(is_clock_port("CLK", &c, &children));
    assert!(is_clock_port("Clock_x", &c, &children));
    assert!(!is_clock_port("data", &c, &children));
    assert!(mentions_clock("sysclk"));
    assert!(!mentions_clock("SYSCLK"));
}

#[test]
fn clock_interconnects() {
    let c = clb();
    let children = vec![ble()];
    let ic = |input: &str, output: &str| {
        Interconnect::Complete(InterconnectInfo { name: "x".to_string(), input: input.to_string(), output: output.to_string() })
    };
    assert!(is_clock_complete_interconnect(&ic("clb.clk", "ble[1:0].clk_in"), &c, &children));
    assert!(!is_clock_complete_interconnect(&ic("clb.clk", "ble[1:0].in"), &c, &children));
    let direct = Interconnect::Direct(InterconnectInfo {
        name: "d".to_string(),
        input: "clb.clk".to_string(),
        output: "ble[0].clk_in".to_string(),
    });
    assert!(!is_clock_complete_interconnect(&direct, &c, &children));
}

#[test]
fn pins_modes_and_names() {
    let c = clb();
    assert_eq!(count_pins(&c, PortType::Input), 10);
    assert_eq!(count_pins(&c, PortType::Output), 2);
    assert_eq!(count_pins(&c, PortType::Clock), 1);
    let b = ble();
    assert_eq!(validate_mode_index(&b, 0), 0);
    assert_eq!(validate_mode_index(&b, 3), 0);
    assert_eq!(validate_mode_index(&c, 7), 0);
    assert_eq!(get_children_for_mode(&b, 5).len(), 2);
    assert_eq!(get_children_for_mode(&c, 0).len(), 1);
    assert_eq!(generate_child_instance_name(&b, 1), "ble[1]");
    assert_eq!(generate_child_instance_name(&lut(), 0), "lut");
    assert_eq!(get_layout_direction(&vec![lut(), ff()]), LayoutDirection::Horizontal);
    assert_eq!(get_layout_direction(&vec![ble()]), LayoutDirection::Vertical);
}

#[test]
fn expand_and_collapse_all() {
    let mut state = IntraTileState::new();
    state.set_mode("clb.ble[1]".to_string(), 4);
    let c = clb();
    expand_all_blocks(&mut state, &c, "clb");
    let mut expanded = state.expanded_blocks.clone();
    expanded.sort();
    assert_eq!(
        expanded,
        vec!["clb", "clb.ble[0]", "clb.ble[0].ff", "clb.ble[0].lut", "clb.ble[1]", "clb.ble[1].ff", "clb.ble[1].lut"]
    );
    // The mode out of range was corrected.
    assert_eq!(state.mode_lookup("clb.ble[1]"), Some(0));
    assert_eq!(state.mode_lookup("clb.ble[0]"), None);
    collapse_all_blocks(&mut state);
    assert!(state.expanded_blocks.is_empty());
    assert_eq!(state.mode_lookup("clb.ble[1]"), Some(0));
}

#[test]
fn primitives_in_the_hierarchy() {
    let arch = FPGAArch { tiles: Vec::new(), layouts: Vec::new(), models: Vec::new(), complex_block_list: vec![clb()] };
    let m = find_pb_types_for_model(&arch, ".latch");
    assert_eq!(m.len(), 1);
    assert_eq!(m[0].path_display(), "clb > ble > ff");
    assert_eq!(m[0].pb_type.name, "ff");
    assert_eq!(find_pb_types_for_model(&arch, "adder").len(), 0);

    let mut with_adder = clb();
    with_adder.pb_types.push(leaf("add", 1, Some(".subckt adder"), Vec::new()));
    let arch = FPGAArch { tiles: Vec::new(), layouts: Vec::new(), models: Vec::new(), complex_block_list: vec![with_adder] };
    let m = find_pb_types_for_model(&arch, "adder");
    assert_eq!(m.len(), 1);
    assert_eq!(m[0].path_display(), "clb > add");

    let seq = Model {
        name: "dff".to_string(),
        input_ports: vec![ModelPort { name: "D".to_string(), is_clock: false, combinational_sink_ports: Vec::new() }],
        output_ports: vec![ModelPort { name: "Q".to_string(), is_clock: false, combinational_sink_ports: Vec::new() }],
    };
    assert!(is_sequential_block(&seq));
    let comb = Model {
        name: "adder".to_string(),
        input_ports: vec![ModelPort { name: "a".to_string(), is_clock: false, combinational_sink_ports: vec!["sum".to_string()] }],
        output_ports: vec![ModelPort { name: "sum".to_string(), is_clock: false, combinational_sink_ports: Vec::new() }],
    };
    assert!(!is_sequential_block(&comb));
}

#[test]
fn complex_block_view_expand_all_setting() {
    let arch = FPGAArch { tiles: Vec::new(), layouts: Vec::new(), models: Vec::new(), complex_block_list: vec![leaf("io", 1, None, Vec::new()), clb()] };
    assert_eq!(find_block(&arch.complex_block_list, "clb"), Some(1));
    assert_eq!(find_block(&arch.complex_block_list, "dsp"), None);

    let mut view = ComplexBlockView::new();
    view.complex_block_view_state.all_blocks_expanded = true;
    view.complex_block_view_state.selected_complex_block_name = Some("clb".to_string());
    view.on_view_open(&Some(arch));
    assert_eq!(view.complex_block_view_state.intra_tile_state.expanded_blocks.len(), 7);
    view.on_view_close();
    assert_eq!(view.complex_block_view_state.selected_complex_block_name, None);
    view.complex_block_view_state.all_blocks_expanded = false;
    view.on_view_open(&None);
    assert_eq!(view.complex_block_view_state.intra_tile_state.expanded_blocks.len(), 7);
    let arch = FPGAArch { tiles: Vec::new(), layouts: Vec::new(), models: Vec::new(), complex_block_list: vec![clb()] };
    view.apply_expand_all_state(&arch);
    assert!(view.complex_block_view_state.intra_tile_state.expanded_blocks.is_empty());
}

fn names(v: &[&str]) -> Vec<String> {
    v.iter().map(|s| s.to_string()).collect()
}

fn hit(h: Option<PortHit>) -> Option<(bool, String)> {
    match h {
        Some(PortHit::Own(k)) => Some((true, k)),
        Some(PortHit::Child(k)) => Some((false, k)),
        None => None,
    }
}

#[test]
fn references_resolve_against_drawn_ports() {
    let mine = names(&["I", "O[0]", "O[1]"]);
    let children = names(&["ble4[0].in", "lut4.in", "ble4[0].out[0]"]);
    assert_eq!(hit(resolve_port_pos("clb.I", "clb", &mine, &children)), Some((true, "I".to_string())));
    assert_eq!(hit(resolve_port_pos("I", "clb", &mine, &children)), Some((true, "I".to_string())));
    assert_eq!(hit(resolve_port_pos("ble4[0].in", "clb", &mine, &children)), Some((false, "ble4[0].in".to_string())));
    assert_eq!(hit(resolve_port_pos("ble4.in", "clb", &mine, &children)), Some((false, "ble4[0].in".to_string())));
    assert_eq!(hit(resolve_port_pos("lut4[0].in", "clb", &mine, &children)), Some((false, "lut4.in".to_string())));
    assert_eq!(hit(resolve_port_pos("lut4[1].in", "clb", &mine, &children)), None);
    assert_eq!(hit(resolve_port_pos("X", "clb", &mine, &children)), None);
}

#[test]
fn buses_resolve_to_their_members() {
    let mine = names(&["I", "O[0]", "O[1]"]);
    let children = names(&["ble4[0].in", "ble4[0].out[0]", "ble4[0].out[1]", "ble4[0].out[2]"]);
    let list = names(&["clb.O", "I", "ble4[0].out", "nothing"]);
    assert_eq!(
        resolve_bus_list(&list, "clb", &mine, &children),
        vec!["clb.O[0]", "clb.O[1]", "I", "ble4[0].out[0]", "ble4[0].out[1]", "ble4[0].out[2]"]
    );
}

#[test]
fn visible_io_counts_collapsed_ports_once() {
    // Port 0 has 4 pins, port 1 has 8, port 2 has 1.
    let pin_counts = vec![4, 8, 1];
    let all_collapsed = vec![true, true, true];
    let none_collapsed = vec![false, false, false];
    let mixed = vec![true, false, false];
    assert_eq!(count_num_visible_io(&vec![0, 1, 2], &pin_counts, &all_collapsed), 3);
    assert_eq!(count_num_visible_io(&vec![0, 1, 2], &pin_counts, &none_collapsed), 13);
    assert_eq!(count_num_visible_io(&vec![0, 1], &pin_counts, &mixed), 9);
    assert_eq!(count_num_visible_io(&vec![], &pin_counts, &mixed), 0);
    assert_eq!(count_num_visible_io(&vec![1, 1], &pin_counts, &mixed), 16);
}
