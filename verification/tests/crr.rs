use fpga_arch_viewer::crr::{
    get_crr_switch_block, get_segment_len, sink_node_ptc_num, source_node_ptc_num, try_get_crr_switch_block,
    CRRSwitchBlockDeserialized, CRRSwitchDir, CRRSwitchSinkNodeInfo, CRRSwitchSourceNodeInfo, CRRSwitchSourcePin,
};
use fpga_arch_viewer::crr_view::CRRViewState;
use fpga_arch_viewer::sb_maps::SBMapTemplate;

fn sink(dir: CRRSwitchDir, lane_num: usize, seg: &str) -> CRRSwitchSinkNodeInfo {
    CRRSwitchSinkNodeInfo { dir, lane_num, segment_type: seg.to_string(), target_pin: None }
}

fn source(dir: CRRSwitchDir, lane_num: usize, seg: &str, tap_num: usize) -> CRRSwitchSourceNodeInfo {
    CRRSwitchSourceNodeInfo { dir, lane_num, segment_type: seg.to_string(), source_pin: CRRSwitchSourcePin::Tap { tap_num } }
}

fn two_lane_block(sources: Vec<CRRSwitchSourceNodeInfo>) -> CRRSwitchBlockDeserialized {
    CRRSwitchBlockDeserialized {
        sink_nodes: vec![
            sink(CRRSwitchDir::Left, 1, "L4"),
            sink(CRRSwitchDir::Right, 1, "L4"),
            sink(CRRSwitchDir::Left, 2, "l1"),
            sink(CRRSwitchDir::Right, 2, "l1"),
            sink(CRRSwitchDir::Top, 1, "L2"),
            sink(CRRSwitchDir::Bottom, 1, "L2"),
            sink(CRRSwitchDir::IPIN, 0, "ignored"),
        ],
        source_nodes: sources,
        edges: Vec::new(),
    }
}

#[test]
fn segment_lengths() {
    assert_eq!(get_segment_len("L4"), Ok(4));
    assert_eq!(get_segment_len("l16"), Ok(16));
    assert_eq!(get_segment_len("x4"), Err("Unsupported segment type should start with l."));
    assert_eq!(get_segment_len(""), Err("Unsupported segment type should start with l."));
    assert_eq!(get_segment_len("L0"), Err("Unsupported segment type should have a positive length."));
    assert_eq!(get_segment_len("L"), Err("Unsupported segment type."));
    assert_eq!(get_segment_len("L4a"), Err("Unsupported segment type."));
}

#[test]
fn lanes_follow_each_other() {
    let info = two_lane_block(vec![source(CRRSwitchDir::Right, 1, "L4", 3), source(CRRSwitchDir::OPIN, 0, "", 0)]);
    let sb = get_crr_switch_block(&info).unwrap();
    assert_eq!(sb.chan_x_lanes.len(), 2);
    assert_eq!(sb.chan_x_lanes[0].starting_track_num, 0);
    assert_eq!(sb.chan_x_lanes[0].segment_len, 4);
    assert_eq!(sb.chan_x_lanes[1].starting_track_num, 8);
    assert_eq!(sb.chan_x_lanes[1].segment_len, 1);
    assert_eq!(sb.chan_x_width, 10);
    assert_eq!(sb.chan_y_lanes.len(), 1);
    assert_eq!(sb.chan_y_width, 4);
    // Right side, tap 3 of lane 1: its first track, plus two per tap after the first, plus one.
    assert_eq!(source_node_ptc_num(&info.source_nodes[0], &sb), 5);
    assert_eq!(sink_node_ptc_num(&info.sink_nodes[2], &sb), 9);
    assert_eq!(sink_node_ptc_num(&info.sink_nodes[3], &sb), 8);
}

#[test]
fn bad_descriptions_are_reported() {
    let mut info = two_lane_block(Vec::new());
    info.sink_nodes.push(sink(CRRSwitchDir::Left, 0, "L4"));
    assert_eq!(get_crr_switch_block(&info).err(), Some("Invalid lane num of 0 found."));

    let mut info = two_lane_block(Vec::new());
    info.sink_nodes.push(sink(CRRSwitchDir::Left, 3, "L4"));
    assert_eq!(get_crr_switch_block(&info).err(), Some("Left target node lanes do not match right target node lanes."));

    let info = two_lane_block(vec![source(CRRSwitchDir::Left, 3, "L4", 1)]);
    assert_eq!(get_crr_switch_block(&info).err(), Some("Found a source node with an invalid lane."));

    let info = two_lane_block(vec![source(CRRSwitchDir::Left, 1, "L2", 1)]);
    assert_eq!(get_crr_switch_block(&info).err(), Some("Found a source node in a lane with the wrong segment type."));

    let info = two_lane_block(vec![source(CRRSwitchDir::Left, 1, "L4", 5)]);
    assert_eq!(get_crr_switch_block(&info).err(), Some("Found a source node with an invalid tap number."));

    let info = two_lane_block(vec![source(CRRSwitchDir::Top, 0, "L4", 1)]);
    assert_eq!(get_crr_switch_block(&info).err(), Some("Found a source node with lane num 0."));
}

#[test]
fn unsupported_descriptions_are_flagged() {
    let info = two_lane_block(vec![source(CRRSwitchDir::IPIN, 1, "L4", 1)]);
    assert!(try_get_crr_switch_block(&info).is_none());
    let info = two_lane_block(Vec::new());
    assert!(try_get_crr_switch_block(&info).is_some());
}

#[test]
fn default_crr_view_state() {
    let state = CRRViewState::new_default().expect("the default map reads");
    assert!(state.show_segment_connections());
    assert!(state.show_switch_connections());
    assert!(!state.show_lb_pin_connections());
    assert_eq!(state.selected_layout_index, 0);
    let maps = state.sb_maps();
    assert_eq!(maps.get_sb_template(0, 0), Some(&SBMapTemplate::Null));
    assert_eq!(maps.get_sb_template(5, 0), Some(&SBMapTemplate::File { file_name: "sb_io.csv".to_string() }));
    assert_eq!(maps.get_sb_template(6, 1), Some(&SBMapTemplate::File { file_name: "sb_mult_36_0.csv".to_string() }));
    assert_eq!(maps.get_sb_template(11, 11), Some(&SBMapTemplate::File { file_name: "sb_main.csv".to_string() }));
    assert_eq!(maps.get_unique_file_names().len(), 12);
}
