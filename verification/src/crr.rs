//! Custom routing resource (CRR) switch blocks: the channel lanes that the sink
//! nodes of a switch-block description define, and the checks that its source
//! nodes agree with them.
use vstd::prelude::*;
use std::collections::HashMap;
use crate::text::{spec_parse_usize, chars_of, slice_chars, parse_usize};

verus! {

broadcast use vstd::std_specs::hash::group_hash_axioms;

/// The side (or pin class) of a switch-block node.
#[allow(non_camel_case_types)]
#[derive(Debug, Clone, Copy, PartialEq, Eq, Structural)]
pub enum CRRSwitchDir {
    Left,
    Right,
    Top,
    Bottom,
    IPIN,
    OPIN,
}

/// A node that switches drive.
pub struct CRRSwitchSinkNodeInfo {
    pub dir: CRRSwitchDir,
    pub lane_num: usize,
    pub segment_type: String,
    pub target_pin: Option<String>,
}

/// Where a source node takes its signal from.
pub enum CRRSwitchSourcePin {
    Tap { tap_num: usize },
    Pin { pin_name: String },
}

/// A node that drives switches.
pub struct CRRSwitchSourceNodeInfo {
    pub dir: CRRSwitchDir,
    pub lane_num: usize,
    pub segment_type: String,
    pub source_pin: CRRSwitchSourcePin,
}

/// A switch from a source node to a sink node (indices into the node lists).
pub struct CRRSwitchEdge {
    pub source_node_id: usize,
    pub sink_node_id: usize,
}

/// A switch-block description as read from its file.
pub struct CRRSwitchBlockDeserialized {
    pub sink_nodes: Vec<CRRSwitchSinkNodeInfo>,
    pub source_nodes: Vec<CRRSwitchSourceNodeInfo>,
    pub edges: Vec<CRRSwitchEdge>,
}

/// A lane of a channel: the first of its tracks and the length of its segments.
pub struct CRRSwitchBlockLane {
    pub starting_track_num: usize,
    pub segment_len: usize,
}

/// The lanes of both channels of a switch block and the number of tracks of each.
pub struct CRRSwitchBlock {
    pub chan_x_lanes: Vec<CRRSwitchBlockLane>,
    pub chan_y_lanes: Vec<CRRSwitchBlockLane>,
    pub chan_x_width: usize,
    pub chan_y_width: usize,
}

// ------------------------------------------------------------------
// Segment types
// ------------------------------------------------------------------

/// The length of a segment type named `L<n>` or `l<n>` with `n > 0`.
pub open spec fn spec_segment_len(s: Seq<char>) -> Result<usize, Seq<char>> {
    if s.len() == 0 || (s[0] != 'l' && s[0] != 'L') {
        Err("Unsupported segment type should start with l."@)
    } else {
        match spec_parse_usize(s.drop_first()) {
            Ok(v) => if v == 0 {
                Err("Unsupported segment type should have a positive length."@)
            } else {
                Ok(v)
            },
            Err(_) => Err("Unsupported segment type."@),
        }
    }
}

/// Reads the segment length out of a segment type name such as `L4`; the `l` is
/// accepted in either case.
pub fn get_segment_len(segment_type: &str) -> (r: Result<usize, &'static str>)
    ensures
        match r {
            Ok(v) => spec_segment_len(segment_type@) == Ok::<usize, Seq<char>>(v),
            Err(e) => spec_segment_len(segment_type@) == Err::<usize, Seq<char>>(e@),
        },
{
    let c = chars_of(segment_type);
    if c.len() == 0 || (c[0] != 'l' && c[0] != 'L') {
        return Err("Unsupported segment type should start with l.");
    }
    let rest = slice_chars(&c, 1, c.len());
    assert(rest@ =~= c@.drop_first());
    match parse_usize(&rest) {
        Ok(v) => if v == 0 {
            Err("Unsupported segment type should have a positive length.")
        } else {
            Ok(v)
        },
        Err(_) => Err("Unsupported segment type."),
    }
}

// ------------------------------------------------------------------
// Lanes
// ------------------------------------------------------------------

/// Lane (`lane_num - 1`) to segment type, for the sink nodes on side `d`; a later
/// node overrides an earlier one on the same lane.
pub open spec fn lane_map(sinks: Seq<CRRSwitchSinkNodeInfo>, d: CRRSwitchDir) -> Map<usize, String>
    decreases sinks.len(),
{
    if sinks.len() == 0 {
        Map::empty()
    } else {
        let m = lane_map(sinks.drop_last(), d);
        let s = sinks.last();
        if s.dir == d && s.lane_num > 0 {
            m.insert((s.lane_num - 1) as usize, s.segment_type)
        } else {
            m
        }
    }
}

/// Some sink node other than an input pin has lane number 0.
pub open spec fn has_zero_sink_lane(sinks: Seq<CRRSwitchSinkNodeInfo>) -> bool {
    exists|i: int| 0 <= i < sinks.len() && sinks[i].dir != CRRSwitchDir::IPIN && sinks[i].lane_num == 0
}

/// A lane as (first track, segment length).
pub type LaneView = (int, usize);

/// The number of tracks that lanes take: two per unit of segment length.
pub open spec fn lanes_width(ls: Seq<LaneView>) -> int
    decreases ls.len(),
{
    if ls.len() == 0 {
        0
    } else {
        lanes_width(ls.drop_last()) + 2 * ls.last().1
    }
}

/// Lanes `0..n` of a channel whose two sides are `a` and `b`: the lanes read before
/// the first bad one, and that lane's error if there is one. Each lane starts
/// where the previous ones end.
pub open spec fn scan_lanes(a: Map<usize, String>, b: Map<usize, String>, n: nat) -> (Seq<LaneView>, Option<Seq<char>>)
    decreases n,
{
    if n == 0 {
        (Seq::empty(), None)
    } else {
        let prev = scan_lanes(a, b, (n - 1) as nat);
        let ls = prev.0;
        if prev.1 is Some {
            prev
        } else {
            let k = (n - 1) as usize;
            if !a.contains_key(k) || !b.contains_key(k) {
                (ls, Some("Lane missing in target nodes."@))
            } else if a[k]@ != b[k]@ {
                (ls, Some("Left and right target lanes do not target the same segment."@))
            } else {
                match spec_segment_len(a[k]@) {
                    Err(e) => (ls, Some(e)),
                    Ok(len) => (ls.push((lanes_width(ls), len)), None),
                }
            }
        }
    }
}

/// The lane that a (non-pin) source node on side `dir` with lane `id` refers to.
pub open spec fn source_lanes(dir: CRRSwitchDir, xl: Seq<LaneView>, yl: Seq<LaneView>) -> Seq<LaneView> {
    if dir == CRRSwitchDir::Left || dir == CRRSwitchDir::Right {
        xl
    } else {
        yl
    }
}

/// The tap of a source node (1 when it takes no tap).
pub open spec fn tap_of(p: CRRSwitchSourcePin) -> usize {
    match p {
        CRRSwitchSourcePin::Tap { tap_num } => tap_num,
        _ => 1,
    }
}

/// A source node reads as an input pin with a lane, which the validation of source
/// nodes does not handle.
pub open spec fn source_is_unhandled(s: CRRSwitchSourceNodeInfo) -> bool {
    s.dir == CRRSwitchDir::IPIN && s.lane_num != 0
}

/// The error that a source node gives against the lanes, if any.
pub open spec fn source_error(s: CRRSwitchSourceNodeInfo, xl: Seq<LaneView>, yl: Seq<LaneView>) -> Option<Seq<char>> {
    if s.dir == CRRSwitchDir::OPIN {
        None
    } else if s.lane_num == 0 {
        Some("Found a source node with lane num 0."@)
    } else {
        let lanes = source_lanes(s.dir, xl, yl);
        let id = s.lane_num - 1;
        if id >= lanes.len() {
            Some("Found a source node with an invalid lane."@)
        } else {
            match spec_segment_len(s.segment_type@) {
                Err(e) => Some(e),
                Ok(len) => if lanes[id].1 != len {
                    Some("Found a source node in a lane with the wrong segment type."@)
                } else if tap_of(s.source_pin) == 0 || tap_of(s.source_pin) > lanes[id].1 {
                    Some("Found a source node with an invalid tap number."@)
                } else {
                    None
                },
            }
        }
    }
}

/// The error of the first bad source node, in order.
pub open spec fn sources_error(srcs: Seq<CRRSwitchSourceNodeInfo>, xl: Seq<LaneView>, yl: Seq<LaneView>) -> Option<Seq<char>>
    decreases srcs.len(),
{
    if srcs.len() == 0 {
        None
    } else if source_error(srcs[0], xl, yl) is Some {
        source_error(srcs[0], xl, yl)
    } else {
        sources_error(srcs.drop_first(), xl, yl)
    }
}

/// Reading the source nodes in order meets an input-pin node with a lane before
/// any bad node.
pub open spec fn sources_reach_unhandled(srcs: Seq<CRRSwitchSourceNodeInfo>, xl: Seq<LaneView>, yl: Seq<LaneView>) -> bool
    decreases srcs.len(),
{
    if srcs.len() == 0 {
        false
    } else if source_is_unhandled(srcs[0]) {
        true
    } else if source_error(srcs[0], xl, yl) is Some {
        false
    } else {
        sources_reach_unhandled(srcs.drop_first(), xl, yl)
    }
}

/// The channel lanes (x, then y) that a switch-block description defines, or
/// the error that the first failed check gives.
pub open spec fn spec_crr_switch_block(info: CRRSwitchBlockDeserialized) -> Result<(Seq<LaneView>, Seq<LaneView>), Seq<char>> {
    let sinks = info.sink_nodes@;
    let l = lane_map(sinks, CRRSwitchDir::Left);
    let r = lane_map(sinks, CRRSwitchDir::Right);
    let t = lane_map(sinks, CRRSwitchDir::Top);
    let b = lane_map(sinks, CRRSwitchDir::Bottom);
    if has_zero_sink_lane(sinks) {
        Err("Invalid lane num of 0 found."@)
    } else if r.len() != l.len() {
        Err("Left target node lanes do not match right target node lanes."@)
    } else if b.len() != t.len() {
        Err("Top target node lanes do not match bottom target node lanes."@)
    } else {
        let x = scan_lanes(l, r, l.len());
        let y = scan_lanes(t, b, t.len());
        if x.1 is Some {
            Err(x.1->0)
        } else if y.1 is Some {
            Err(y.1->0)
        } else if sources_error(info.source_nodes@, x.0, y.0) is Some {
            Err(sources_error(info.source_nodes@, x.0, y.0)->0)
        } else {
            Ok((x.0, y.0))
        }
    }
}

/// Building the switch block from `info` overflows a track count or meets an
/// input-pin source node with a lane: inputs the builder is not meant for.
pub open spec fn crr_switch_block_unsupported(info: CRRSwitchBlockDeserialized) -> bool {
    let sinks = info.sink_nodes@;
    let l = lane_map(sinks, CRRSwitchDir::Left);
    let r = lane_map(sinks, CRRSwitchDir::Right);
    let t = lane_map(sinks, CRRSwitchDir::Top);
    let b = lane_map(sinks, CRRSwitchDir::Bottom);
    if has_zero_sink_lane(sinks) || r.len() != l.len() || b.len() != t.len() {
        false
    } else {
        let x = scan_lanes(l, r, l.len());
        let y = scan_lanes(t, b, t.len());
        if lanes_width(x.0) > usize::MAX {
            true
        } else if x.1 is Some {
            false
        } else if lanes_width(y.0) > usize::MAX {
            true
        } else if y.1 is Some {
            false
        } else {
            sources_reach_unhandled(info.source_nodes@, x.0, y.0)
        }
    }
}

/// The lanes of a channel as (first track, segment length).
pub open spec fn lane_views(v: Seq<CRRSwitchBlockLane>) -> Seq<LaneView> {
    v.map_values(|l: CRRSwitchBlockLane| (l.starting_track_num as int, l.segment_len))
}

} // verus!

verus! {

proof fn lemma_scan_lanes_width_monotone(a: Map<usize, String>, b: Map<usize, String>, k: nat, n: nat)
    requires
        k <= n,
    ensures
        lanes_width(scan_lanes(a, b, k).0) <= lanes_width(scan_lanes(a, b, n).0),
    decreases n,
{
    if k < n {
        lemma_scan_lanes_width_monotone(a, b, k, (n - 1) as nat);
        let prev = scan_lanes(a, b, (n - 1) as nat);
        let cur = scan_lanes(a, b, n);
        if cur.0 != prev.0 {
            assert(cur.0.drop_last() =~= prev.0);
        }
    }
}

proof fn lemma_scan_lanes_error_sticks(a: Map<usize, String>, b: Map<usize, String>, k: nat, n: nat)
    requires
        k <= n,
        scan_lanes(a, b, k).1 is Some,
    ensures
        scan_lanes(a, b, n) == scan_lanes(a, b, k),
    decreases n,
{
    if k < n {
        lemma_scan_lanes_error_sticks(a, b, k, (n - 1) as nat);
    }
}

/// The lanes `0..n` of a channel whose sides map lanes to segment types `a` and `b`,
/// with the number of tracks they take; `None` where that number overflows.
fn build_lanes(a: &HashMap<usize, String>, b: &HashMap<usize, String>, n: usize) -> (r: Option<Result<(Vec<CRRSwitchBlockLane>, usize), &'static str>>)
    ensures
        match r {
            None => lanes_width(scan_lanes(a@, b@, n as nat).0) > usize::MAX,
            Some(Ok((ls, w))) => scan_lanes(a@, b@, n as nat) == (lane_views(ls@), None::<Seq<char>>)
                && w == lanes_width(lane_views(ls@)),
            Some(Err(e)) => scan_lanes(a@, b@, n as nat).1 == Some(e@)
                && lanes_width(scan_lanes(a@, b@, n as nat).0) <= usize::MAX,
        },
{
    let mut lanes: Vec<CRRSwitchBlockLane> = Vec::new();
    let mut cur: usize = 0;
    let mut k: usize = 0;
    assert(lane_views(lanes@) =~= Seq::<LaneView>::empty());
    while k < n
        invariant
            k <= n,
            scan_lanes(a@, b@, k as nat) == (lane_views(lanes@), None::<Seq<char>>),
            cur == lanes_width(lane_views(lanes@)),
        decreases n - k,
    {
        let ghost before = lane_views(lanes@);
        let ga = a.get(&k);
        let gb = b.get(&k);
        let (sa, sb) = match (ga, gb) {
            (Some(sa), Some(sb)) => (sa, sb),
            _ => {
                proof {
                    lemma_scan_lanes_error_sticks(a@, b@, (k + 1) as nat, n as nat);
                }
                return Some(Err("Lane missing in target nodes."));
            }
        };
        if !(*sa == *sb) {
            proof {
                lemma_scan_lanes_error_sticks(a@, b@, (k + 1) as nat, n as nat);
            }
            return Some(Err("Left and right target lanes do not target the same segment."));
        }
        let segment_len = match get_segment_len(sa.as_str()) {
            Ok(v) => v,
            Err(e) => {
                proof {
                    lemma_scan_lanes_error_sticks(a@, b@, (k + 1) as nat, n as nat);
                }
                return Some(Err(e));
            }
        };
        proof {
            lemma_scan_lanes_width_monotone(a@, b@, (k + 1) as nat, n as nat);
            assert(scan_lanes(a@, b@, (k + 1) as nat).0 == before.push((cur as int, segment_len)));
            assert(before.push((cur as int, segment_len)).drop_last() =~= before);
        }
        let next = match segment_len.checked_mul(2) {
            Some(tracks) => cur.checked_add(tracks),
            None => None,
        };
        let next = match next {
            Some(v) => v,
            None => {
                return None;
            }
        };
        lanes.push(CRRSwitchBlockLane { starting_track_num: cur, segment_len });
        assert(lane_views(lanes@) =~= before.push((cur as int, segment_len)));
        cur = next;
        k = k + 1;
    }
    Some(Ok((lanes, cur)))
}

/// Derives the channel lanes of a switch block from its sink nodes (each lane
/// starting where the previous ones end, two tracks per unit of segment length)
/// and checks the source nodes against them. `None` for a description the
/// builder is not meant for: one whose track count overflows, or with an
/// input-pin source node with a lane.
pub fn try_get_crr_switch_block(crr_sb_info: &CRRSwitchBlockDeserialized) -> (r: Option<Result<CRRSwitchBlock, &'static str>>)
    ensures
        r is None <==> crr_switch_block_unsupported(*crr_sb_info),
        match r {
            Some(Ok(sb)) => spec_crr_switch_block(*crr_sb_info) == Ok::<(Seq<LaneView>, Seq<LaneView>), Seq<char>>(
                (lane_views(sb.chan_x_lanes@), lane_views(sb.chan_y_lanes@)),
            ) && sb.chan_x_width == lanes_width(lane_views(sb.chan_x_lanes@))
                && sb.chan_y_width == lanes_width(lane_views(sb.chan_y_lanes@)),
            Some(Err(e)) => spec_crr_switch_block(*crr_sb_info) == Err::<(Seq<LaneView>, Seq<LaneView>), Seq<char>>(e@),
            None => true,
        },
{
    let sinks = &crr_sb_info.sink_nodes;
    let mut left: HashMap<usize, String> = HashMap::new();
    let mut right: HashMap<usize, String> = HashMap::new();
    let mut top: HashMap<usize, String> = HashMap::new();
    let mut bottom: HashMap<usize, String> = HashMap::new();
    let mut i: usize = 0;
    assert(sinks@.take(0) =~= Seq::<CRRSwitchSinkNodeInfo>::empty());
    while i < sinks.len()
        invariant
            i <= sinks.len(),
            sinks@ == crr_sb_info.sink_nodes@,
            left@ == lane_map(sinks@.take(i as int), CRRSwitchDir::Left),
            right@ == lane_map(sinks@.take(i as int), CRRSwitchDir::Right),
            top@ == lane_map(sinks@.take(i as int), CRRSwitchDir::Top),
            bottom@ == lane_map(sinks@.take(i as int), CRRSwitchDir::Bottom),
            forall|j: int| 0 <= j < i ==> !(sinks@[j].dir != CRRSwitchDir::IPIN && sinks@[j].lane_num == 0),
        decreases sinks.len() - i,
    {
        let s = &sinks[i];
        assert(sinks@.take(i + 1).drop_last() =~= sinks@.take(i as int));
        assert(sinks@.take(i + 1).last() == sinks@[i as int]);
        if s.dir != CRRSwitchDir::IPIN {
            if s.lane_num == 0 {
                assert(has_zero_sink_lane(sinks@));
                return Some(Err("Invalid lane num of 0 found."));
            }
            let lane = s.lane_num - 1;
            match s.dir {
                CRRSwitchDir::Left => {
                    left.insert(lane, s.segment_type.clone());
                }
                CRRSwitchDir::Right => {
                    right.insert(lane, s.segment_type.clone());
                }
                CRRSwitchDir::Top => {
                    top.insert(lane, s.segment_type.clone());
                }
                CRRSwitchDir::Bottom => {
                    bottom.insert(lane, s.segment_type.clone());
                }
                _ => {}
            }
        }
        i = i + 1;
    }
    assert(sinks@.take(i as int) =~= sinks@);
    assert(!has_zero_sink_lane(sinks@));
    let num_chan_x_lanes = left.len();
    if right.len() != num_chan_x_lanes {
        return Some(Err("Left target node lanes do not match right target node lanes."));
    }
    let num_chan_y_lanes = top.len();
    if bottom.len() != num_chan_y_lanes {
        return Some(Err("Top target node lanes do not match bottom target node lanes."));
    }
    let (chan_x_lanes, chan_x_width) = match build_lanes(&left, &right, num_chan_x_lanes) {
        None => {
            return None;
        },
        Some(Ok(v)) => v,
        Some(Err(e)) => {
            return Some(Err(e));
        },
    };
    let (chan_y_lanes, chan_y_width) = match build_lanes(&top, &bottom, num_chan_y_lanes) {
        None => {
            return None;
        },
        Some(Ok(v)) => v,
        Some(Err(e)) => {
            return Some(Err(e));
        },
    };
    let ghost xl = lane_views(chan_x_lanes@);
    let ghost yl = lane_views(chan_y_lanes@);
    let ghost expected: Result<(Seq<LaneView>, Seq<LaneView>), Seq<char>> = if sources_error(crr_sb_info.source_nodes@, xl, yl) is Some {
        Err(sources_error(crr_sb_info.source_nodes@, xl, yl)->0)
    } else {
        Ok((xl, yl))
    };
    assert(spec_crr_switch_block(*crr_sb_info) == expected);
    let srcs = &crr_sb_info.source_nodes;
    let mut j: usize = 0;
    assert(srcs@.skip(0) =~= srcs@);
    while j < srcs.len()
        invariant
            j <= srcs.len(),
            srcs@ == crr_sb_info.source_nodes@,
            spec_crr_switch_block(*crr_sb_info) == expected,
            expected == (if sources_error(srcs@, xl, yl) is Some {
                Err::<(Seq<LaneView>, Seq<LaneView>), Seq<char>>(sources_error(srcs@, xl, yl)->0)
            } else {
                Ok((xl, yl))
            }),
            xl == lane_views(chan_x_lanes@),
            yl == lane_views(chan_y_lanes@),
            sources_error(srcs@, xl, yl) == sources_error(srcs@.skip(j as int), xl, yl),
            sources_reach_unhandled(srcs@, xl, yl) == sources_reach_unhandled(srcs@.skip(j as int), xl, yl),
            crr_switch_block_unsupported(*crr_sb_info) == sources_reach_unhandled(srcs@, xl, yl),
        decreases srcs.len() - j,
    {
        let s = &srcs[j];
        let ghost rest = srcs@.skip(j as int);
        assert(rest[0] == srcs@[j as int]);
        assert(rest.drop_first() =~= srcs@.skip(j + 1));
        if s.dir != CRRSwitchDir::OPIN {
            if s.lane_num == 0 {
                return Some(Err("Found a source node with lane num 0."));
            }
            let id = s.lane_num - 1;
            let lane = match s.dir {
                CRRSwitchDir::Left | CRRSwitchDir::Right => {
                    if id >= chan_x_lanes.len() {
                        return Some(Err("Found a source node with an invalid lane."));
                    }
                    &chan_x_lanes[id]
                }
                CRRSwitchDir::Top | CRRSwitchDir::Bottom => {
                    if id >= chan_y_lanes.len() {
                        return Some(Err("Found a source node with an invalid lane."));
                    }
                    &chan_y_lanes[id]
                }
                _ => {
                    // An input pin with a lane: not handled.
                    return None;
                }
            };
            assert(lane.segment_len == source_lanes(s.dir, xl, yl)[id as int].1);
            let len = match get_segment_len(s.segment_type.as_str()) {
                Ok(v) => v,
                Err(e) => {
                    return Some(Err(e));
                }
            };
            if lane.segment_len != len {
                return Some(Err("Found a source node in a lane with the wrong segment type."));
            }
            let tap_num = match s.source_pin {
                CRRSwitchSourcePin::Tap { tap_num } => tap_num,
                _ => 1,
            };
            if tap_num == 0 || tap_num > lane.segment_len {
                return Some(Err("Found a source node with an invalid tap number."));
            }
        }
        j = j + 1;
    }
    assert(srcs@.skip(j as int) =~= Seq::<CRRSwitchSourceNodeInfo>::empty());
    Some(Ok(CRRSwitchBlock { chan_x_lanes, chan_y_lanes, chan_x_width, chan_y_width }))
}

/// Derives the channel lanes of a switch block from its sink nodes and checks
/// the source nodes against them, for a description the builder is meant for.
pub fn get_crr_switch_block(crr_sb_info: &CRRSwitchBlockDeserialized) -> (r: Result<CRRSwitchBlock, &'static str>)
    requires
        !crr_switch_block_unsupported(*crr_sb_info),
    ensures
        match r {
            Ok(sb) => spec_crr_switch_block(*crr_sb_info) == Ok::<(Seq<LaneView>, Seq<LaneView>), Seq<char>>(
                (lane_views(sb.chan_x_lanes@), lane_views(sb.chan_y_lanes@)),
            ) && sb.chan_x_width == lanes_width(lane_views(sb.chan_x_lanes@))
                && sb.chan_y_width == lanes_width(lane_views(sb.chan_y_lanes@)),
            Err(e) => spec_crr_switch_block(*crr_sb_info) == Err::<(Seq<LaneView>, Seq<LaneView>), Seq<char>>(e@),
        },
{
    match try_get_crr_switch_block(crr_sb_info) {
        Some(r) => r,
        None => vstd::pervasive::unreached(),
    }
}

} // verus!

verus! {

/// The track of a switch block at which a source node sits: its lane's first track
/// plus two per tap after the first, plus one on the right and bottom sides; 0 for pins.
pub open spec fn spec_source_ptc_num(s: CRRSwitchSourceNodeInfo, sb: CRRSwitchBlock) -> int {
    let id = s.lane_num - 1;
    let off = (tap_of(s.source_pin) - 1) * 2;
    match s.dir {
        CRRSwitchDir::Left => sb.chan_x_lanes@[id].starting_track_num + off,
        CRRSwitchDir::Right => sb.chan_x_lanes@[id].starting_track_num + off + 1,
        CRRSwitchDir::Top => sb.chan_y_lanes@[id].starting_track_num + off,
        CRRSwitchDir::Bottom => sb.chan_y_lanes@[id].starting_track_num + off + 1,
        _ => 0,
    }
}

/// The track of a switch block at which a sink node sits: its lane's first track,
/// plus one on the left and top sides; 0 for pins.
pub open spec fn spec_sink_ptc_num(s: CRRSwitchSinkNodeInfo, sb: CRRSwitchBlock) -> int {
    let id = s.lane_num - 1;
    match s.dir {
        CRRSwitchDir::Left => sb.chan_x_lanes@[id].starting_track_num + 1,
        CRRSwitchDir::Right => sb.chan_x_lanes@[id].starting_track_num + 0,
        CRRSwitchDir::Top => sb.chan_y_lanes@[id].starting_track_num + 1,
        CRRSwitchDir::Bottom => sb.chan_y_lanes@[id].starting_track_num + 0,
        _ => 0,
    }
}

/// The lanes of the channel on side `dir`.
pub open spec fn side_lanes(dir: CRRSwitchDir, sb: CRRSwitchBlock) -> Seq<CRRSwitchBlockLane> {
    if dir == CRRSwitchDir::Left || dir == CRRSwitchDir::Right {
        sb.chan_x_lanes@
    } else {
        sb.chan_y_lanes@
    }
}

/// The track at which a source node sits in the switch block.
pub fn source_node_ptc_num(source_node: &CRRSwitchSourceNodeInfo, crr_sb: &CRRSwitchBlock) -> (r: usize)
    requires
        source_node.lane_num >= 1,
        tap_of(source_node.source_pin) >= 1,
        (tap_of(source_node.source_pin) - 1) * 2 <= usize::MAX,
        source_node.dir != CRRSwitchDir::IPIN && source_node.dir != CRRSwitchDir::OPIN ==> {
            &&& source_node.lane_num - 1 < side_lanes(source_node.dir, *crr_sb).len()
            &&& side_lanes(source_node.dir, *crr_sb)[source_node.lane_num - 1].starting_track_num
                + (tap_of(source_node.source_pin) - 1) * 2 + 1 <= usize::MAX
        },
    ensures
        r == spec_source_ptc_num(*source_node, *crr_sb),
{
    let lane_num = source_node.lane_num - 1;
    let tap_num = match source_node.source_pin {
        CRRSwitchSourcePin::Tap { tap_num } => tap_num,
        _ => 1,
    };
    let ptc_offset = (tap_num - 1) * 2;
    match source_node.dir {
        CRRSwitchDir::Left => crr_sb.chan_x_lanes[lane_num].starting_track_num + ptc_offset,
        CRRSwitchDir::Right => crr_sb.chan_x_lanes[lane_num].starting_track_num + ptc_offset + 1,
        CRRSwitchDir::Top => crr_sb.chan_y_lanes[lane_num].starting_track_num + ptc_offset,
        CRRSwitchDir::Bottom => crr_sb.chan_y_lanes[lane_num].starting_track_num + ptc_offset + 1,
        _ => 0,
    }
}

/// The track at which a sink node sits in the switch block.
pub fn sink_node_ptc_num(sink_node: &CRRSwitchSinkNodeInfo, crr_sb: &CRRSwitchBlock) -> (r: usize)
    requires
        sink_node.lane_num >= 1,
        sink_node.dir != CRRSwitchDir::IPIN && sink_node.dir != CRRSwitchDir::OPIN ==> {
            &&& sink_node.lane_num - 1 < side_lanes(sink_node.dir, *crr_sb).len()
            &&& side_lanes(sink_node.dir, *crr_sb)[sink_node.lane_num - 1].starting_track_num + 1 <= usize::MAX
        },
    ensures
        r == spec_sink_ptc_num(*sink_node, *crr_sb),
{
    let lane_num = sink_node.lane_num - 1;
    match sink_node.dir {
        CRRSwitchDir::Left => crr_sb.chan_x_lanes[lane_num].starting_track_num + 1,
        CRRSwitchDir::Right => crr_sb.chan_x_lanes[lane_num].starting_track_num,
        CRRSwitchDir::Top => crr_sb.chan_y_lanes[lane_num].starting_track_num + 1,
        CRRSwitchDir::Bottom => crr_sb.chan_y_lanes[lane_num].starting_track_num,
        _ => 0,
    }
}

/// Along a lane, a source node's track moves two tracks per tap: the tap after
/// tap `t` sits two tracks on from tap `t`, on every side.
pub proof fn law_source_taps_two_tracks_apart(s: CRRSwitchSourceNodeInfo, sb: CRRSwitchBlock, t: usize)
    requires
        1 <= t < usize::MAX,
        s.lane_num >= 1,
    ensures
        s.dir != CRRSwitchDir::IPIN && s.dir != CRRSwitchDir::OPIN ==> spec_source_ptc_num(
            CRRSwitchSourceNodeInfo { source_pin: CRRSwitchSourcePin::Tap { tap_num: (t + 1) as usize }, ..s },
            sb,
        ) == spec_source_ptc_num(CRRSwitchSourceNodeInfo { source_pin: CRRSwitchSourcePin::Tap { tap_num: t }, ..s }, sb)
            + 2,
{
}

/// A source node at the first tap of a lane, on the left or top side, sits on
/// the lane's first track.
pub proof fn law_source_first_tap_is_lane_start(s: CRRSwitchSourceNodeInfo, sb: CRRSwitchBlock)
    requires
        s.lane_num >= 1,
        tap_of(s.source_pin) == 1,
        s.dir == CRRSwitchDir::Left || s.dir == CRRSwitchDir::Top,
    ensures
        spec_source_ptc_num(s, sb) == side_lanes(s.dir, sb)[s.lane_num - 1].starting_track_num,
{
}

/// A source node on the right (bottom) side sits one track on from the same
/// node on the left (top) side.
pub proof fn law_source_far_side_one_track_on(s: CRRSwitchSourceNodeInfo, sb: CRRSwitchBlock)
    requires
        s.lane_num >= 1,
        tap_of(s.source_pin) >= 1,
    ensures
        spec_source_ptc_num(CRRSwitchSourceNodeInfo { dir: CRRSwitchDir::Right, ..s }, sb) == spec_source_ptc_num(
            CRRSwitchSourceNodeInfo { dir: CRRSwitchDir::Left, ..s },
            sb,
        ) + 1,
        spec_source_ptc_num(CRRSwitchSourceNodeInfo { dir: CRRSwitchDir::Bottom, ..s }, sb) == spec_source_ptc_num(
            CRRSwitchSourceNodeInfo { dir: CRRSwitchDir::Top, ..s },
            sb,
        ) + 1,
{
}

/// The lanes of a channel follow each other: each starts where the ones before
/// it end, two tracks per unit of segment length, the first at track 0.
pub proof fn law_lanes_follow_each_other(a: Map<usize, String>, b: Map<usize, String>, n: nat)
    ensures
        forall|i: int|
            0 <= i < scan_lanes(a, b, n).0.len() ==> (#[trigger] scan_lanes(a, b, n).0[i]).0 == lanes_width(
                scan_lanes(a, b, n).0.take(i),
            ),
    decreases n,
{
    if n > 0 {
        law_lanes_follow_each_other(a, b, (n - 1) as nat);
        let prev = scan_lanes(a, b, (n - 1) as nat).0;
        let cur = scan_lanes(a, b, n).0;
        if cur != prev {
            assert(cur.drop_last() =~= prev);
            assert forall|i: int| 0 <= i < cur.len() implies (#[trigger] cur[i]).0 == lanes_width(cur.take(i)) by {
                if i < prev.len() {
                    assert(cur.take(i) =~= prev.take(i));
                    assert(cur[i] == prev[i]);
                } else {
                    assert(cur.take(i) =~= prev);
                }
            }
        }
    }
}

} // verus!
