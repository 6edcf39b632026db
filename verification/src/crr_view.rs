//! The state of the CRR switch-block view: what it shows and the switch-block
//! map it labels the grid with.
use vstd::prelude::*;
use crate::sb_maps::{
    SBMaps, parse_sb_maps_yaml_checked, sb_maps_result_view, spec_sb_maps_from_yaml, sb_maps_yaml_reaches_bare_prefix,
};
use crate::yaml::yaml_documents;

verus! {

/// The switch-block map the view starts with.
pub const DEFAULT_SB_MAPS_YAML: &'static str = "
SB_MAPS:
    # ==================================================
    # Corners
    # ==================================================
    SB_0__0_: null
    SB_0__41_: null
    SB_41__0_: null
    SB_41__41_: null
    # ==================================================
    # IO Switchboxes
    # ==================================================
    SB_\\*__0_: sb_io.csv
    SB_0__\\*_: sb_io.csv
    SB_41__\\*_: sb_io.csv
    SB_\\*__41_: sb_io.csv
    # ==================================================
    # DSP Related Column 1
    # ==================================================
    SB_[6:41:8]__[1:41:4]_: sb_mult_36_0.csv
    SB_[6:41:8]__[2:41:4]_: sb_mult_36_1.csv
    SB_[6:41:8]__[3:41:4]_: sb_mult_36_2.csv
    SB_[6:41:8]__[4:41:4]_: sb_mult_36_3.csv
    # ==================================================
    # BRAM Related
    # ==================================================
    SB_[2:41:8]__[1:41:6]_: sb_memory_0.csv
    SB_[2:41:8]__[2:41:6]_: sb_memory_1.csv
    SB_[2:41:8]__[3:41:6]_: sb_memory_2.csv
    SB_[2:41:8]__[4:41:6]_: sb_memory_3.csv
    SB_[2:41:8]__[5:41:6]_: sb_memory_4.csv
    SB_[2:41:8]__[6:41:6]_: sb_memory_5.csv
    # ==================================================
    SB_\\*__\\*_: sb_main.csv
";

/// The state of the CRR view.
pub struct CRRViewState {
    show_segment_connections: bool,
    show_switch_connections: bool,
    show_lb_pin_connections: bool,
    pub selected_layout_index: usize,
    sb_maps: SBMaps,
}

impl CRRViewState {
    /// The view showing segment and switch connections but not those of the
    /// logic-block pins, on the first layout, labelled by `sb_maps`.
    pub fn with_sb_maps(sb_maps: SBMaps) -> (r: CRRViewState)
        ensures
            r.spec_show_segment_connections(),
            r.spec_show_switch_connections(),
            !r.spec_show_lb_pin_connections(),
            r.spec_selected_layout_index() == 0,
            r.spec_sb_maps() == sb_maps,
    {
        CRRViewState {
            show_segment_connections: true,
            show_switch_connections: true,
            show_lb_pin_connections: false,
            selected_layout_index: 0,
            sb_maps,
        }
    }

    /// The view as it starts, labelled by the switch-block map of
    /// `DEFAULT_SB_MAPS_YAML`; `None` where that map is not read.
    pub fn new_default() -> (r: Option<CRRViewState>)
        ensures
            r matches Some(s) ==> ({
                &&& s.spec_show_segment_connections()
                &&& s.spec_show_switch_connections()
                &&& !s.spec_show_lb_pin_connections()
                &&& s.spec_selected_layout_index() == 0
                &&& !sb_maps_yaml_reaches_bare_prefix(yaml_documents(DEFAULT_SB_MAPS_YAML@))
                &&& sb_maps_result_view(Ok(s.spec_sb_maps())) == spec_sb_maps_from_yaml(
                    yaml_documents(DEFAULT_SB_MAPS_YAML@),
                )
            }),
            r is None <==> (sb_maps_yaml_reaches_bare_prefix(yaml_documents(DEFAULT_SB_MAPS_YAML@))
                || spec_sb_maps_from_yaml(yaml_documents(DEFAULT_SB_MAPS_YAML@)) is Err),
    {
        match parse_sb_maps_yaml_checked(DEFAULT_SB_MAPS_YAML) {
            Some(Ok(sb_maps)) => Some(CRRViewState::with_sb_maps(sb_maps)),
            _ => None,
        }
    }

    pub closed spec fn spec_show_segment_connections(&self) -> bool {
        self.show_segment_connections
    }

    pub closed spec fn spec_show_switch_connections(&self) -> bool {
        self.show_switch_connections
    }

    pub closed spec fn spec_show_lb_pin_connections(&self) -> bool {
        self.show_lb_pin_connections
    }

    pub closed spec fn spec_selected_layout_index(&self) -> usize {
        self.selected_layout_index
    }

    pub closed spec fn spec_sb_maps(&self) -> SBMaps {
        self.sb_maps
    }

    /// Whether the connections between segments are shown.
    pub fn show_segment_connections(&self) -> (r: bool)
        ensures
            r == self.spec_show_segment_connections(),
    {
        self.show_segment_connections
    }

    /// Whether the connections through switches are shown.
    pub fn show_switch_connections(&self) -> (r: bool)
        ensures
            r == self.spec_show_switch_connections(),
    {
        self.show_switch_connections
    }

    /// Whether the connections of the logic-block pins are shown.
    pub fn show_lb_pin_connections(&self) -> (r: bool)
        ensures
            r == self.spec_show_lb_pin_connections(),
    {
        self.show_lb_pin_connections
    }

    /// Shows or hides the connections between segments.
    pub fn set_show_segment_connections(&mut self, v: bool)
        ensures
            final(self).spec_show_segment_connections() == v,
            final(self).spec_show_switch_connections() == old(self).spec_show_switch_connections(),
            final(self).spec_show_lb_pin_connections() == old(self).spec_show_lb_pin_connections(),
            final(self).spec_selected_layout_index() == old(self).spec_selected_layout_index(),
            final(self).spec_sb_maps() == old(self).spec_sb_maps(),
    {
        self.show_segment_connections = v;
    }

    /// Shows or hides the connections through switches.
    pub fn set_show_switch_connections(&mut self, v: bool)
        ensures
            final(self).spec_show_switch_connections() == v,
            final(self).spec_show_segment_connections() == old(self).spec_show_segment_connections(),
            final(self).spec_show_lb_pin_connections() == old(self).spec_show_lb_pin_connections(),
            final(self).spec_selected_layout_index() == old(self).spec_selected_layout_index(),
            final(self).spec_sb_maps() == old(self).spec_sb_maps(),
    {
        self.show_switch_connections = v;
    }

    /// Shows or hides the connections of the logic-block pins.
    pub fn set_show_lb_pin_connections(&mut self, v: bool)
        ensures
            final(self).spec_show_lb_pin_connections() == v,
            final(self).spec_show_segment_connections() == old(self).spec_show_segment_connections(),
            final(self).spec_show_switch_connections() == old(self).spec_show_switch_connections(),
            final(self).spec_selected_layout_index() == old(self).spec_selected_layout_index(),
            final(self).spec_sb_maps() == old(self).spec_sb_maps(),
    {
        self.show_lb_pin_connections = v;
    }

    /// The switch-block map the grid is labelled with.
    pub fn sb_maps(&self) -> (r: &SBMaps)
        ensures
            *r == self.spec_sb_maps(),
    {
        &self.sb_maps
    }
}

} // verus!
