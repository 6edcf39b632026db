//! The state of the complex-block view: the block selected, whether all of its
//! hierarchy is shown expanded, and the expansion state itself.
use vstd::prelude::*;
use crate::intra_tile::{IntraTileState, ExpansionModel, expand_all, expand_all_blocks, collapse_all_blocks};
use crate::layout::FPGAArch;
use crate::pb_type::PBType;

verus! {

broadcast use vstd::string::group_string_axioms;

/// The state of the complex-block view.
pub struct ComplexBlockViewState {
    pub selected_complex_block_name: Option<String>,
    pub intra_tile_state: IntraTileState,
    pub all_blocks_expanded: bool,
    pub draw_intra_interconnects: bool,
}

/// The complex-block view.
pub struct ComplexBlockView {
    pub complex_block_view_state: ComplexBlockViewState,
}

/// The index of the first block of `blocks` named `name`, or -1.
pub open spec fn first_named(blocks: Seq<PBType>, name: Seq<char>, from: int) -> int
    decreases blocks.len() - from,
{
    if from < 0 || from >= blocks.len() {
        -1
    } else if blocks[from].name@ == name {
        from
    } else {
        first_named(blocks, name, from + 1)
    }
}

/// The expansion state after applying the "expand all" setting: with it on, the
/// selected complex block (the first of that name) is expanded whole; with it
/// off, every block is collapsed.
pub open spec fn expand_all_state(
    st: ExpansionModel,
    all_expanded: bool,
    selected: Option<Seq<char>>,
    blocks: Seq<PBType>,
) -> ExpansionModel {
    if all_expanded {
        match selected {
            Some(name) => {
                let k = first_named(blocks, name, 0);
                if k >= 0 {
                    expand_all(st, blocks[k], blocks[k].name@)
                } else {
                    st
                }
            },
            None => st,
        }
    } else {
        ExpansionModel { expanded: Set::empty(), modes: st.modes }
    }
}

/// The name held by an optional string.
pub open spec fn opt_name(s: Option<String>) -> Option<Seq<char>> {
    match s {
        Some(n) => Some(n@),
        None => None,
    }
}

impl ComplexBlockView {
    /// No block selected, nothing expanded, interconnects drawn.
    pub fn new() -> (r: ComplexBlockView)
        ensures
            r.complex_block_view_state.selected_complex_block_name is None,
            r.complex_block_view_state.intra_tile_state@.expanded == Set::<Seq<char>>::empty(),
            r.complex_block_view_state.intra_tile_state@.modes == Map::<Seq<char>, usize>::empty(),
            !r.complex_block_view_state.all_blocks_expanded,
            r.complex_block_view_state.draw_intra_interconnects,
    {
        ComplexBlockView {
            complex_block_view_state: ComplexBlockViewState {
                selected_complex_block_name: None,
                intra_tile_state: IntraTileState::new(),
                all_blocks_expanded: false,
                draw_intra_interconnects: true,
            },
        }
    }

    /// Opening the view applies the "expand all" setting to the loaded architecture.
    pub fn on_view_open(&mut self, arch: &Option<FPGAArch>)
        ensures
            final(self).complex_block_view_state.intra_tile_state@ == match arch {
                Some(a) => expand_all_state(
                    old(self).complex_block_view_state.intra_tile_state@,
                    old(self).complex_block_view_state.all_blocks_expanded,
                    opt_name(old(self).complex_block_view_state.selected_complex_block_name),
                    a.complex_block_list@,
                ),
                None => old(self).complex_block_view_state.intra_tile_state@,
            },
            final(self).complex_block_view_state.selected_complex_block_name
                == old(self).complex_block_view_state.selected_complex_block_name,
            final(self).complex_block_view_state.all_blocks_expanded == old(self).complex_block_view_state.all_blocks_expanded,
            final(self).complex_block_view_state.draw_intra_interconnects
                == old(self).complex_block_view_state.draw_intra_interconnects,
    {
        if let Some(arch) = arch {
            self.apply_expand_all_state(arch);
        }
    }

    /// Closing the view forgets the selected block.
    pub fn on_view_close(&mut self)
        ensures
            final(self).complex_block_view_state.selected_complex_block_name is None,
            final(self).complex_block_view_state.intra_tile_state == old(self).complex_block_view_state.intra_tile_state,
            final(self).complex_block_view_state.all_blocks_expanded == old(self).complex_block_view_state.all_blocks_expanded,
            final(self).complex_block_view_state.draw_intra_interconnects
                == old(self).complex_block_view_state.draw_intra_interconnects,
    {
        self.complex_block_view_state.selected_complex_block_name = None;
    }

    /// Applies the "expand all" setting: expands the whole of the selected
    /// complex block, or collapses everything.
    pub fn apply_expand_all_state(&mut self, arch: &FPGAArch)
        ensures
            final(self).complex_block_view_state.intra_tile_state@ == expand_all_state(
                old(self).complex_block_view_state.intra_tile_state@,
                old(self).complex_block_view_state.all_blocks_expanded,
                opt_name(old(self).complex_block_view_state.selected_complex_block_name),
                arch.complex_block_list@,
            ),
            final(self).complex_block_view_state.selected_complex_block_name
                == old(self).complex_block_view_state.selected_complex_block_name,
            final(self).complex_block_view_state.all_blocks_expanded == old(self).complex_block_view_state.all_blocks_expanded,
            final(self).complex_block_view_state.draw_intra_interconnects
                == old(self).complex_block_view_state.draw_intra_interconnects,
    {
        if self.complex_block_view_state.all_blocks_expanded {
            let found = match &self.complex_block_view_state.selected_complex_block_name {
                Some(name) => find_block(&arch.complex_block_list, name.as_str()),
                None => None,
            };
            if let Some(k) = found {
                let root_pb = &arch.complex_block_list[k];
                expand_all_blocks(&mut self.complex_block_view_state.intra_tile_state, root_pb, root_pb.name.as_str());
            }
        } else {
            collapse_all_blocks(&mut self.complex_block_view_state.intra_tile_state);
            assert(self.complex_block_view_state.intra_tile_state@ =~= (ExpansionModel {
                expanded: Set::empty(),
                modes: old(self).complex_block_view_state.intra_tile_state@.modes,
            }));
        }
    }
}

/// The index of the first block of `blocks` named `name`.
pub fn find_block(blocks: &Vec<PBType>, name: &str) -> (r: Option<usize>)
    ensures
        match r {
            Some(k) => k < blocks.len() && first_named(blocks@, name@, 0) == k,
            None => first_named(blocks@, name@, 0) == -1,
        },
{
    let mut k: usize = 0;
    while k < blocks.len()
        invariant
            k <= blocks.len(),
            first_named(blocks@, name@, 0) == first_named(blocks@, name@, k as int),
        decreases blocks.len() - k,
    {
        if crate::grid::str_eq(blocks[k].name.as_str(), name) {
            return Some(k);
        }
        k = k + 1;
    }
    None
}

} // verus!
