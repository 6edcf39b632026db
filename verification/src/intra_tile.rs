//! The expansion state of the block view: which block instances (named by
//! their dotted instance paths) are shown expanded and which mode is chosen for
//! each, and the expansion of a whole hierarchy at once.
use vstd::prelude::*;
use crate::pb_type::{
    PBType, valid_mode, children_for_mode, child_instance_name, validate_mode_index, get_children_for_mode,
    generate_child_instance_name,
};

verus! {

broadcast use vstd::string::group_string_axioms;

/// The expansion state of the block view.
pub struct IntraTileState {
    /// The instance paths of the blocks shown expanded.
    pub expanded_blocks: Vec<String>,
    /// The mode chosen for an instance path (the first entry for a path counts).
    pub selected_modes: Vec<(String, usize)>,
}

/// The expansion state as values.
pub struct ExpansionModel {
    pub expanded: Set<Seq<char>>,
    pub modes: Map<Seq<char>, usize>,
}

/// The paths held in a list of strings.
pub open spec fn path_set(v: Seq<String>) -> Set<Seq<char>> {
    Set::new(|p: Seq<char>| exists|i: int| 0 <= i < v.len() && (#[trigger] v[i])@ == p)
}

/// The index of the first entry of `v`, from `i` on, for the path `p`, or -1.
pub open spec fn first_entry(v: Seq<(String, usize)>, p: Seq<char>, i: int) -> int
    decreases v.len() - i,
{
    if i < 0 || i >= v.len() {
        -1
    } else if v[i].0@ == p {
        i
    } else {
        first_entry(v, p, i + 1)
    }
}

/// The modes chosen in a list of entries: for each path, the first entry's.
pub open spec fn mode_map(v: Seq<(String, usize)>) -> Map<Seq<char>, usize> {
    Map::new(|p: Seq<char>| first_entry(v, p, 0) >= 0, |p: Seq<char>| v[first_entry(v, p, 0)].1)
}

impl View for IntraTileState {
    type V = ExpansionModel;

    open spec fn view(&self) -> ExpansionModel {
        ExpansionModel { expanded: path_set(self.expanded_blocks@), modes: mode_map(self.selected_modes@) }
    }
}

proof fn lemma_first_entry(v: Seq<(String, usize)>, p: Seq<char>, i: int)
    requires
        0 <= i,
    ensures
        first_entry(v, p, i) == -1 || (i <= first_entry(v, p, i) < v.len() && v[first_entry(v, p, i)].0@ == p),
        forall|j: int| i <= j < v.len() && (first_entry(v, p, i) == -1 || j < first_entry(v, p, i)) ==> (#[trigger] v[j]).0@ != p,
    decreases v.len() - i,
{
    if i < v.len() && v[i].0@ != p {
        lemma_first_entry(v, p, i + 1);
    }
}

/// The first entry for `p` is at `f` exactly when no entry before `f` is for `p`
/// and the one at `f` is.
proof fn lemma_first_entry_at(v: Seq<(String, usize)>, p: Seq<char>, f: int)
    requires
        0 <= f < v.len(),
        v[f].0@ == p,
        forall|j: int| 0 <= j < f ==> (#[trigger] v[j]).0@ != p,
    ensures
        first_entry(v, p, 0) == f,
{
    lemma_first_entry(v, p, 0);
}

/// No entry is for `p`.
proof fn lemma_first_entry_none(v: Seq<(String, usize)>, p: Seq<char>)
    requires
        forall|j: int| 0 <= j < v.len() ==> (#[trigger] v[j]).0@ != p,
    ensures
        first_entry(v, p, 0) == -1,
{
    lemma_first_entry(v, p, 0);
}

impl IntraTileState {
    /// No block expanded, no mode chosen.
    pub fn new() -> (r: IntraTileState)
        ensures
            r@.expanded == Set::<Seq<char>>::empty(),
            r@.modes == Map::<Seq<char>, usize>::empty(),
    {
        let r = IntraTileState { expanded_blocks: Vec::new(), selected_modes: Vec::new() };
        assert(r@.expanded =~= Set::<Seq<char>>::empty());
        assert(r@.modes =~= Map::<Seq<char>, usize>::empty());
        r
    }

    /// Marks the block at `path` expanded.
    pub fn insert_expanded(&mut self, path: String)
        ensures
            final(self)@.expanded == old(self)@.expanded.insert(path@),
            final(self)@.modes == old(self)@.modes,
    {
        let mut i: usize = 0;
        while i < self.expanded_blocks.len()
            invariant
                i <= self.expanded_blocks.len(),
                forall|j: int| 0 <= j < i ==> (#[trigger] self.expanded_blocks@[j])@ != path@,
            decreases self.expanded_blocks.len() - i,
        {
            if crate::grid::str_eq(self.expanded_blocks[i].as_str(), path.as_str()) {
                assert(path_set(self.expanded_blocks@) =~= path_set(self.expanded_blocks@).insert(path@));
                return;
            }
            i = i + 1;
        }
        let ghost before = self.expanded_blocks@;
        self.expanded_blocks.push(path);
        assert(path_set(self.expanded_blocks@) =~= path_set(before).insert(self.expanded_blocks@[before.len() as int]@)) by {
            assert forall|p: Seq<char>| path_set(before).contains(p) implies path_set(self.expanded_blocks@).contains(p) by {
                let i = choose|i: int| 0 <= i < before.len() && (#[trigger] before[i])@ == p;
                assert(self.expanded_blocks@[i] == before[i]);
            }
        }
    }

    /// The mode chosen for `path`, if any.
    pub fn mode_lookup(&self, path: &str) -> (r: Option<usize>)
        ensures
            r == (if self@.modes.contains_key(path@) {
                Some(self@.modes[path@])
            } else {
                None
            }),
    {
        let mut i: usize = 0;
        while i < self.selected_modes.len()
            invariant
                i <= self.selected_modes.len(),
                first_entry(self.selected_modes@, path@, 0) == first_entry(self.selected_modes@, path@, i as int),
            decreases self.selected_modes.len() - i,
        {
            if crate::grid::str_eq(self.selected_modes[i].0.as_str(), path) {
                return Some(self.selected_modes[i].1);
            }
            i = i + 1;
        }
        None
    }

    /// Chooses the mode `mode` for `path`.
    pub fn set_mode(&mut self, path: String, mode: usize)
        ensures
            final(self)@.modes == old(self)@.modes.insert(path@, mode),
            final(self)@.expanded == old(self)@.expanded,
    {
        let ghost v = self.selected_modes@;
        let ghost p = path@;
        let mut i: usize = 0;
        while i < self.selected_modes.len()
            invariant
                self.selected_modes@ == v,
                v == old(self).selected_modes@,
                self.expanded_blocks@ == old(self).expanded_blocks@,
                p == path@,
                i <= v.len(),
                forall|j: int| 0 <= j < i ==> (#[trigger] v[j]).0@ != p,
            decreases self.selected_modes.len() - i,
        {
            if crate::grid::str_eq(self.selected_modes[i].0.as_str(), path.as_str()) {
                let entry = (path, mode);
                let ghost ev = entry;
                assert(ev.0@ == p);
                self.selected_modes.set(i, entry);
                let ghost w = self.selected_modes@;
                assert(w =~= v.update(i as int, ev));
                assert forall|q: Seq<char>| #[trigger] mode_map(w).contains_key(q) == mode_map(v).insert(p, mode).contains_key(q)
                    && (mode_map(w).contains_key(q) ==> mode_map(w)[q] == mode_map(v).insert(p, mode)[q]) by {
                    lemma_first_entry(v, q, 0);
                    lemma_first_entry(w, q, 0);
                    if q == p {
                        lemma_first_entry_at(w, q, i as int);
                    } else {
                        if first_entry(v, q, 0) >= 0 {
                            let f = first_entry(v, q, 0);
                            assert(f != i);
                            lemma_first_entry_at(w, q, f);
                        } else {
                            assert forall|j: int| 0 <= j < w.len() implies (#[trigger] w[j]).0@ != q by {
                                if j != i {
                                    assert(w[j] == v[j]);
                                }
                            }
                            lemma_first_entry_none(w, q);
                        }
                    }
                }
                assert(mode_map(w) =~= mode_map(v).insert(p, mode));
                assert(old(self)@.modes == mode_map(v));
                assert(self@.modes == mode_map(w));
                return;
            }
            assert(v[i as int].0@ != p);
            i = i + 1;
        }
        self.selected_modes.push((path, mode));
        let ghost w = self.selected_modes@;
        assert forall|q: Seq<char>| #[trigger] mode_map(w).contains_key(q) == mode_map(v).insert(p, mode).contains_key(q)
            && (mode_map(w).contains_key(q) ==> mode_map(w)[q] == mode_map(v).insert(p, mode)[q]) by {
            lemma_first_entry(v, q, 0);
            lemma_first_entry(w, q, 0);
            if q == p {
                lemma_first_entry_at(w, q, v.len() as int);
            } else if first_entry(v, q, 0) >= 0 {
                let f = first_entry(v, q, 0);
                assert(w[f] == v[f]);
                assert forall|j: int| 0 <= j < f implies (#[trigger] w[j]).0@ != q by {
                    assert(w[j] == v[j]);
                }
                lemma_first_entry_at(w, q, f);
            } else {
                assert forall|j: int| 0 <= j < w.len() implies (#[trigger] w[j]).0@ != q by {
                    if j < v.len() {
                        assert(w[j] == v[j]);
                    }
                }
                lemma_first_entry_none(w, q);
            }
        }
        assert(mode_map(w) =~= mode_map(v).insert(p, mode));
    }
}

/// The number of instances of `child` (none where its count is not positive).
pub open spec fn instance_count(child: PBType) -> nat {
    if child.num_pb > 0 {
        child.num_pb as nat
    } else {
        0
    }
}

/// The path of the instance `name` under the block at `path`.
pub open spec fn child_path(path: Seq<char>, name: Seq<char>) -> Seq<char> {
    path + seq!['.'] + name
}

/// The state after expanding the block `pb` at `path` and everything under it:
/// the block is marked expanded, its chosen mode is corrected where it is not one
/// of its modes (and recorded where it changes), and each instance of each child
/// shown for that mode is expanded in turn.
pub open spec fn expand_all(st: ExpansionModel, pb: PBType, path: Seq<char>) -> ExpansionModel
    decreases pb, 0nat,
{
    let expanded = st.expanded.insert(path);
    let current = if st.modes.contains_key(path) {
        st.modes[path]
    } else {
        0
    };
    let mode = valid_mode(pb, current);
    let modes = if mode != current {
        st.modes.insert(path, mode)
    } else {
        st.modes
    };
    proof {
        if pb.modes.len() > 0 {
            let k: int = if mode < pb.modes.len() { mode as int } else { 0 };
            assert(decreases_to!(pb => pb.modes));
            assert(decreases_to!(pb.modes => pb.modes@));
            assert(decreases_to!(pb.modes@ => pb.modes@[k]));
            assert(decreases_to!(pb.modes@[k] => pb.modes@[k].pb_types));
            assert(decreases_to!(pb.modes@[k].pb_types => pb.modes@[k].pb_types@));
        } else {
            assert(decreases_to!(pb => pb.pb_types));
            assert(decreases_to!(pb.pb_types => pb.pb_types@));
        }
    }
    expand_children(ExpansionModel { expanded, modes }, children_for_mode(pb, mode), path)
}

/// The state after expanding every instance of each of `children` under `path`,
/// in order.
pub open spec fn expand_children(st: ExpansionModel, children: Seq<PBType>, path: Seq<char>) -> ExpansionModel
    decreases children, 0nat,
{
    if children.len() == 0 {
        st
    } else {
        expand_instances(
            expand_children(st, children.drop_last(), path),
            children.last(),
            path,
            instance_count(children.last()),
        )
    }
}

/// The state after expanding the first `k` instances of `child` under `path`, in
/// order.
pub open spec fn expand_instances(st: ExpansionModel, child: PBType, path: Seq<char>, k: nat) -> ExpansionModel
    decreases child, k,
{
    if k == 0 {
        st
    } else {
        let prev = expand_instances(st, child, path, (k - 1) as nat);
        expand_all(prev, child, child_path(path, child_instance_name(child, (k - 1) as usize)))
    }
}

/// Expands the block `pb_type` at `instance_path` and every block under it, as
/// shown for the modes chosen (each corrected where it is not one of its block's
/// modes).
pub fn expand_all_blocks(state: &mut IntraTileState, pb_type: &PBType, instance_path: &str)
    ensures
        final(state)@ == expand_all(old(state)@, *pb_type, instance_path@),
    decreases *pb_type,
{
    let ghost st0 = state@;
    state.insert_expanded(String::from_str(instance_path));
    let current = match state.mode_lookup(instance_path) {
        Some(m) => m,
        None => 0,
    };
    let mode_index = validate_mode_index(pb_type, current);
    // Record the corrected mode index where it changed.
    if mode_index != current {
        state.set_mode(String::from_str(instance_path), mode_index);
    }
    let ghost st1 = state@;
    let children = get_children_for_mode(pb_type, mode_index);
    let mut c: usize = 0;
    while c < children.len()
        invariant
            c <= children.len(),
            children@ == children_for_mode(*pb_type, mode_index),
            state@ == expand_children(st1, children@.take(c as int), instance_path@),
        decreases children.len() - c,
    {
        let child = &children[c];
        let ghost before = state@;
        let mut i: i32 = 0;
        while i < child.num_pb
            invariant
                0 <= i,
                i <= child.num_pb || child.num_pb <= 0,
                child.num_pb <= 0 ==> i == 0,
                *child == children@[c as int],
                c < children.len(),
                children@ == children_for_mode(*pb_type, mode_index),
                state@ == expand_instances(before, *child, instance_path@, i as nat),
            decreases child.num_pb - i,
        {
            let instance_name = generate_child_instance_name(child, i as usize);
            let mut child_path_string = String::from_str(instance_path);
            child_path_string.append(".");
            child_path_string.append(instance_name.as_str());
            proof {
                reveal_strlit(".");
                assert(child_path_string@ =~= child_path(instance_path@, child_instance_name(*child, i as usize)));
                if pb_type.modes.len() > 0 {
                    let k: int = if mode_index < pb_type.modes.len() { mode_index as int } else { 0 };
                    assert(decreases_to!(*pb_type => pb_type.modes));
                    assert(decreases_to!(pb_type.modes => pb_type.modes@));
                    assert(decreases_to!(pb_type.modes@ => pb_type.modes@[k]));
                    assert(decreases_to!(pb_type.modes@[k] => pb_type.modes@[k].pb_types));
                    assert(decreases_to!(pb_type.modes@[k].pb_types => pb_type.modes@[k].pb_types@));
                    assert(decreases_to!(pb_type.modes@[k].pb_types@ => pb_type.modes@[k].pb_types@[c as int]));
                } else {
                    assert(decreases_to!(*pb_type => pb_type.pb_types));
                    assert(decreases_to!(pb_type.pb_types => pb_type.pb_types@));
                    assert(decreases_to!(pb_type.pb_types@ => pb_type.pb_types@[c as int]));
                }
            }
            expand_all_blocks(state, child, child_path_string.as_str());
            i = i + 1;
        }
        assert(instance_count(*child) == i as nat);
        assert(children@.take(c + 1).drop_last() =~= children@.take(c as int));
        c = c + 1;
    }
    assert(children@.take(c as int) =~= children@);
}

/// Collapses every block; the chosen modes are kept.
pub fn collapse_all_blocks(state: &mut IntraTileState)
    ensures
        final(state)@.expanded == Set::<Seq<char>>::empty(),
        final(state)@.modes == old(state)@.modes,
{
    state.expanded_blocks.clear();
    assert(state@.expanded =~= Set::<Seq<char>>::empty());
}

/// Expanding a block expands it and leaves expanded whatever was: the
/// expansion only adds blocks.
pub proof fn law_expand_all_only_adds(st: ExpansionModel, pb: PBType, path: Seq<char>)
    ensures
        expand_all(st, pb, path).expanded.contains(path),
        st.expanded.subset_of(expand_all(st, pb, path).expanded),
    decreases pb, 0nat,
{
    let expanded = st.expanded.insert(path);
    let current = if st.modes.contains_key(path) { st.modes[path] } else { 0 };
    let mode = valid_mode(pb, current);
    let modes = if mode != current { st.modes.insert(path, mode) } else { st.modes };
    if pb.modes.len() > 0 {
        let k: int = if mode < pb.modes.len() { mode as int } else { 0 };
        assert(decreases_to!(pb => pb.modes));
        assert(decreases_to!(pb.modes => pb.modes@));
        assert(decreases_to!(pb.modes@ => pb.modes@[k]));
        assert(decreases_to!(pb.modes@[k] => pb.modes@[k].pb_types));
        assert(decreases_to!(pb.modes@[k].pb_types => pb.modes@[k].pb_types@));
    } else {
        assert(decreases_to!(pb => pb.pb_types));
        assert(decreases_to!(pb.pb_types => pb.pb_types@));
    }
    lemma_expand_children_only_adds(ExpansionModel { expanded, modes }, children_for_mode(pb, mode), path);
}

proof fn lemma_expand_children_only_adds(st: ExpansionModel, children: Seq<PBType>, path: Seq<char>)
    ensures
        st.expanded.subset_of(expand_children(st, children, path).expanded),
    decreases children, 0nat,
{
    if children.len() > 0 {
        lemma_expand_children_only_adds(st, children.drop_last(), path);
        lemma_expand_instances_only_adds(
            expand_children(st, children.drop_last(), path),
            children.last(),
            path,
            instance_count(children.last()),
        );
    }
}

proof fn lemma_expand_instances_only_adds(st: ExpansionModel, child: PBType, path: Seq<char>, k: nat)
    ensures
        st.expanded.subset_of(expand_instances(st, child, path, k).expanded),
    decreases child, k,
{
    if k > 0 {
        lemma_expand_instances_only_adds(st, child, path, (k - 1) as nat);
        let prev = expand_instances(st, child, path, (k - 1) as nat);
        law_expand_all_only_adds(prev, child, child_path(path, child_instance_name(child, (k - 1) as usize)));
    }
}

} // verus!
