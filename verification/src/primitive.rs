//! Primitives (models) and where the complex blocks use them: the pb_types
//! whose BLIF model is a given model, with their paths in the hierarchy, and
//! whether a model is sequential.
use vstd::prelude::*;
use crate::pb_type::PBType;
use crate::layout::FPGAArch;

verus! {

broadcast use vstd::string::group_string_axioms;

/// A port of a model.
pub struct ModelPort {
    pub name: String,
    pub is_clock: bool,
    /// The output ports this input reaches through combinational logic.
    pub combinational_sink_ports: Vec<String>,
}

/// A model: a primitive the architecture's blocks can implement.
pub struct Model {
    pub name: String,
    pub input_ports: Vec<ModelPort>,
    pub output_ports: Vec<ModelPort>,
}

/// A pb_type of the hierarchy that implements a model, with the names of the
/// pb_types from the root down to it.
pub struct PBTypeMatch<'a> {
    pub path: Vec<String>,
    pub pb_type: &'a PBType,
}

/// The names of a list of strings.
pub open spec fn names(v: Seq<String>) -> Seq<Seq<char>> {
    v.map_values(|s: String| s@)
}

/// `parts` joined with `sep` between each two.
pub open spec fn join(parts: Seq<Seq<char>>, sep: Seq<char>) -> Seq<char>
    decreases parts.len(),
{
    if parts.len() == 0 {
        Seq::empty()
    } else if parts.len() == 1 {
        parts[0]
    } else {
        join(parts.drop_last(), sep) + sep + parts.last()
    }
}

impl<'a> PBTypeMatch<'a> {
    /// The path as `"a > b > c"`.
    pub fn path_display(&self) -> (r: String)
        ensures
            r@ == join(names(self.path@), " > "@),
    {
        let mut r = String::new();
        let mut i: usize = 0;
        while i < self.path.len()
            invariant
                i <= self.path.len(),
                r@ == join(names(self.path@).take(i as int), " > "@),
            decreases self.path.len() - i,
        {
            let ghost t = names(self.path@).take(i + 1);
            assert(t.drop_last() =~= names(self.path@).take(i as int));
            if i > 0 {
                r.append(" > ");
            } else {
                assert(names(self.path@).take(i as int) =~= Seq::<Seq<char>>::empty());
            }
            r.append(self.path[i].as_str());
            assert(r@ =~= join(t, " > "@));
            i = i + 1;
        }
        assert(names(self.path@).take(i as int) =~= names(self.path@));
        r
    }
}

/// The BLIF model value that refers to the model `model_name`: built-in models
/// (`.input`, `.output`, `.latch`, `.names`) by their name, custom ones as
/// `.subckt <name>`.
pub open spec fn blif_reference(model_name: Seq<char>) -> Seq<char> {
    if model_name.len() > 0 && model_name[0] == '.' {
        model_name
    } else {
        ".subckt "@ + model_name
    }
}

/// `pb` implements the model `model_name`.
pub open spec fn implements(pb: PBType, model_name: Seq<char>) -> bool {
    match pb.blif_model {
        Some(b) => b@ == blif_reference(model_name),
        None => false,
    }
}

/// The matches in the hierarchy under `pb`, whose ancestors are `path`: `pb`
/// itself where it implements the model, then those under its children, then
/// those under the children of each of its modes.
pub open spec fn matches_in(pb: PBType, model_name: Seq<char>, path: Seq<Seq<char>>) -> Seq<(Seq<Seq<char>>, PBType)>
    decreases pb,
{
    let here = path.push(pb.name@);
    let own: Seq<(Seq<Seq<char>>, PBType)> = if implements(pb, model_name) {
        seq![(here, pb)]
    } else {
        Seq::empty()
    };
    own + matches_in_list(pb.pb_types@, model_name, here) + matches_in_modes(pb.modes@, model_name, here)
}

/// The matches under each of `pbs`, in order.
pub open spec fn matches_in_list(pbs: Seq<PBType>, model_name: Seq<char>, path: Seq<Seq<char>>) -> Seq<(Seq<Seq<char>>, PBType)>
    decreases pbs,
{
    if pbs.len() == 0 {
        Seq::empty()
    } else {
        matches_in_list(pbs.drop_last(), model_name, path) + matches_in(pbs.last(), model_name, path)
    }
}

/// The matches under the children of each of `modes`, in order.
pub open spec fn matches_in_modes(modes: Seq<crate::pb_type::Mode>, model_name: Seq<char>, path: Seq<Seq<char>>) -> Seq<(Seq<Seq<char>>, PBType)>
    decreases modes,
{
    if modes.len() == 0 {
        Seq::empty()
    } else {
        matches_in_modes(modes.drop_last(), model_name, path) + matches_in_list(modes.last().pb_types@, model_name, path)
    }
}

/// The value of a match.
pub open spec fn match_view(m: PBTypeMatch) -> (Seq<Seq<char>>, PBType) {
    (names(m.path@), *m.pb_type)
}

/// The values of a list of matches.
pub open spec fn matches_view(v: Seq<PBTypeMatch>) -> Seq<(Seq<Seq<char>>, PBType)> {
    v.map_values(|m: PBTypeMatch| match_view(m))
}

/// Whether the BLIF model `blif` refers to the model `model_name`.
fn refers_to(blif: &String, model_name: &str) -> (r: bool)
    ensures
        r == (blif@ == blif_reference(model_name@)),
{
    let c = crate::text::chars_of(model_name);
    let target = if c.len() > 0 && c[0] == '.' {
        String::from_str(model_name)
    } else {
        let mut t = String::from_str(".subckt ");
        t.append(model_name);
        t
    };
    crate::grid::str_eq(blif.as_str(), target.as_str())
}

/// A copy of a list of strings.
fn copy_strings(v: &Vec<String>) -> (r: Vec<String>)
    ensures
        names(r@) == names(v@),
{
    let mut r: Vec<String> = Vec::new();
    let mut i: usize = 0;
    while i < v.len()
        invariant
            i <= v.len(),
            names(r@) == names(v@).take(i as int),
        decreases v.len() - i,
    {
        let ghost before = r@;
        r.push(v[i].clone());
        assert(names(r@) =~= names(before).push(v@[i as int]@));
        assert(names(v@).take(i + 1) =~= names(v@).take(i as int).push(v@[i as int]@));
        i = i + 1;
    }
    assert(names(v@).take(i as int) =~= names(v@));
    r
}

/// Appends to `results` the pb_types under `pb_type` (itself included) that
/// implement the model `model_name`, `path` holding the names of its ancestors.
fn collect_pb_types_for_model<'a>(
    pb_type: &'a PBType,
    model_name: &str,
    path: &mut Vec<String>,
    results: &mut Vec<PBTypeMatch<'a>>,
)
    ensures
        names(final(path)@) == names(old(path)@),
        matches_view(final(results)@) == matches_view(old(results)@) + matches_in(
            *pb_type,
            model_name@,
            names(old(path)@),
        ),
    decreases *pb_type,
{
    let ghost p0 = names(path@);
    let ghost r0 = matches_view(results@);
    path.push(pb_type.name.clone());
    let ghost here = names(path@);
    assert(here =~= p0.push(pb_type.name@));
    let blif_model_matches = match &pb_type.blif_model {
        Some(b) => refers_to(b, model_name),
        None => false,
    };
    if blif_model_matches {
        let p = copy_strings(path);
        let ghost before = results@;
        results.push(PBTypeMatch { path: p, pb_type });
        assert(matches_view(results@) =~= matches_view(before).push((here, *pb_type)));
    }
    let ghost own: Seq<(Seq<Seq<char>>, PBType)> = if implements(*pb_type, model_name@) {
        seq![(here, *pb_type)]
    } else {
        Seq::empty()
    };
    assert(matches_view(results@) =~= r0 + own);
    let mut i: usize = 0;
    while i < pb_type.pb_types.len()
        invariant
            i <= pb_type.pb_types.len(),
            names(path@) == here,
            matches_view(results@) == r0 + own + matches_in_list(pb_type.pb_types@.take(i as int), model_name@, here),
        decreases pb_type.pb_types.len() - i,
    {
        let child = &pb_type.pb_types[i];
        collect_pb_types_for_model(child, model_name, path, results);
        assert(pb_type.pb_types@.take(i + 1).drop_last() =~= pb_type.pb_types@.take(i as int));
        i = i + 1;
    }
    assert(pb_type.pb_types@.take(i as int) =~= pb_type.pb_types@);
    let mut m: usize = 0;
    while m < pb_type.modes.len()
        invariant
            m <= pb_type.modes.len(),
            names(path@) == here,
            matches_view(results@) == r0 + own + matches_in_list(pb_type.pb_types@, model_name@, here)
                + matches_in_modes(pb_type.modes@.take(m as int), model_name@, here),
        decreases pb_type.modes.len() - m,
    {
        let mode = &pb_type.modes[m];
        let ghost mid = matches_view(results@);
        let mut j: usize = 0;
        while j < mode.pb_types.len()
            invariant
                j <= mode.pb_types.len(),
                m < pb_type.modes.len(),
                *mode == pb_type.modes@[m as int],
                names(path@) == here,
                matches_view(results@) == mid + matches_in_list(mode.pb_types@.take(j as int), model_name@, here),
            decreases mode.pb_types.len() - j,
        {
            let child = &mode.pb_types[j];
            proof {
                assert(0 <= m < pb_type.modes@.len());
                assert(*mode == pb_type.modes@[m as int]);
                assert(0 <= j < pb_type.modes@[m as int].pb_types@.len());
                assert(decreases_to!(*pb_type => pb_type.modes));
                assert(decreases_to!(pb_type.modes => pb_type.modes@));
                assert(decreases_to!(pb_type.modes@ => pb_type.modes@[m as int]));
                assert(decreases_to!(pb_type.modes@[m as int] => pb_type.modes@[m as int].pb_types));
                assert(decreases_to!(pb_type.modes@[m as int].pb_types => pb_type.modes@[m as int].pb_types@));
                assert(decreases_to!(pb_type.modes@[m as int].pb_types@ => pb_type.modes@[m as int].pb_types@[j as int]));
            }
            collect_pb_types_for_model(child, model_name, path, results);
            assert(mode.pb_types@.take(j + 1).drop_last() =~= mode.pb_types@.take(j as int));
            j = j + 1;
        }
        assert(mode.pb_types@.take(j as int) =~= mode.pb_types@);
        assert(pb_type.modes@.take(m + 1).drop_last() =~= pb_type.modes@.take(m as int));
        m = m + 1;
    }
    assert(pb_type.modes@.take(m as int) =~= pb_type.modes@);
    let ghost before_pop = path@;
    path.pop();
    assert(path@ =~= before_pop.drop_last());
    assert(names(path@) =~= names(before_pop).drop_last());
    assert(names(path@) =~= p0);
}

/// The matches under each of `roots`, in order, from an empty path.
pub open spec fn matches_in_roots(roots: Seq<PBType>, model_name: Seq<char>) -> Seq<(Seq<Seq<char>>, PBType)> {
    matches_in_list(roots, model_name, Seq::empty())
}

/// All the pb_types of the complex blocks of `arch` that implement the model
/// `model_name`, with their paths, in the order of a walk from each root down.
pub fn find_pb_types_for_model<'a>(arch: &'a FPGAArch, model_name: &str) -> (r: Vec<PBTypeMatch<'a>>)
    ensures
        matches_view(r@) == matches_in_roots(arch.complex_block_list@, model_name@),
{
    let complex_block_list = &arch.complex_block_list;
    let mut results: Vec<PBTypeMatch<'a>> = Vec::new();
    let mut path: Vec<String> = Vec::new();
    let mut i: usize = 0;
    assert(matches_view(results@) =~= Seq::<(Seq<Seq<char>>, PBType)>::empty());
    while i < complex_block_list.len()
        invariant
            i <= complex_block_list.len(),
            names(path@) == Seq::<Seq<char>>::empty(),
            matches_view(results@) == matches_in_list(complex_block_list@.take(i as int), model_name@, Seq::empty()),
        decreases complex_block_list.len() - i,
    {
        collect_pb_types_for_model(&complex_block_list[i], model_name, &mut path, &mut results);
        assert(complex_block_list@.take(i + 1).drop_last() =~= complex_block_list@.take(i as int));
        i = i + 1;
    }
    assert(complex_block_list@.take(i as int) =~= complex_block_list@);
    results
}

/// No port of `ports` reaches an output through combinational logic.
pub open spec fn no_comb_paths(ports: Seq<ModelPort>) -> bool {
    forall|i: int| 0 <= i < ports.len() ==> (#[trigger] ports[i]).combinational_sink_ports.len() == 0
}

/// A sequential block has no combinational timing path between its input and
/// output ports.
pub fn is_sequential_block(model: &Model) -> (r: bool)
    ensures
        r == (no_comb_paths(model.input_ports@) && no_comb_paths(model.output_ports@)),
{
    let mut i: usize = 0;
    while i < model.input_ports.len()
        invariant
            i <= model.input_ports.len(),
            no_comb_paths(model.input_ports@.take(i as int)),
        decreases model.input_ports.len() - i,
    {
        if model.input_ports[i].combinational_sink_ports.len() != 0 {
            assert(!no_comb_paths(model.input_ports@)) by {
                assert(model.input_ports@[i as int].combinational_sink_ports.len() != 0);
            }
            return false;
        }
        assert forall|k: int| 0 <= k < i + 1 implies (#[trigger] model.input_ports@.take(i + 1)[k]).combinational_sink_ports.len() == 0 by {
            if k < i {
                assert(model.input_ports@.take(i + 1)[k] == model.input_ports@.take(i as int)[k]);
            }
        }
        i = i + 1;
    }
    assert(model.input_ports@.take(i as int) =~= model.input_ports@);
    let mut j: usize = 0;
    while j < model.output_ports.len()
        invariant
            j <= model.output_ports.len(),
            no_comb_paths(model.input_ports@),
            no_comb_paths(model.output_ports@.take(j as int)),
        decreases model.output_ports.len() - j,
    {
        if model.output_ports[j].combinational_sink_ports.len() != 0 {
            assert(!no_comb_paths(model.output_ports@)) by {
                assert(model.output_ports@[j as int].combinational_sink_ports.len() != 0);
            }
            return false;
        }
        assert forall|k: int| 0 <= k < j + 1 implies (#[trigger] model.output_ports@.take(j + 1)[k]).combinational_sink_ports.len() == 0 by {
            if k < j {
                assert(model.output_ports@.take(j + 1)[k] == model.output_ports@.take(j as int)[k]);
            }
        }
        j = j + 1;
    }
    assert(model.output_ports@.take(j as int) =~= model.output_ports@);
    true
}

} // verus!
