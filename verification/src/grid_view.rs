//! What the grid view reads of an architecture: the names of the tiles its
//! layouts place, in order, to give each its own color.
use vstd::prelude::*;
use crate::layout::{FPGAArch, Layout, GridLocation, Tile};
use crate::grid::empty_name;
use crate::text::chars_of;

verus! {

broadcast use vstd::string::group_string_axioms;

/// `a` comes before `b` in lexicographic order of their characters (the order of
/// std's `String`).
pub open spec fn str_lt(a: Seq<char>, b: Seq<char>) -> bool
    decreases a.len(),
{
    if a.len() == 0 {
        b.len() > 0
    } else if b.len() == 0 {
        false
    } else if a[0] != b[0] {
        a[0] < b[0]
    } else {
        str_lt(a.drop_first(), b.drop_first())
    }
}

pub proof fn lemma_str_lt_trans(a: Seq<char>, b: Seq<char>, c: Seq<char>)
    requires
        str_lt(a, b),
        str_lt(b, c),
    ensures
        str_lt(a, c),
    decreases a.len(),
{
    if a.len() > 0 && b.len() > 0 && c.len() > 0 && a[0] == b[0] && b[0] == c[0] {
        lemma_str_lt_trans(a.drop_first(), b.drop_first(), c.drop_first());
    }
}

pub proof fn lemma_str_lt_total(a: Seq<char>, b: Seq<char>)
    ensures
        a == b || str_lt(a, b) || str_lt(b, a),
        !(str_lt(a, b) && str_lt(b, a)),
        !str_lt(a, a),
    decreases a.len(),
{
    if a.len() > 0 && b.len() > 0 && a[0] == b[0] {
        lemma_str_lt_total(a.drop_first(), b.drop_first());
        if a.drop_first() == b.drop_first() {
            assert forall|k: int| 0 <= k < a.len() implies a[k] == b[k] by {
                if k > 0 {
                    assert(a[k] == a.drop_first()[k - 1]);
                    assert(b[k] == b.drop_first()[k - 1]);
                }
            }
            assert(a =~= b);
        }
    }
    if a.len() > 0 {
        lemma_str_lt_total(a.drop_first(), a.drop_first());
    }
}

/// Compares two strings: -1, 0 or 1 as `a` comes before, equals or comes after `b`.
pub fn compare_strs(a: &Vec<char>, b: &Vec<char>) -> (r: i8)
    ensures
        r == 0 <==> a@ == b@,
        r < 0 <==> str_lt(a@, b@),
        r > 0 <==> str_lt(b@, a@),
{
    proof {
        lemma_str_lt_total(a@, b@);
    }
    let mut i: usize = 0;
    assert(a@.skip(0) =~= a@);
    assert(b@.skip(0) =~= b@);
    while i < a.len() && i < b.len()
        invariant
            i <= a.len(),
            i <= b.len(),
            a@.take(i as int) == b@.take(i as int),
            str_lt(a@, b@) == str_lt(a@.skip(i as int), b@.skip(i as int)),
            str_lt(b@, a@) == str_lt(b@.skip(i as int), a@.skip(i as int)),
        decreases a.len() - i,
    {
        assert(a@.skip(i as int)[0] == a@[i as int]);
        assert(b@.skip(i as int)[0] == b@[i as int]);
        assert(a@.skip(i as int).drop_first() =~= a@.skip(i + 1));
        assert(b@.skip(i as int).drop_first() =~= b@.skip(i + 1));
        if a[i] < b[i] {
            return -1;
        }
        if a[i] > b[i] {
            return 1;
        }
        assert(a@.take(i + 1) =~= a@.take(i as int).push(a@[i as int]));
        assert(b@.take(i + 1) =~= b@.take(i as int).push(b@[i as int]));
        i = i + 1;
    }
    if a.len() == b.len() {
        assert(a@ =~= a@.take(i as int));
        assert(b@ =~= b@.take(i as int));
        0
    } else if a.len() < b.len() {
        assert(a@.skip(i as int).len() == 0);
        -1
    } else {
        assert(b@.skip(i as int).len() == 0);
        1
    }
}

/// The tile a grid-location rule places.
pub open spec fn location_tile(loc: GridLocation) -> Seq<char> {
    match loc {
        GridLocation::Fill(f) => f.pb_type@,
        GridLocation::Perimeter(p) => p.pb_type@,
        GridLocation::Corners(c) => c.pb_type@,
        GridLocation::Single(s) => s.pb_type@,
        GridLocation::Col(c) => c.pb_type@,
        GridLocation::Row(r) => r.pb_type@,
        GridLocation::Region(r) => r.pb_type@,
    }
}

/// The rules of a layout.
pub open spec fn layout_locations(l: Layout) -> Seq<GridLocation> {
    match l {
        Layout::AutoLayout(a) => a.grid_locations@,
        Layout::FixedLayout(f) => f.grid_locations@,
    }
}

/// Some rule of some layout of `layouts` places the tile `name`, and it is not
/// `EMPTY`.
pub open spec fn placed_tile(layouts: Seq<Layout>, name: Seq<char>) -> bool {
    &&& name != empty_name()
    &&& exists|i: int, j: int|
        0 <= i < layouts.len() && 0 <= j < layout_locations(layouts[i]).len() && location_tile(
            #[trigger] layout_locations(layouts[i])[j],
        ) == name
}

/// Strictly increasing in lexicographic order.
pub open spec fn sorted_strict(v: Seq<Seq<char>>) -> bool {
    forall|i: int, j: int| 0 <= i < j < v.len() ==> str_lt(#[trigger] v[i], #[trigger] v[j])
}

/// The names of a list of strings.
pub open spec fn name_views(v: Seq<String>) -> Seq<Seq<char>> {
    v.map_values(|s: String| s@)
}

/// Inserts `name` into the sorted list `names` where it is not there yet.
pub(crate) fn insert_sorted(names: &mut Vec<String>, name: &String)
    requires
        sorted_strict(name_views(old(names)@)),
    ensures
        sorted_strict(name_views(final(names)@)),
        forall|n: Seq<char>| #[trigger] name_views(final(names)@).contains(n) <==> (name_views(old(names)@).contains(n) || n == name@),
{
    let key = chars_of(name.as_str());
    let mut i: usize = 0;
    while i < names.len()
        invariant
            i <= names.len(),
            names@ == old(names)@,
            key@ == name@,
            sorted_strict(name_views(names@)),
            forall|j: int| 0 <= j < i ==> str_lt(#[trigger] name_views(names@)[j], name@),
        ensures
            i <= names.len(),
            names@ == old(names)@,
            forall|j: int| 0 <= j < i ==> str_lt(#[trigger] name_views(names@)[j], name@),
            i < names.len() ==> str_lt(name@, name_views(names@)[i as int]),
        decreases names.len() - i,
    {
        let cur = chars_of(names[i].as_str());
        let c = compare_strs(&cur, &key);
        if c == 0 {
            assert(name_views(names@)[i as int] == name@);
            return;
        }
        if c > 0 {
            break;
        }
        i = i + 1;
    }
    let ghost before = name_views(names@);
    proof {
        assert forall|j: int| i <= j < before.len() implies str_lt(name@, #[trigger] before[j]) by {
            if i < before.len() {
                lemma_str_lt_total(before[i as int], name@);
                if j > i {
                    lemma_str_lt_trans(name@, before[i as int], before[j]);
                }
            }
        }
    }
    names.insert(i, name.clone());
    assert(name_views(names@) =~= before.insert(i as int, name@));
    assert forall|a: int, b: int| 0 <= a < b < name_views(names@).len() implies str_lt(
        #[trigger] name_views(names@)[a],
        #[trigger] name_views(names@)[b],
    ) by {
        let v = name_views(names@);
        if b < i {
        } else if a < i && b == i {
        } else if a < i && b > i {
            assert(v[b] == before[b - 1]);
        } else if a == i {
            assert(v[b] == before[b - 1]);
        } else {
            assert(v[a] == before[a - 1]);
            assert(v[b] == before[b - 1]);
        }
    }
    assert forall|n: Seq<char>| #[trigger] name_views(names@).contains(n) <==> (before.contains(n) || n == name@) by {
        let v = name_views(names@);
        if before.contains(n) {
            let k = choose|k: int| 0 <= k < before.len() && before[k] == n;
            if k < i {
                assert(v[k] == n);
            } else {
                assert(v[k + 1] == n);
            }
        }
        if n == name@ {
            assert(v[i as int] == n);
        }
        if v.contains(n) {
            let k = choose|k: int| 0 <= k < v.len() && v[k] == n;
            if k < i {
                assert(before[k] == n);
            } else if k > i {
                assert(before[k - 1] == n);
            }
        }
    }
}

/// The names of the tiles the layouts of `arch` place, but `EMPTY`, each once,
/// in lexicographic order.
pub fn layout_tile_names(arch: &FPGAArch) -> (r: Vec<String>)
    ensures
        sorted_strict(name_views(r@)),
        forall|n: Seq<char>| #[trigger] name_views(r@).contains(n) <==> placed_tile(arch.layouts@, n),
{
    let mut names: Vec<String> = Vec::new();
    let empty = chars_of("EMPTY");
    proof {
        reveal_strlit("EMPTY");
        assert(empty@ =~= empty_name());
    }
    let layouts = &arch.layouts;
    let mut i: usize = 0;
    while i < layouts.len()
        invariant
            i <= layouts.len(),
            empty@ == empty_name(),
            sorted_strict(name_views(names@)),
            forall|n: Seq<char>| #[trigger] name_views(names@).contains(n) <==> (n != empty_name() && exists|a: int, b: int|
                0 <= a < i && 0 <= b < layout_locations(layouts@[a]).len() && location_tile(
                    #[trigger] layout_locations(layouts@[a])[b],
                ) == n),
        decreases layouts.len() - i,
    {
        let grid_locations = match &layouts[i] {
            Layout::AutoLayout(al) => &al.grid_locations,
            Layout::FixedLayout(fl) => &fl.grid_locations,
        };
        assert(grid_locations@ == layout_locations(layouts@[i as int]));
        let mut j: usize = 0;
        while j < grid_locations.len()
            invariant
                i < layouts.len(),
                j <= grid_locations.len(),
                grid_locations@ == layout_locations(layouts@[i as int]),
                empty@ == empty_name(),
                sorted_strict(name_views(names@)),
                forall|n: Seq<char>| #[trigger] name_views(names@).contains(n) <==> (n != empty_name() && (exists|a: int, b: int|
                    0 <= a < i && 0 <= b < layout_locations(layouts@[a]).len() && location_tile(
                        #[trigger] layout_locations(layouts@[a])[b],
                    ) == n) || (n != empty_name() && exists|b: int| 0 <= b < j && location_tile(#[trigger] grid_locations@[b]) == n)),
            decreases grid_locations.len() - j,
        {
            let pb_type = match &grid_locations[j] {
                GridLocation::Fill(f) => &f.pb_type,
                GridLocation::Perimeter(p) => &p.pb_type,
                GridLocation::Corners(c) => &c.pb_type,
                GridLocation::Single(s) => &s.pb_type,
                GridLocation::Col(c) => &c.pb_type,
                GridLocation::Row(r) => &r.pb_type,
                GridLocation::Region(r) => &r.pb_type,
            };
            assert(pb_type@ == location_tile(grid_locations@[j as int]));
            let name = chars_of(pb_type.as_str());
            if compare_strs(&name, &empty) != 0 {
                let ghost before = name_views(names@);
                insert_sorted(&mut names, pb_type);
            }
            j = j + 1;
        }
        i = i + 1;
    }
    names
}

/// Some equivalent site of some sub-tile of `tile` is the complex block `name`.
pub open spec fn site_of_tile(tile: Tile, name: Seq<char>) -> bool {
    exists|i: int, j: int|
        0 <= i < tile.sub_tiles@.len() && 0 <= j < tile.sub_tiles@[i].equivalent_sites@.len()
            && (#[trigger] tile.sub_tiles@[i].equivalent_sites@[j]).pb_type@ == name
}

/// The complex blocks a tile may contain: the blocks of the equivalent sites of
/// its sub-tiles, each once, in lexicographic order.
pub fn tile_pb_types(tile: &Tile) -> (r: Vec<String>)
    ensures
        sorted_strict(name_views(r@)),
        forall|n: Seq<char>| #[trigger] name_views(r@).contains(n) <==> site_of_tile(*tile, n),
{
    let mut names: Vec<String> = Vec::new();
    let subs = &tile.sub_tiles;
    let mut i: usize = 0;
    while i < subs.len()
        invariant
            subs == &tile.sub_tiles,
            i <= subs.len(),
            sorted_strict(name_views(names@)),
            forall|n: Seq<char>| #[trigger] name_views(names@).contains(n) <==> exists|a: int, b: int|
                0 <= a < i && 0 <= b < subs@[a].equivalent_sites@.len()
                    && (#[trigger] subs@[a].equivalent_sites@[b]).pb_type@ == n,
        decreases subs.len() - i,
    {
        let sites = &subs[i].equivalent_sites;
        let mut j: usize = 0;
        while j < sites.len()
            invariant
                subs == &tile.sub_tiles,
                i < subs.len(),
                sites == &subs@[i as int].equivalent_sites,
                j <= sites.len(),
                sorted_strict(name_views(names@)),
                forall|n: Seq<char>| #[trigger] name_views(names@).contains(n) <==> (exists|a: int, b: int|
                    0 <= a < i && 0 <= b < subs@[a].equivalent_sites@.len()
                        && (#[trigger] subs@[a].equivalent_sites@[b]).pb_type@ == n) || (exists|b: int|
                    0 <= b < j && (#[trigger] sites@[b]).pb_type@ == n),
            decreases sites.len() - j,
        {
            insert_sorted(&mut names, &sites[j].pb_type);
            j = j + 1;
        }
        i = i + 1;
    }
    names
}

} // verus!
