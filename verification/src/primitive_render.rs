//! Counting what a primitive block shows on one side: a collapsed port is drawn
//! as a single point, an expanded one as one point per pin.
use vstd::prelude::*;

verus! {

/// The number of points that `ports` take when drawn: one for each collapsed port,
/// the number of its pins for each other one.
pub open spec fn visible_io(ports: Seq<usize>, pin_counts: Seq<usize>, is_port_collapsed: Seq<bool>) -> nat
    decreases ports.len(),
{
    if ports.len() == 0 {
        0
    } else {
        let p = ports.last() as int;
        visible_io(ports.drop_last(), pin_counts, is_port_collapsed) + (if is_port_collapsed[p] {
            1
        } else {
            pin_counts[p] as nat
        })
    }
}

/// Every port of `ports` is one of the graph's (it has a pin count and a
/// collapsed flag).
pub open spec fn ports_known(ports: Seq<usize>, pin_counts: Seq<usize>, is_port_collapsed: Seq<bool>) -> bool {
    forall|i: int| 0 <= i < ports.len() ==> #[trigger] ports[i] < pin_counts.len() && ports[i] < is_port_collapsed.len()
}

proof fn lemma_visible_io_prefix(ports: Seq<usize>, pin_counts: Seq<usize>, is_port_collapsed: Seq<bool>, k: int)
    requires
        0 <= k <= ports.len(),
    ensures
        visible_io(ports.take(k), pin_counts, is_port_collapsed) <= visible_io(ports, pin_counts, is_port_collapsed),
    decreases ports.len(),
{
    if k < ports.len() {
        assert(ports.drop_last().take(k) =~= ports.take(k));
        lemma_visible_io_prefix(ports.drop_last(), pin_counts, is_port_collapsed, k);
    } else {
        assert(ports.take(k) =~= ports);
    }
}

/// The number of points that `ports` take when drawn, given for each port of the
/// graph its number of pins (`pin_counts`) and whether it is collapsed.
pub fn count_num_visible_io(ports: &Vec<usize>, pin_counts: &Vec<usize>, is_port_collapsed: &Vec<bool>) -> (r: usize)
    requires
        ports_known(ports@, pin_counts@, is_port_collapsed@),
        visible_io(ports@, pin_counts@, is_port_collapsed@) <= usize::MAX,
    ensures
        r == visible_io(ports@, pin_counts@, is_port_collapsed@),
{
    let mut n: usize = 0;
    let mut i: usize = 0;
    while i < ports.len()
        invariant
            i <= ports.len(),
            ports_known(ports@, pin_counts@, is_port_collapsed@),
            visible_io(ports@, pin_counts@, is_port_collapsed@) <= usize::MAX,
            n == visible_io(ports@.take(i as int), pin_counts@, is_port_collapsed@),
        decreases ports.len() - i,
    {
        let p = ports[i];
        assert(ports@.take(i + 1).drop_last() =~= ports@.take(i as int));
        proof {
            lemma_visible_io_prefix(ports@, pin_counts@, is_port_collapsed@, i + 1);
        }
        if is_port_collapsed[p] {
            n = n + 1;
        } else {
            n = n + pin_counts[p];
        }
        i = i + 1;
    }
    assert(ports@.take(ports.len() as int) =~= ports@);
    n
}

} // verus!
