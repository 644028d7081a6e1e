//! What the position of a point relative to a ring does not depend on.
//!
//! A ring is a loop. Where the loop is written down as a sequence of
//! vertices, it does not matter whether the first vertex is repeated at the
//! end, which vertex comes first, or in which direction the loop is walked.

use vstd::prelude::*;
use crate::common_point::{lemma_cross_reversed, lemma_ends_on_segment, reversed};
use crate::laws::lemma_degenerate_segment_is_point;
use crate::model::{Pt, Segment, on_segment};
use crate::ring::{
    crossings,
    has_three_distinct,
    lemma_gap_is_cross,
    on_ring,
    ray_crosses,
    ring_edge,
    ring_position,
};

verus! {

/// The number of crossings depends only on which edges the ray crosses.
pub proof fn lemma_crossings_agree(p: Pt, r1: Seq<Pt>, r2: Seq<Pt>, n: nat)
    requires
        forall|i: int|
            0 <= i < n ==> ray_crosses(p, #[trigger] ring_edge(r1, i)) == ray_crosses(
                p,
                ring_edge(r2, i),
            ),
    ensures
        crossings(p, r1, n) == crossings(p, r2, n),
    decreases n,
{
    if n > 0 {
        lemma_crossings_agree(p, r1, r2, (n - 1) as nat);
        assert(ray_crosses(p, ring_edge(r1, n - 1)) == ray_crosses(p, ring_edge(r2, n - 1)));
    }
}

/// The position of a point relative to a ring is the same whether or not the
/// first vertex of the ring is repeated at its end.
pub proof fn lemma_closing_vertex(p: Pt, ring: Seq<Pt>)
    requires
        ring.len() >= 1,
    ensures
        ring_position(p, ring.push(ring[0])) == ring_position(p, ring),
{
    let n = ring.len() as int;
    let closed = ring.push(ring[0]);
    assert(closed.len() == n + 1);
    assert forall|i: int| 0 <= i < n implies #[trigger] ring_edge(closed, i) == ring_edge(
        ring,
        i,
    ) by {
        assert(closed[i] == ring[i]);
        if i + 1 < n {
            assert(closed[i + 1] == ring[i + 1]);
        } else {
            assert(closed[i + 1] == ring[0]);
        }
    }
    // The same vertices.
    if has_three_distinct(closed) {
        let (i, j, k) = choose|i: int, j: int, k: int|
            0 <= i < closed.len() && 0 <= j < closed.len() && 0 <= k < closed.len() && closed[i]
                != closed[j] && closed[j] != closed[k] && closed[i] != closed[k];
        let i0 = if i == n { 0 } else { i };
        let j0 = if j == n { 0 } else { j };
        let k0 = if k == n { 0 } else { k };
        assert(ring[i0] == closed[i] && ring[j0] == closed[j] && ring[k0] == closed[k]);
        assert(0 <= i0 < ring.len() && 0 <= j0 < ring.len() && 0 <= k0 < ring.len() && ring[i0]
            != ring[j0] && ring[j0] != ring[k0] && ring[i0] != ring[k0]);
    }
    if has_three_distinct(ring) {
        let (i, j, k) = choose|i: int, j: int, k: int|
            0 <= i < ring.len() && 0 <= j < ring.len() && 0 <= k < ring.len() && ring[i] != ring[j]
                && ring[j] != ring[k] && ring[i] != ring[k];
        assert(closed[i] == ring[i] && closed[j] == ring[j] && closed[k] == ring[k]);
        assert(0 <= i < closed.len() && 0 <= j < closed.len() && 0 <= k < closed.len()
            && closed[i] != closed[j] && closed[j] != closed[k] && closed[i] != closed[k]);
    }
    // The same boundary: the added edge is the single point `ring[0]`.
    let added = ring_edge(closed, n);
    assert(added.start == ring[0] && added.end == ring[0]);
    if on_ring(p, closed) {
        let i = choose|i: int|
            0 <= i < closed.len() && on_segment(p, #[trigger] ring_edge(closed, i));
        if i < n {
            assert(0 <= i < ring.len() && on_segment(p, ring_edge(ring, i)));
        } else {
            lemma_degenerate_segment_is_point(ring[0], added, p);
            lemma_ends_on_segment(ring_edge(ring, 0));
            assert(0 <= 0 < ring.len() && on_segment(p, ring_edge(ring, 0)));
        }
    }
    if on_ring(p, ring) {
        let i = choose|i: int| 0 <= i < ring.len() && on_segment(p, #[trigger] ring_edge(ring, i));
        assert(0 <= i < closed.len() && on_segment(p, ring_edge(closed, i)));
    }
    // The same crossings: the ray does not cross a single point.
    lemma_crossings_agree(p, closed, ring, n as nat);
    assert(!ray_crosses(p, added));
    assert(crossings(p, closed, (n + 1) as nat) == crossings(p, closed, n as nat));
}

/// The ring that starts at the second vertex of `ring` and ends with its
/// first: the same loop, begun one vertex later.
pub open spec fn rotated(ring: Seq<Pt>) -> Seq<Pt> {
    ring.subrange(1, ring.len() as int).push(ring[0])
}

/// The same loop, begun `k` vertices later.
pub open spec fn rotated_by(ring: Seq<Pt>, k: nat) -> Seq<Pt>
    decreases k,
{
    if k == 0 {
        ring
    } else {
        rotated_by(rotated(ring), (k - 1) as nat)
    }
}

/// The edges of a rotated ring are the edges of the ring, each numbered one
/// lower.
proof fn lemma_rotated_edges(ring: Seq<Pt>)
    requires
        ring.len() >= 1,
    ensures
        rotated(ring).len() == ring.len(),
        forall|i: int|
            0 <= i < ring.len() - 1 ==> #[trigger] ring_edge(rotated(ring), i) == ring_edge(
                ring,
                i + 1,
            ),
        ring_edge(rotated(ring), ring.len() - 1) == ring_edge(ring, 0),
        forall|i: int| 0 <= i < ring.len() - 1 ==> #[trigger] rotated(ring)[i] == ring[i + 1],
        rotated(ring)[ring.len() - 1] == ring[0],
{
    let n = ring.len() as int;
    let rot = rotated(ring);
    assert(rot.len() == n);
    assert forall|i: int| 0 <= i < n - 1 implies #[trigger] rot[i] == ring[i + 1] by {}
    assert(rot[n - 1] == ring[0]);
    assert forall|i: int| 0 <= i < n - 1 implies #[trigger] ring_edge(rot, i) == ring_edge(
        ring,
        i + 1,
    ) by {
        assert(rot[i] == ring[i + 1]);
        if i + 1 < n - 1 {
            assert(rot[i + 1] == ring[i + 2]);
        }
    }
    if n >= 2 {
        assert(rot[0] == ring[1]);
    }
}

/// The crossings of the first edges of a rotated ring, and the crossing of
/// the first edge of the ring, are the crossings of one more edge of the
/// ring.
proof fn lemma_rotated_crossings(p: Pt, ring: Seq<Pt>, k: nat)
    requires
        ring.len() >= 1,
        k <= ring.len() - 1,
    ensures
        crossings(p, rotated(ring), k) + crossings(p, ring, 1) == crossings(p, ring, k + 1),
    decreases k,
{
    lemma_rotated_edges(ring);
    if k > 0 {
        lemma_rotated_crossings(p, ring, (k - 1) as nat);
        assert(ring_edge(rotated(ring), k - 1) == ring_edge(ring, k - 1 + 1));
    } else {
        assert(crossings(p, ring, 0) == 0);
    }
}

/// The position of a point relative to a ring does not depend on which
/// vertex of the ring comes first.
pub proof fn lemma_rotated_position(p: Pt, ring: Seq<Pt>)
    requires
        ring.len() >= 1,
    ensures
        ring_position(p, rotated(ring)) == ring_position(p, ring),
{
    let n = ring.len() as int;
    let rot = rotated(ring);
    lemma_rotated_edges(ring);
    if has_three_distinct(rot) {
        let (i, j, k) = choose|i: int, j: int, k: int|
            0 <= i < rot.len() && 0 <= j < rot.len() && 0 <= k < rot.len() && rot[i] != rot[j]
                && rot[j] != rot[k] && rot[i] != rot[k];
        let i0 = if i == n - 1 { 0 } else { i + 1 };
        let j0 = if j == n - 1 { 0 } else { j + 1 };
        let k0 = if k == n - 1 { 0 } else { k + 1 };
        assert(ring[i0] == rot[i] && ring[j0] == rot[j] && ring[k0] == rot[k]);
        assert(0 <= i0 < ring.len() && 0 <= j0 < ring.len() && 0 <= k0 < ring.len() && ring[i0]
            != ring[j0] && ring[j0] != ring[k0] && ring[i0] != ring[k0]);
    }
    if has_three_distinct(ring) {
        let (i, j, k) = choose|i: int, j: int, k: int|
            0 <= i < ring.len() && 0 <= j < ring.len() && 0 <= k < ring.len() && ring[i] != ring[j]
                && ring[j] != ring[k] && ring[i] != ring[k];
        let i0 = if i == 0 { n - 1 } else { i - 1 };
        let j0 = if j == 0 { n - 1 } else { j - 1 };
        let k0 = if k == 0 { n - 1 } else { k - 1 };
        assert(rot[i0] == ring[i] && rot[j0] == ring[j] && rot[k0] == ring[k]);
        assert(0 <= i0 < rot.len() && 0 <= j0 < rot.len() && 0 <= k0 < rot.len() && rot[i0]
            != rot[j0] && rot[j0] != rot[k0] && rot[i0] != rot[k0]);
    }
    if on_ring(p, rot) {
        let i = choose|i: int| 0 <= i < rot.len() && on_segment(p, #[trigger] ring_edge(rot, i));
        let i0 = if i == n - 1 { 0 } else { i + 1 };
        assert(ring_edge(rot, i) == ring_edge(ring, i0));
        assert(0 <= i0 < ring.len() && on_segment(p, ring_edge(ring, i0)));
    }
    if on_ring(p, ring) {
        let i = choose|i: int| 0 <= i < ring.len() && on_segment(p, #[trigger] ring_edge(ring, i));
        let i0 = if i == 0 { n - 1 } else { i - 1 };
        assert(ring_edge(rot, i0) == ring_edge(ring, i));
        assert(0 <= i0 < rot.len() && on_segment(p, ring_edge(rot, i0)));
    }
    lemma_rotated_crossings(p, ring, (n - 1) as nat);
    assert(crossings(p, ring, 0) == 0);
    assert(crossings(p, rot, n as nat) == crossings(p, rot, (n - 1) as nat) + if ray_crosses(
        p,
        ring_edge(rot, n - 1),
    ) {
        1nat
    } else {
        0nat
    });
}

/// The position of a point relative to a ring does not depend on where the
/// ring begins.
pub proof fn lemma_rotated_by_position(p: Pt, ring: Seq<Pt>, k: nat)
    requires
        ring.len() >= 1,
    ensures
        ring_position(p, rotated_by(ring, k)) == ring_position(p, ring),
    decreases k,
{
    if k > 0 {
        lemma_rotated_position(p, ring);
        lemma_rotated_by_position(p, rotated(ring), (k - 1) as nat);
    }
}

/// The ray from a point crosses a segment whichever of its ends is named
/// first, and the point lies on it either way.
pub proof fn lemma_reversed_edge(p: Pt, e: Segment)
    ensures
        ray_crosses(p, reversed(e)) == ray_crosses(p, e),
        on_segment(p, reversed(e)) == on_segment(p, e),
{
    lemma_gap_is_cross(p, e);
    lemma_gap_is_cross(p, reversed(e));
    lemma_cross_reversed(e.start, e.end, p);
}

/// The edges of a ring walked backwards are the edges of the ring, each with
/// its ends exchanged.
proof fn lemma_backward_edges(ring: Seq<Pt>)
    requires
        ring.len() >= 1,
    ensures
        ring.reverse().len() == ring.len(),
        forall|i: int|
            0 <= i < ring.len() - 1 ==> #[trigger] ring_edge(ring.reverse(), i) == reversed(
                ring_edge(ring, ring.len() - 2 - i),
            ),
        ring_edge(ring.reverse(), ring.len() - 1) == reversed(ring_edge(ring, ring.len() - 1)),
{
    let n = ring.len() as int;
    let back = ring.reverse();
    assert forall|i: int| 0 <= i < n - 1 implies #[trigger] ring_edge(back, i) == reversed(
        ring_edge(ring, n - 2 - i),
    ) by {
        assert(back[i] == ring[n - 1 - i]);
        assert(back[i + 1] == ring[n - 2 - i]);
    }
    assert(back[n - 1] == ring[0]);
    assert(back[0] == ring[n - 1]);
}

/// The crossings of the first `k` edges of a ring walked backwards are those
/// of the `k` edges of the ring before its last.
proof fn lemma_backward_crossings(p: Pt, ring: Seq<Pt>, k: nat)
    requires
        ring.len() >= 1,
        k <= ring.len() - 1,
    ensures
        crossings(p, ring.reverse(), k) + crossings(p, ring, (ring.len() - 1 - k) as nat)
            == crossings(p, ring, (ring.len() - 1) as nat),
    decreases k,
{
    lemma_backward_edges(ring);
    if k > 0 {
        let n = ring.len() as int;
        lemma_backward_crossings(p, ring, (k - 1) as nat);
        assert(ring_edge(ring.reverse(), k - 1) == reversed(ring_edge(ring, n - 2 - (k - 1))));
        lemma_reversed_edge(p, ring_edge(ring, n - 1 - k));
        assert(crossings(p, ring, (n - k) as nat) == crossings(p, ring, (n - 1 - k) as nat)
            + if ray_crosses(p, ring_edge(ring, n - 1 - k)) {
            1nat
        } else {
            0nat
        });
    } else {
        assert(crossings(p, ring.reverse(), 0) == 0);
    }
}

/// The position of a point relative to a ring does not depend on the
/// direction in which the ring is walked.
pub proof fn lemma_backward_position(p: Pt, ring: Seq<Pt>)
    ensures
        ring_position(p, ring.reverse()) == ring_position(p, ring),
{
    let n = ring.len() as int;
    let back = ring.reverse();
    assert(back.len() == n);
    if has_three_distinct(back) {
        let (i, j, k) = choose|i: int, j: int, k: int|
            0 <= i < back.len() && 0 <= j < back.len() && 0 <= k < back.len() && back[i] != back[j]
                && back[j] != back[k] && back[i] != back[k];
        let (i0, j0, k0) = (n - 1 - i, n - 1 - j, n - 1 - k);
        assert(ring[i0] == back[i] && ring[j0] == back[j] && ring[k0] == back[k]);
        assert(0 <= i0 < ring.len() && 0 <= j0 < ring.len() && 0 <= k0 < ring.len() && ring[i0]
            != ring[j0] && ring[j0] != ring[k0] && ring[i0] != ring[k0]);
    }
    if has_three_distinct(ring) {
        let (i, j, k) = choose|i: int, j: int, k: int|
            0 <= i < ring.len() && 0 <= j < ring.len() && 0 <= k < ring.len() && ring[i] != ring[j]
                && ring[j] != ring[k] && ring[i] != ring[k];
        let (i0, j0, k0) = (n - 1 - i, n - 1 - j, n - 1 - k);
        assert(back[i0] == ring[i] && back[j0] == ring[j] && back[k0] == ring[k]);
        assert(0 <= i0 < back.len() && 0 <= j0 < back.len() && 0 <= k0 < back.len() && back[i0]
            != back[j0] && back[j0] != back[k0] && back[i0] != back[k0]);
    }
    if n >= 1 {
        lemma_backward_edges(ring);
        if on_ring(p, back) {
            let i = choose|i: int|
                0 <= i < back.len() && on_segment(p, #[trigger] ring_edge(back, i));
            let i0 = if i == n - 1 { n - 1 } else { n - 2 - i };
            assert(ring_edge(back, i) == reversed(ring_edge(ring, i0)));
            lemma_reversed_edge(p, ring_edge(ring, i0));
            assert(0 <= i0 < ring.len() && on_segment(p, ring_edge(ring, i0)));
        }
        if on_ring(p, ring) {
            let i = choose|i: int|
                0 <= i < ring.len() && on_segment(p, #[trigger] ring_edge(ring, i));
            let i0 = if i == n - 1 { n - 1 } else { n - 2 - i };
            assert(ring_edge(back, i0) == reversed(ring_edge(ring, i)));
            lemma_reversed_edge(p, ring_edge(ring, i));
            assert(0 <= i0 < back.len() && on_segment(p, ring_edge(back, i0)));
        }
        lemma_backward_crossings(p, ring, (n - 1) as nat);
        assert(crossings(p, ring, 0) == 0);
        lemma_reversed_edge(p, ring_edge(ring, n - 1));
        assert(crossings(p, back, n as nat) == crossings(p, back, (n - 1) as nat)
            + if ray_crosses(p, ring_edge(back, n - 1)) {
            1nat
        } else {
            0nat
        });
        assert(crossings(p, ring, n as nat) == crossings(p, ring, (n - 1) as nat)
            + if ray_crosses(p, ring_edge(ring, n - 1)) {
            1nat
        } else {
            0nat
        });
    }
}

} // verus!
