use vstd::prelude::*;

verus! {

/// Number of vertices (and of edges) of a square.
pub const NUM_VERTICES: usize = 4;

/// An element of a square's boundary: one of its four vertices or one of its
/// four edges. Edge `i` runs from vertex `i` to the vertex after it.
#[derive(Debug, Clone, Copy, PartialEq, Eq, Hash, Structural)]
pub enum ElementIndex {
    Vertex(usize),
    Edge(usize),
}

/// The vertex after vertex `i`, going around the square.
pub open spec fn next_of(i: int) -> int {
    (i + 1) % 4
}

/// The vertex before vertex `i`, going around the square.
pub open spec fn prev_of(i: int) -> int {
    (i + 3) % 4
}

/// The vertices `(from, to)` joined by edge `i`.
pub open spec fn edge_of(i: int) -> (int, int) {
    (i, next_of(i))
}

/// Index of the vertex that follows vertex `i` on the boundary.
pub fn next_vertex(i: usize) -> (r: usize)
    requires
        i < NUM_VERTICES,
    ensures
        r == next_of(i as int),
        r < NUM_VERTICES,
        i < 3 ==> r == i + 1,
        i == 3 ==> r == 0,
{
    (i + 1) % 4
}

/// Index of the vertex that precedes vertex `i` on the boundary.
pub fn prev_vertex(i: usize) -> (r: usize)
    requires
        i < NUM_VERTICES,
    ensures
        r == prev_of(i as int),
        r < NUM_VERTICES,
        i > 0 ==> r == i - 1,
        i == 0 ==> r == 3,
{
    (i + 3) % 4
}

/// The vertices `(from, to)` that edge `i` joins.
pub fn edge_endpoints(i: usize) -> (r: (usize, usize))
    requires
        i < NUM_VERTICES,
    ensures
        (r.0 as int, r.1 as int) == edge_of(i as int),
        r.0 == i,
        i < 3 ==> r.1 == i + 1,
        i == 3 ==> r.1 == 0,
{
    (i, next_vertex(i))
}

/// The element at position `k` in the order in which a square's elements
/// are visited: the four vertices, then the four edges.
pub open spec fn element_at(k: int) -> ElementIndex {
    if k < 4 {
        ElementIndex::Vertex(k as usize)
    } else {
        ElementIndex::Edge((k - 4) as usize)
    }
}

/// The elements of a square in the order in which they are visited:
/// the four vertices, then the four edges.
pub fn enumerate_elements() -> (r: Vec<ElementIndex>)
    ensures
        r@.len() == 2 * NUM_VERTICES,
        forall|k: int| 0 <= k < 8 ==> #[trigger] r@[k] == element_at(k),
        forall|k: int| 0 <= k < 4 ==> #[trigger] r@[k] == ElementIndex::Vertex(k as usize),
        forall|k: int| 4 <= k < 8 ==> #[trigger] r@[k] == ElementIndex::Edge((k - 4) as usize),
{
    let mut r: Vec<ElementIndex> = Vec::new();
    let mut i: usize = 0;
    while i < NUM_VERTICES
        invariant
            i <= 4,
            r@.len() == i,
            forall|k: int| 0 <= k < i ==> #[trigger] r@[k] == ElementIndex::Vertex(k as usize),
        decreases 4 - i,
    {
        r.push(ElementIndex::Vertex(i));
        i = i + 1;
    }
    let mut j: usize = 0;
    while j < NUM_VERTICES
        invariant
            j <= 4,
            r@.len() == 4 + j,
            forall|k: int| 0 <= k < 4 ==> #[trigger] r@[k] == ElementIndex::Vertex(k as usize),
            forall|k: int| 4 <= k < 4 + j ==> #[trigger] r@[k] == ElementIndex::Edge((k - 4) as usize),
        decreases 4 - j,
    {
        r.push(ElementIndex::Edge(j));
        j = j + 1;
    }
    assert forall|k: int| 0 <= k < 8 implies #[trigger] r@[k] == element_at(k) by {
        if k < 4 {
            assert(r@[k] == ElementIndex::Vertex(k as usize));
        } else {
            assert(r@[k] == ElementIndex::Edge((k - 4) as usize));
        }
    }
    r
}

/// The visiting order of a square's elements: position `k` holds vertex `k`
/// for `k < 4` and edge `k - 4` for `4 <= k < 8`, so every vertex and every
/// edge is visited exactly once, vertices first.
pub proof fn lemma_element_order(k: int)
    requires
        0 <= k < 8,
    ensures
        k < 4 ==> element_at(k) == ElementIndex::Vertex(k as usize),
        4 <= k ==> element_at(k) == ElementIndex::Edge((k - 4) as usize),
        element_at(k) matches ElementIndex::Vertex(v) ==> v == k,
        element_at(k) matches ElementIndex::Edge(e) ==> e + 4 == k,
{
}

/// Going forward then back around the boundary returns to the same vertex,
/// and so does going back then forward.
pub proof fn lemma_next_prev_inverse(i: int)
    requires
        0 <= i < 4,
    ensures
        prev_of(next_of(i)) == i,
        next_of(prev_of(i)) == i,
        0 <= next_of(i) < 4,
        0 <= prev_of(i) < 4,
{
}

/// Four steps around the boundary return to the starting vertex, and no
/// fewer steps do: the boundary is a single cycle through all four vertices.
pub proof fn lemma_boundary_is_one_cycle(i: int)
    requires
        0 <= i < 4,
    ensures
        next_of(next_of(next_of(next_of(i)))) == i,
        next_of(i) != i,
        next_of(next_of(i)) != i,
        next_of(next_of(next_of(i))) != i,
{
}

/// The edges form a closed chain: edge `i` ends where edge `next_of(i)`
/// starts, and vertex `i` is the start of edge `i` and the end of edge
/// `prev_of(i)`; its two neighbours `prev_of(i)` and `next_of(i)` are
/// distinct from each other and from `i`.
pub proof fn lemma_edges_chain(i: int)
    requires
        0 <= i < 4,
    ensures
        edge_of(i).1 == edge_of(next_of(i)).0,
        edge_of(i).0 == i,
        edge_of(prev_of(i)).1 == i,
        edge_of(prev_of(i)).0 == prev_of(i),
        prev_of(i) != next_of(i),
        prev_of(i) != i,
{
}

/// Where a point lies relative to one directed edge of a square, by the sign
/// of the cross product of the edge vector with the vector from the edge's
/// start to the point. `Unordered` is a cross product that compares neither
/// above, below nor equal to zero (a NaN).
#[derive(Debug, Clone, Copy, PartialEq, Eq, Hash, Structural)]
pub enum CrossSign {
    Positive,
    Negative,
    Zero,
    Unordered,
}

/// The orientation fixed by the first entry that is not `Zero`: `Some(true)`
/// if that entry is `Positive`, `Some(false)` if it is `Negative` or
/// `Unordered`, and `None` if every entry is `Zero`.
pub open spec fn leading_orientation(s: Seq<CrossSign>) -> Option<bool>
    decreases s.len(),
{
    if s.len() == 0 {
        None
    } else {
        match leading_orientation(s.drop_last()) {
            Some(b) => Some(b),
            None => if s.last() == CrossSign::Zero {
                None
            } else {
                Some(s.last() == CrossSign::Positive)
            },
        }
    }
}

/// The point is on one side of every edge: once the first non-zero cross
/// product fixes the orientation, no entry has the opposite sign.
pub open spec fn orientation_agrees(s: Seq<CrossSign>) -> bool {
    match leading_orientation(s) {
        None => true,
        Some(true) => forall|k: int| 0 <= k < s.len() ==> s[k] != CrossSign::Negative,
        Some(false) => forall|k: int| 0 <= k < s.len() ==> s[k] != CrossSign::Positive,
    }
}

/// Once a prefix fixes the orientation, the whole sequence has that
/// orientation.
proof fn lemma_leading_of_prefix(s: Seq<CrossSign>, i: int)
    requires
        0 <= i <= s.len(),
        leading_orientation(s.take(i)) is Some,
    ensures
        leading_orientation(s) == leading_orientation(s.take(i)),
    decreases s.len() - i,
{
    if i == s.len() {
        assert(s.take(i) =~= s);
    } else {
        assert(s.drop_last().take(i) =~= s.take(i));
        lemma_leading_of_prefix(s.drop_last(), i);
    }
}

/// An orientation comes from an entry of the sequence: with none, every entry
/// is `Zero`; otherwise some non-zero entry is positive exactly when the
/// orientation is.
proof fn lemma_leading_witness(s: Seq<CrossSign>)
    ensures
        leading_orientation(s) is None ==> forall|k: int|
            0 <= k < s.len() ==> s[k] == CrossSign::Zero,
        leading_orientation(s) matches Some(b) ==> exists|k: int|
            0 <= k < s.len() && s[k] != CrossSign::Zero && (s[k] == CrossSign::Positive) == b,
    decreases s.len(),
{
    if s.len() > 0 {
        let t = s.drop_last();
        lemma_leading_witness(t);
        assert forall|k: int| 0 <= k < t.len() implies t[k] == s[k] by {}
        if let Some(b) = leading_orientation(t) {
            let k = choose|k: int|
                0 <= k < t.len() && t[k] != CrossSign::Zero && (t[k] == CrossSign::Positive)
                    == b;
            assert(s[k] == t[k]);
        } else if s.last() != CrossSign::Zero {
            assert(s[s.len() - 1] == s.last());
        } else {
            assert forall|k: int| 0 <= k < s.len() implies s[k] == CrossSign::Zero by {
                if k < t.len() {
                    assert(t[k] == s[k]);
                }
            }
        }
    }
}

/// The orientation is fixed by the first entry that is not `Zero`: there is
/// none exactly when every entry is `Zero`, and otherwise it is positive
/// exactly when that first entry is `Positive`.
pub proof fn lemma_leading_is_first_nonzero(s: Seq<CrossSign>)
    ensures
        leading_orientation(s) is None <==> forall|k: int| 0 <= k < s.len() ==> s[k] == CrossSign::Zero,
        forall|f: int|
            0 <= f < s.len() && #[trigger] s[f] != CrossSign::Zero && (forall|j: int|
                0 <= j < f ==> s[j] == CrossSign::Zero) ==> leading_orientation(s) == Some(
                s[f] == CrossSign::Positive,
            ),
    decreases s.len(),
{
    if s.len() > 0 {
        let t = s.drop_last();
        lemma_leading_is_first_nonzero(t);
        assert forall|k: int| 0 <= k < t.len() implies t[k] == s[k] by {}
        assert forall|f: int|
            0 <= f < s.len() && #[trigger] s[f] != CrossSign::Zero && (forall|j: int|
                0 <= j < f ==> s[j] == CrossSign::Zero) implies leading_orientation(s) == Some(
            s[f] == CrossSign::Positive,
        ) by {
            if f < t.len() {
                assert(t[f] != CrossSign::Zero);
                assert forall|j: int| 0 <= j < f implies t[j] == CrossSign::Zero by {
                    assert(t[j] == s[j]);
                }
            } else {
                assert forall|k: int| 0 <= k < t.len() implies t[k] == CrossSign::Zero by {
                    assert(t[k] == s[k]);
                }
            }
        }
        if forall|k: int| 0 <= k < s.len() ==> s[k] == CrossSign::Zero {
            assert forall|k: int| 0 <= k < t.len() implies t[k] == CrossSign::Zero by {
                assert(t[k] == s[k]);
            }
            assert(s.last() == s[s.len() - 1]);
        }
        if leading_orientation(s) is None {
            assert forall|k: int| 0 <= k < s.len() implies s[k] == CrossSign::Zero by {
                if k < t.len() {
                    assert(t[k] == s[k]);
                }
            }
        }
    }
}

/// The position of the first entry that is not `Zero`, when there is one.
spec fn first_nonzero(s: Seq<CrossSign>) -> int
    decreases s.len(),
{
    if s.len() == 0 {
        0
    } else if leading_orientation(s.drop_last()) is Some {
        first_nonzero(s.drop_last())
    } else {
        s.len() - 1
    }
}

proof fn lemma_first_nonzero(s: Seq<CrossSign>)
    requires
        leading_orientation(s) is Some,
    ensures
        0 <= first_nonzero(s) < s.len(),
        s[first_nonzero(s)] != CrossSign::Zero,
        forall|j: int| 0 <= j < first_nonzero(s) ==> s[j] == CrossSign::Zero,
    decreases s.len(),
{
    let t = s.drop_last();
    assert forall|k: int| 0 <= k < t.len() implies t[k] == s[k] by {}
    if leading_orientation(t) is Some {
        lemma_first_nonzero(t);
        assert(t[first_nonzero(t)] == s[first_nonzero(t)]);
        assert forall|j: int| 0 <= j < first_nonzero(s) implies s[j] == CrossSign::Zero by {
            assert(t[j] == s[j]);
        }
    } else {
        lemma_leading_is_first_nonzero(t);
        assert(s.last() == s[s.len() - 1]);
        assert forall|j: int| 0 <= j < first_nonzero(s) implies s[j] == CrossSign::Zero by {
            assert(t[j] == s[j]);
        }
    }
}

/// Whether `f` is the position of the first entry that is not `Zero`.
pub open spec fn is_first_nonzero(s: Seq<CrossSign>, f: int) -> bool {
    &&& 0 <= f < s.len()
    &&& s[f] != CrossSign::Zero
    &&& forall|j: int| 0 <= j < f ==> s[j] == CrossSign::Zero
}

/// Whether `b` lies on the other side from `a`, a first entry that is
/// `Unordered` counting as negative.
pub open spec fn opposite_sign(a: CrossSign, b: CrossSign) -> bool {
    ||| a == CrossSign::Positive && b == CrossSign::Negative
    ||| a != CrossSign::Positive && b == CrossSign::Positive
}

/// The point is accepted exactly when no entry has the sign opposite to the
/// first non-zero entry.
pub proof fn lemma_agreement_by_first_sign(s: Seq<CrossSign>)
    ensures
        orientation_agrees(s) == !exists|f: int, k: int|
            #![trigger is_first_nonzero(s, f), s[k]]
            is_first_nonzero(s, f) && 0 <= k < s.len() && opposite_sign(s[f], s[k]),
{
    lemma_leading_is_first_nonzero(s);
    lemma_leading_witness(s);
    if exists|f: int, k: int|
        #![trigger is_first_nonzero(s, f), s[k]]
        is_first_nonzero(s, f) && 0 <= k < s.len() && opposite_sign(s[f], s[k]) {
        let (f, k) = choose|f: int, k: int|
            #![trigger is_first_nonzero(s, f), s[k]]
            is_first_nonzero(s, f) && 0 <= k < s.len() && opposite_sign(s[f], s[k]);
        assert(s[f] != CrossSign::Zero);
        assert(leading_orientation(s) == Some(s[f] == CrossSign::Positive));
    } else if !orientation_agrees(s) {
        let b = leading_orientation(s)->0;
        let k = choose|k: int|
            0 <= k < s.len() && (if b {
                s[k] == CrossSign::Negative
            } else {
                s[k] == CrossSign::Positive
            });
        lemma_first_nonzero(s);
        let f = first_nonzero(s);
        assert(is_first_nonzero(s, f));
        assert(leading_orientation(s) == Some(s[f] == CrossSign::Positive));
        assert(opposite_sign(s[f], s[k]));
    }
}

/// Whether no edge sees the point on the side opposite to the first edge
/// that sees it on one side.
fn signs_agree(signs: &[CrossSign]) -> (r: bool)
    ensures
        r == orientation_agrees(signs@),
{
    let ghost s = signs@;
    let mut sign: i8 = 0;
    let mut i: usize = 0;
    while i < signs.len()
        invariant
            s == signs@,
            i <= s.len(),
            -1 <= sign <= 1,
            sign == 0 ==> forall|k: int| 0 <= k < i ==> s[k] == CrossSign::Zero,
            sign == 0 ==> leading_orientation(s.take(i as int)) is None,
            sign == 1 ==> leading_orientation(s.take(i as int)) == Some(true),
            sign == -1 ==> leading_orientation(s.take(i as int)) == Some(false),
            sign == 1 ==> forall|k: int| 0 <= k < i ==> s[k] != CrossSign::Negative,
            sign == -1 ==> forall|k: int| 0 <= k < i ==> s[k] != CrossSign::Positive,
        decreases s.len() - i,
    {
        let c = signs[i];
        assert(s.take(i + 1).drop_last() =~= s.take(i as int));
        assert(s.take(i + 1).last() == c);
        if c != CrossSign::Zero {
            if sign == 0 {
                sign = if c == CrossSign::Positive {
                    1
                } else {
                    -1
                };
            } else if (c == CrossSign::Positive && sign < 0) || (c == CrossSign::Negative && sign
                > 0) {
                proof {
                    lemma_leading_of_prefix(s, i as int);
                }
                return false;
            }
        }
        i = i + 1;
    }
    proof {
        assert(s.take(i as int) =~= s);
    }
    true
}

/// Decides from the signs of the cross products along the boundary whether a
/// point is inside a convex polygon: whether no two edges see it on opposite
/// sides.
pub fn orientation_consistent(signs: &[CrossSign]) -> (r: bool)
    ensures
        r == orientation_agrees(signs@),
        r == !exists|f: int, k: int|
            #![trigger is_first_nonzero(signs@, f), signs@[k]]
            is_first_nonzero(signs@, f) && 0 <= k < signs@.len() && opposite_sign(
                signs@[f],
                signs@[k],
            ),
{
    proof {
        lemma_agreement_by_first_sign(signs@);
    }
    signs_agree(signs)
}

/// For cross products that are all ordered (no NaN), the decision does not
/// depend on the edge at which the traversal starts: the point is accepted
/// exactly when the signs do not include both `Positive` and `Negative`.
pub proof fn lemma_orientation_without_nan(s: Seq<CrossSign>)
    requires
        forall|k: int| 0 <= k < s.len() ==> s[k] != CrossSign::Unordered,
    ensures
        orientation_agrees(s) <==> !(s.contains(CrossSign::Positive) && s.contains(
            CrossSign::Negative,
        )),
{
    lemma_leading_witness(s);
    match leading_orientation(s) {
        None => {},
        Some(b) => {
            let k = choose|k: int|
                0 <= k < s.len() && s[k] != CrossSign::Zero && (s[k] == CrossSign::Positive)
                    == b;
            if b {
                assert(s.contains(CrossSign::Positive));
            } else {
                assert(s[k] == CrossSign::Negative);
                assert(s.contains(CrossSign::Negative));
            }
        },
    }
}

} // verus!
