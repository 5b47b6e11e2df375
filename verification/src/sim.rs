use vstd::prelude::*;

use crate::square::{element_at, enumerate_elements, ElementIndex};

verus! {

/// Which square of the simulation: the big container square or one of the
/// small squares, by its position in the list of small squares.
#[derive(Debug, Clone, Copy, PartialEq, Eq, Hash, Structural)]
pub enum SquareIndex {
    Big,
    Small(usize),
}

/// An interaction handle of a square.
#[derive(Debug, Clone, Copy, PartialEq, Eq, Hash, Structural)]
pub enum HandleIndex {
    Dragging(SquareIndex),
    Resizing(SquareIndex),
    Rotating(SquareIndex),
}

impl HandleIndex {
    /// The square that the handle belongs to.
    pub open spec fn spec_square_index(self) -> SquareIndex {
        match self {
            HandleIndex::Dragging(i) => i,
            HandleIndex::Resizing(i) => i,
            HandleIndex::Rotating(i) => i,
        }
    }

    pub fn square_index(self) -> (r: SquareIndex)
        ensures
            r == self.spec_square_index(),
            self matches HandleIndex::Dragging(i) ==> r == i,
            self matches HandleIndex::Resizing(i) ==> r == i,
            self matches HandleIndex::Rotating(i) ==> r == i,
    {
        match self {
            HandleIndex::Dragging(i) => i,
            HandleIndex::Resizing(i) => i,
            HandleIndex::Rotating(i) => i,
        }
    }
}

/// The squares of a simulation: a big square that contains small squares.
/// `S` is the geometry of one square.
#[derive(Debug, Clone)]
pub struct Sim<S> {
    pub big_square: S,
    pub small_squares: Vec<S>,
}

/// The square at position `k` in the order in which the squares are visited:
/// the big square first, then the small squares in their order.
pub open spec fn index_at(k: int) -> SquareIndex {
    if k == 0 {
        SquareIndex::Big
    } else {
        SquareIndex::Small((k - 1) as usize)
    }
}

/// The position of square `i` in the order in which the squares are visited.
pub open spec fn position_of(i: SquareIndex) -> int {
    match i {
        SquareIndex::Big => 0,
        SquareIndex::Small(k) => k + 1,
    }
}

/// The handle at position `k` when the handles are visited square by square,
/// three per square: dragging, resizing, rotating.
pub open spec fn handle_at(k: int) -> HandleIndex {
    let i = index_at(k / 3);
    if k % 3 == 0 {
        HandleIndex::Dragging(i)
    } else if k % 3 == 1 {
        HandleIndex::Resizing(i)
    } else {
        HandleIndex::Rotating(i)
    }
}

/// The pair of square and element at position `k` when the elements of all
/// squares are visited, square by square, eight elements per square.
pub open spec fn pair_at(k: int) -> (SquareIndex, ElementIndex) {
    (index_at(k / 8), element_at(k % 8))
}

/// The pairs at the positions that `keep` marks, in order.
pub open spec fn kept_pairs(keep: Seq<bool>) -> Seq<(SquareIndex, ElementIndex)>
    decreases keep.len(),
{
    if keep.len() == 0 {
        seq![]
    } else {
        let before = kept_pairs(keep.drop_last());
        if keep.last() {
            before.push(pair_at(keep.len() - 1))
        } else {
            before
        }
    }
}

/// The positions that `keep` marks, in increasing order.
pub open spec fn accepted_positions(keep: Seq<bool>) -> Seq<int>
    decreases keep.len(),
{
    if keep.len() == 0 {
        seq![]
    } else {
        let before = accepted_positions(keep.drop_last());
        if keep.last() {
            before.push(keep.len() - 1)
        } else {
            before
        }
    }
}

/// The marked positions are exactly the positions that `keep` marks, each
/// once, in increasing order: no accepted position is dropped, none is
/// invented, none is repeated.
pub proof fn lemma_accepted_positions(keep: Seq<bool>)
    ensures
        forall|j: int|
            0 <= j < accepted_positions(keep).len() ==> 0 <= #[trigger] accepted_positions(keep)[j]
                < keep.len() && keep[accepted_positions(keep)[j]],
        forall|j: int, l: int|
            0 <= j < l < accepted_positions(keep).len() ==> #[trigger] accepted_positions(keep)[j]
                < #[trigger] accepted_positions(keep)[l],
        forall|k: int|
            0 <= k < keep.len() && #[trigger] keep[k] ==> accepted_positions(keep).contains(k),
    decreases keep.len(),
{
    if keep.len() > 0 {
        let t = keep.drop_last();
        lemma_accepted_positions(t);
        let b = accepted_positions(t);
        assert forall|k: int| 0 <= k < t.len() implies t[k] == keep[k] by {}
        assert forall|k: int| 0 <= k < keep.len() && #[trigger] keep[k] implies accepted_positions(
            keep,
        ).contains(k) by {
            if k < t.len() {
                assert(t[k]);
                assert(b.contains(k));
                let j = choose|j: int| 0 <= j < b.len() && b[j] == k;
                assert(accepted_positions(keep)[j] == k);
            } else {
                assert(keep.last());
                assert(accepted_positions(keep)[b.len() as int] == k);
            }
        }
    }
}

/// The pairs that the contact element set keeps are the pairs at the
/// accepted positions, in order: position `k` is element `k % 8` (vertices
/// 0 to 3, then edges 0 to 3) of the square at `k / 8` (the big square, then
/// small square `k / 8 - 1`).
pub proof fn lemma_kept_pairs_follow_accepted_positions(keep: Seq<bool>)
    ensures
        kept_pairs(keep).len() == accepted_positions(keep).len(),
        forall|j: int|
            0 <= j < kept_pairs(keep).len() ==> #[trigger] kept_pairs(keep)[j] == ({
                let k = accepted_positions(keep)[j];
                (
                    if k / 8 == 0 {
                        SquareIndex::Big
                    } else {
                        SquareIndex::Small((k / 8 - 1) as usize)
                    },
                    if k % 8 < 4 {
                        ElementIndex::Vertex((k % 8) as usize)
                    } else {
                        ElementIndex::Edge((k % 8 - 4) as usize)
                    },
                )
            }),
    decreases keep.len(),
{
    if keep.len() > 0 {
        lemma_kept_pairs_follow_accepted_positions(keep.drop_last());
    }
}

impl<S> View for Sim<S> {
    type V = Seq<S>;

    /// All squares in the order in which they are visited.
    open spec fn view(&self) -> Seq<S> {
        seq![self.big_square].add(self.small_squares@)
    }
}

impl<S> Sim<S> {
    /// Whether the simulation has a square with index `i`.
    pub open spec fn has_square(&self, i: SquareIndex) -> bool {
        match i {
            SquareIndex::Big => true,
            SquareIndex::Small(k) => k < self.small_squares@.len(),
        }
    }

    /// The square with index `i`.
    pub open spec fn square(&self, i: SquareIndex) -> S {
        self@[position_of(i)]
    }

    pub fn get(&self, i: SquareIndex) -> (r: &S)
        requires
            self.has_square(i),
        ensures
            *r == self.square(i),
            i is Big ==> *r == self.big_square,
            i matches SquareIndex::Small(k) ==> *r == self.small_squares@[k as int],
    {
        match i {
            SquareIndex::Big => &self.big_square,
            SquareIndex::Small(k) => &self.small_squares[k],
        }
    }

    pub fn get_mut(&mut self, i: SquareIndex) -> (r: &mut S)
        requires
            old(self).has_square(i),
        ensures
            *r == old(self).square(i),
            final(self)@ == old(self)@.update(position_of(i), *final(r)),
            final(self).small_squares@.len() == old(self).small_squares@.len(),
            i is Big ==> *r == old(self).big_square && final(self).big_square == *final(r)
                && final(self).small_squares@ == old(self).small_squares@,
            i matches SquareIndex::Small(k) ==> *r == old(self).small_squares@[k as int]
                && final(self).big_square == old(self).big_square && final(self).small_squares@
                == old(self).small_squares@.update(k as int, *final(r)),
    {
        match i {
            SquareIndex::Big => &mut self.big_square,
            SquareIndex::Small(k) => &mut self.small_squares[k],
        }
    }

    /// Every square with its index, the big square first, then the small
    /// squares in order.
    pub fn enumerate_squares(&self) -> (r: Vec<(SquareIndex, &S)>)
        ensures
            r@.len() == self@.len(),
            forall|k: int|
                0 <= k < r@.len() ==> (#[trigger] r@[k]).0 == index_at(k) && *r@[k].1 == self@[k],
            r@[0].0 == SquareIndex::Big,
            *r@[0].1 == self.big_square,
            forall|k: int|
                1 <= k < r@.len() ==> (#[trigger] r@[k]).0 == SquareIndex::Small((k - 1) as usize)
                    && *r@[k].1 == self.small_squares@[k - 1],
    {
        let mut r: Vec<(SquareIndex, &S)> = Vec::new();
        r.push((SquareIndex::Big, &self.big_square));
        let n = self.small_squares.len();
        let mut i: usize = 0;
        while i < n
            invariant
                n == self.small_squares@.len(),
                i <= n,
                r@.len() == i + 1,
                forall|k: int|
                    0 <= k < r@.len() ==> (#[trigger] r@[k]).0 == index_at(k) && *r@[k].1
                        == self@[k],
            decreases n - i,
        {
            r.push((SquareIndex::Small(i), &self.small_squares[i]));
            i = i + 1;
        }
        r
    }

    /// The index of every handle: for each square in the order of
    /// `enumerate_squares`, its dragging, resizing and rotating handles.
    pub fn enumerate_handle_indices(&self) -> (r: Vec<HandleIndex>)
        requires
            self.small_squares@.len() < usize::MAX / 3,
        ensures
            r@.len() == 3 * self@.len(),
            forall|k: int| 0 <= k < r@.len() ==> #[trigger] r@[k] == handle_at(k),
            forall|k: int|
                0 <= k < r@.len() ==> {
                    &&& k % 3 == 0 ==> #[trigger] r@[k] is Dragging
                    &&& k % 3 == 1 ==> r@[k] is Resizing
                    &&& k % 3 == 2 ==> r@[k] is Rotating
                    &&& r@[k].spec_square_index() == if k < 3 {
                        SquareIndex::Big
                    } else {
                        SquareIndex::Small((k / 3 - 1) as usize)
                    }
                },
    {
        let mut r: Vec<HandleIndex> = Vec::new();
        let n = self.small_squares.len();
        let mut i: usize = 0;
        while i <= n
            invariant
                n == self.small_squares@.len(),
                n < usize::MAX / 3,
                i <= n + 1,
                r@.len() == 3 * i,
                forall|k: int| 0 <= k < r@.len() ==> #[trigger] r@[k] == handle_at(k),
            decreases n + 1 - i,
        {
            let square_index = if i == 0 {
                SquareIndex::Big
            } else {
                SquareIndex::Small(i - 1)
            };
            assert(square_index == index_at(i as int));
            r.push(HandleIndex::Dragging(square_index));
            r.push(HandleIndex::Resizing(square_index));
            r.push(HandleIndex::Rotating(square_index));
            assert(handle_at(3 * i) == HandleIndex::Dragging(square_index));
            assert(handle_at(3 * i + 1) == HandleIndex::Resizing(square_index));
            assert(handle_at(3 * i + 2) == HandleIndex::Rotating(square_index));
            i = i + 1;
        }
        proof {
            assert forall|k: int| 0 <= k < r@.len() implies {
                &&& k % 3 == 0 ==> #[trigger] r@[k] is Dragging
                &&& k % 3 == 1 ==> r@[k] is Resizing
                &&& k % 3 == 2 ==> r@[k] is Rotating
                &&& r@[k].spec_square_index() == if k < 3 {
                    SquareIndex::Big
                } else {
                    SquareIndex::Small((k / 3 - 1) as usize)
                }
            } by {
                lemma_handle_kinds(k);
            }
        }
        r
    }

    /// Applies to each small square the list of impulses recorded for it,
    /// the `k`th list to the `k`th small square, with `apply` computing a
    /// square's new state from its state and its list. The big square does
    /// not move.
    pub fn apply_impulse_builders<B, F: Fn(&S, &Vec<B>) -> S>(
        &mut self,
        builders: &[Vec<B>],
        apply: F,
    )
        requires
            old(self).small_squares@.len() == builders@.len(),
            forall|s: &S, b: &Vec<B>| #[trigger] apply.requires((s, b)),
        ensures
            final(self).big_square == old(self).big_square,
            final(self).small_squares@.len() == old(self).small_squares@.len(),
            forall|k: int|
                0 <= k < builders@.len() ==> apply.ensures(
                    (&old(self).small_squares@[k], &builders@[k]),
                    #[trigger] final(self).small_squares@[k],
                ),
    {
        let n = builders.len();
        let mut k: usize = 0;
        while k < n
            invariant
                n == builders@.len(),
                k <= n,
                self.big_square == old(self).big_square,
                self.small_squares@.len() == n,
                forall|s: &S, b: &Vec<B>| #[trigger] apply.requires((s, b)),
                forall|j: int|
                    0 <= j < k ==> apply.ensures(
                        (&old(self).small_squares@[j], &builders@[j]),
                        #[trigger] self.small_squares@[j],
                    ),
                forall|j: int| k <= j < n ==> #[trigger] self.small_squares@[j] == old(self).small_squares@[j],
            decreases n - k,
        {
            let moved = apply(&self.small_squares[k], &builders[k]);
            self.small_squares.set(k, moved);
            k = k + 1;
        }
    }

    /// The elements of all squares that `in_block` accepts, visiting the
    /// squares in the order of `enumerate_squares` and each square's
    /// elements in the order of `enumerate_elements`. `keep` records what
    /// `in_block` answered for each pair, in that order.
    pub fn contact_element_set<F: Fn(&S, ElementIndex) -> bool>(&self, in_block: F) -> (r: Vec<
        (SquareIndex, ElementIndex),
    >)
        requires
            forall|s: &S, e: ElementIndex| #[trigger] in_block.requires((s, e)),
        ensures
            exists|keep: Seq<bool>|
                {
                    &&& keep.len() == 8 * self@.len()
                    &&& forall|k: int|
                        0 <= k < keep.len() ==> in_block.ensures(
                            (&self@[k / 8], element_at(k % 8)),
                            #[trigger] keep[k],
                        )
                    &&& r@ == kept_pairs(keep)
                    &&& r@.len() == accepted_positions(keep).len()
                    &&& forall|j: int|
                        0 <= j < r@.len() ==> #[trigger] r@[j] == ({
                            let k = accepted_positions(keep)[j];
                            (
                                if k / 8 == 0 {
                                    SquareIndex::Big
                                } else {
                                    SquareIndex::Small((k / 8 - 1) as usize)
                                },
                                if k % 8 < 4 {
                                    ElementIndex::Vertex((k % 8) as usize)
                                } else {
                                    ElementIndex::Edge((k % 8 - 4) as usize)
                                },
                            )
                        })
                },
    {
        let squares = self.enumerate_squares();
        let elements = enumerate_elements();
        let mut r: Vec<(SquareIndex, ElementIndex)> = Vec::new();
        let ghost mut keep: Seq<bool> = seq![];
        let n = squares.len();
        let mut s: usize = 0;
        while s < n
            invariant
                n == squares@.len(),
                n == self@.len(),
                forall|k: int|
                    0 <= k < squares@.len() ==> (#[trigger] squares@[k]).0 == index_at(k)
                        && *squares@[k].1 == self@[k],
                elements@.len() == 8,
                forall|k: int| 0 <= k < 8 ==> #[trigger] elements@[k] == element_at(k),
                forall|a: &S, e: ElementIndex| #[trigger] in_block.requires((a, e)),
                s <= n,
                keep.len() == 8 * s,
                forall|k: int|
                    0 <= k < keep.len() ==> in_block.ensures(
                        (&self@[k / 8], element_at(k % 8)),
                        #[trigger] keep[k],
                    ),
                r@ == kept_pairs(keep),
            decreases n - s,
        {
            let square_index = squares[s].0;
            let square = squares[s].1;
            let mut e: usize = 0;
            while e < 8
                invariant
                    n == squares@.len(),
                    n == self@.len(),
                    elements@.len() == 8,
                    forall|k: int| 0 <= k < 8 ==> #[trigger] elements@[k] == element_at(k),
                    forall|a: &S, e: ElementIndex| #[trigger] in_block.requires((a, e)),
                    s < n,
                    square_index == index_at(s as int),
                    *square == self@[s as int],
                    e <= 8,
                    keep.len() == 8 * s + e,
                    forall|k: int|
                        0 <= k < keep.len() ==> in_block.ensures(
                            (&self@[k / 8], element_at(k % 8)),
                            #[trigger] keep[k],
                        ),
                    r@ == kept_pairs(keep),
                decreases 8 - e,
            {
                let element = elements[e];
                let accepted = in_block(square, element);
                if accepted {
                    r.push((square_index, element));
                }
                proof {
                    let k = keep.len() as int;
                    assert(k / 8 == s as int && k % 8 == e as int);
                    let before = keep;
                    keep = keep.push(accepted);
                    assert(keep.drop_last() =~= before);
                    assert(pair_at(k) == (square_index, element));
                }
                e = e + 1;
            }
            s = s + 1;
        }
        proof {
            lemma_kept_pairs_follow_accepted_positions(keep);
        }
        r
    }
}

/// Visiting the squares in order meets every square exactly once: positions
/// and indices of existing squares correspond one to one.
pub proof fn lemma_enumeration_is_bijective<S>(sim: Sim<S>, i: SquareIndex, k: int)
    ensures
        sim.has_square(i) ==> 0 <= position_of(i) < sim@.len() && index_at(position_of(i)) == i,
        0 <= k < sim@.len() ==> sim.has_square(index_at(k)) && position_of(index_at(k)) == k,
        sim.has_square(i) ==> sim@[position_of(i)] == sim.square(i),
{
    assert(sim.small_squares.len() == sim.small_squares@.len());
}

/// The handles at positions `3 * k`, `3 * k + 1` and `3 * k + 2` all belong to
/// the square at position `k`, so every handle belongs to the square that is
/// visited at its position divided by three.
pub proof fn lemma_handles_belong_to_square(k: int)
    requires
        0 <= k,
    ensures
        handle_at(k).spec_square_index() == index_at(k / 3),
{
}

/// Every square has exactly one handle of each kind, in the order dragging,
/// resizing, rotating: the kind of the handle at position `k` depends on
/// `k % 3` alone, and it belongs to the big square when `k < 3`, otherwise to
/// small square `k / 3 - 1`.
pub proof fn lemma_handle_kinds(k: int)
    requires
        0 <= k,
    ensures
        k % 3 == 0 <==> handle_at(k) is Dragging,
        k % 3 == 1 <==> handle_at(k) is Resizing,
        k % 3 == 2 <==> handle_at(k) is Rotating,
        handle_at(k).spec_square_index() == if k < 3 {
            SquareIndex::Big
        } else {
            SquareIndex::Small((k / 3 - 1) as usize)
        },
{
}

/// Writing a square through `get_mut` and reading it back with `get` gives
/// the written value, and leaves every other square as it was.
pub proof fn lemma_write_then_read<S>(old_sim: Sim<S>, new_sim: Sim<S>, i: SquareIndex, j: SquareIndex, x: S)
    requires
        old_sim.has_square(i),
        new_sim@ == old_sim@.update(position_of(i), x),
        new_sim.small_squares@.len() == old_sim.small_squares@.len(),
    ensures
        new_sim.has_square(i),
        new_sim.square(i) == x,
        j != i && old_sim.has_square(j) ==> new_sim.has_square(j) && new_sim.square(j) == old_sim.square(j),
{
}

/// An impulse on one element of a small square, to be applied at the end of
/// a step. `V` is a 2D vector.
#[derive(Debug, Clone, Copy)]
pub enum SquareImpulseBuilder<V> {
    Vertex { vertex_index: usize, impulse: V },
    Edge { edge_index: usize, point: V, impulse: V },
}

/// The impulse that a contact of vertex `vertex_index` of square
/// `square_index` adds to the list of small square `j`: one, when the vertex
/// belongs to that square.
pub open spec fn own_impulses<V>(
    j: int,
    square_index: SquareIndex,
    vertex_index: usize,
    impulse: V,
) -> Seq<SquareImpulseBuilder<V>> {
    match square_index {
        SquareIndex::Small(i) => if i == j {
            seq![SquareImpulseBuilder::Vertex { vertex_index, impulse }]
        } else {
            seq![]
        },
        SquareIndex::Big => seq![],
    }
}

/// The reaction that a contact with element `element_index` of square
/// `other_square_index` adds to the list of small square `j`: one, when the
/// element is a vertex of that square; an edge receives nothing.
pub open spec fn reaction_impulses<V>(
    j: int,
    other_square_index: SquareIndex,
    element_index: ElementIndex,
    reaction: V,
) -> Seq<SquareImpulseBuilder<V>> {
    match (other_square_index, element_index) {
        (SquareIndex::Small(o), ElementIndex::Vertex(v)) => if o == j {
            seq![SquareImpulseBuilder::Vertex { vertex_index: v, impulse: reaction }]
        } else {
            seq![]
        },
        _ => seq![],
    }
}

/// The impulses that one contact adds to the list of small square `j`: a
/// contact between vertex `vertex_index` of square `square_index` and element
/// `element_index` of square `other_square_index` pushes the vertex with
/// `impulse`, then the other square's vertex with `reaction`.
pub open spec fn contact_impulses<V>(
    j: int,
    square_index: SquareIndex,
    vertex_index: usize,
    other_square_index: SquareIndex,
    element_index: ElementIndex,
    impulse: V,
    reaction: V,
) -> Seq<SquareImpulseBuilder<V>> {
    own_impulses(j, square_index, vertex_index, impulse) + reaction_impulses(
        j,
        other_square_index,
        element_index,
        reaction,
    )
}

/// Whether `j` is the small square of the touching vertex.
pub open spec fn is_own_square(j: int, square_index: SquareIndex) -> bool {
    square_index matches SquareIndex::Small(i) && i == j
}

/// Whether `j` is the small square whose vertex is touched.
pub open spec fn is_touched_vertex_square(
    j: int,
    other_square_index: SquareIndex,
    element_index: ElementIndex,
) -> bool {
    &&& other_square_index matches SquareIndex::Small(o) && o == j
    &&& element_index is Vertex
}

/// The number of the element, as a vertex number when it is a vertex.
pub open spec fn touched_vertex(element_index: ElementIndex) -> usize {
    match element_index {
        ElementIndex::Vertex(v) => v,
        ElementIndex::Edge(e) => e,
    }
}

/// What one contact adds to the list of small square `j`: an impulse on the
/// touching vertex when `j` is that vertex's square, whatever the touched
/// element is, then a reaction on the touched vertex when `j` is the square of
/// a touched vertex, whatever the touching square is; nothing else. The
/// impulse comes first and the reaction last.
pub proof fn lemma_contact_impulses<V>(
    j: int,
    square_index: SquareIndex,
    vertex_index: usize,
    other_square_index: SquareIndex,
    element_index: ElementIndex,
    impulse: V,
    reaction: V,
)
    ensures
        contact_impulses(
            j,
            square_index,
            vertex_index,
            other_square_index,
            element_index,
            impulse,
            reaction,
        ).len() == (if is_own_square(j, square_index) { 1int } else { 0int }) + (if is_touched_vertex_square(j, other_square_index, element_index) { 1int } else { 0int }),
        is_own_square(j, square_index) ==> contact_impulses(
            j,
            square_index,
            vertex_index,
            other_square_index,
            element_index,
            impulse,
            reaction,
        )[0] == (SquareImpulseBuilder::Vertex { vertex_index, impulse }),
        is_touched_vertex_square(j, other_square_index, element_index) ==> contact_impulses(
            j,
            square_index,
            vertex_index,
            other_square_index,
            element_index,
            impulse,
            reaction,
        ).last() == (SquareImpulseBuilder::Vertex {
            vertex_index: touched_vertex(element_index),
            impulse: reaction,
        }),
{
}

/// Whether every small square named by the contact has a list in `builders`.
pub open spec fn contact_in_range<V>(
    builders: Seq<Vec<SquareImpulseBuilder<V>>>,
    square_index: SquareIndex,
    other_square_index: SquareIndex,
) -> bool {
    &&& square_index matches SquareIndex::Small(i) ==> i < builders.len()
    &&& other_square_index matches SquareIndex::Small(o) ==> o < builders.len()
}

/// Records the impulses of one contact in the per-small-square lists
/// `builders`, as `contact_impulses` says; the big square receives none.
pub fn record_contact<V: Copy>(
    builders: &mut Vec<Vec<SquareImpulseBuilder<V>>>,
    square_index: SquareIndex,
    vertex_index: usize,
    other_square_index: SquareIndex,
    element_index: ElementIndex,
    impulse: V,
    reaction: V,
)
    requires
        contact_in_range(old(builders)@, square_index, other_square_index),
    ensures
        final(builders)@.len() == old(builders)@.len(),
        forall|j: int|
            0 <= j < old(builders)@.len() ==> (#[trigger] final(builders)@[j])@ == old(builders)@[j]@
                + contact_impulses(
                j,
                square_index,
                vertex_index,
                other_square_index,
                element_index,
                impulse,
                reaction,
            ),
        forall|j: int|
            0 <= j < old(builders)@.len() ==> {
                &&& (#[trigger] final(builders)@[j])@.len() == old(builders)@[j]@.len() + (if is_own_square(j, square_index) { 1int } else { 0int }) + (if is_touched_vertex_square(j, other_square_index, element_index) { 1int } else { 0int })
                &&& final(builders)@[j]@.take(old(builders)@[j]@.len() as int) == old(builders)@[j]@
            },
        forall|i: int|
            0 <= i < old(builders)@.len() && is_own_square(i, square_index) ==> (#[trigger] final(builders)@[i])@[old(builders)@[i]@.len() as int] == (SquareImpulseBuilder::Vertex {
                vertex_index,
                impulse,
            }),
        forall|o: int|
            0 <= o < old(builders)@.len() && is_touched_vertex_square(
                o,
                other_square_index,
                element_index,
            ) ==> (#[trigger] final(builders)@[o])@.last() == (SquareImpulseBuilder::Vertex {
                vertex_index: touched_vertex(element_index),
                impulse: reaction,
            }),
{
    let ghost old_lists = builders@;
    if let SquareIndex::Small(i) = square_index {
        builders[i].push(SquareImpulseBuilder::Vertex { vertex_index, impulse });
    }
    let ghost mid_lists = builders@;
    assert forall|j: int| 0 <= j < old_lists.len() implies (#[trigger] mid_lists[j])@ == old_lists[j]@
        + own_impulses(j, square_index, vertex_index, impulse) by {
        assert(mid_lists[j]@ =~= old_lists[j]@ + own_impulses(j, square_index, vertex_index, impulse));
    }
    if let SquareIndex::Small(o) = other_square_index {
        match element_index {
            ElementIndex::Vertex(v) => {
                builders[o].push(SquareImpulseBuilder::Vertex { vertex_index: v, impulse: reaction });
            },
            ElementIndex::Edge(_) => {},
        }
    }
    assert forall|j: int| 0 <= j < old_lists.len() implies (#[trigger] builders@[j])@ == old_lists[j]@
        + contact_impulses(
        j,
        square_index,
        vertex_index,
        other_square_index,
        element_index,
        impulse,
        reaction,
    ) by {
        assert(builders@[j]@ =~= mid_lists[j]@ + reaction_impulses(
            j,
            other_square_index,
            element_index,
            reaction,
        ));
        assert(builders@[j]@ =~= old_lists[j]@ + contact_impulses(
            j,
            square_index,
            vertex_index,
            other_square_index,
            element_index,
            impulse,
            reaction,
        ));
    }
    proof {
        assert forall|j: int| 0 <= j < old_lists.len() implies {
            &&& (#[trigger] builders@[j])@.len() == old_lists[j]@.len() + (if is_own_square(j, square_index) { 1int } else { 0int }) + (if is_touched_vertex_square(j, other_square_index, element_index) { 1int } else { 0int })
            &&& builders@[j]@.take(old_lists[j]@.len() as int) == old_lists[j]@
        } by {
            lemma_contact_impulses(
                j,
                square_index,
                vertex_index,
                other_square_index,
                element_index,
                impulse,
                reaction,
            );
            assert(builders@[j]@.take(old_lists[j]@.len() as int) =~= old_lists[j]@);
        }
        assert forall|i: int|
            0 <= i < old_lists.len() && is_own_square(i, square_index) implies (#[trigger] builders@[i])@[old_lists[i]@.len() as int] == (SquareImpulseBuilder::Vertex {
                vertex_index,
                impulse,
            }) by {
            lemma_contact_impulses(
                i,
                square_index,
                vertex_index,
                other_square_index,
                element_index,
                impulse,
                reaction,
            );
        }
        assert forall|o: int|
            0 <= o < old_lists.len() && is_touched_vertex_square(
                o,
                other_square_index,
                element_index,
            ) implies (#[trigger] builders@[o])@.last() == (SquareImpulseBuilder::Vertex {
                vertex_index: touched_vertex(element_index),
                impulse: reaction,
            }) by {
            lemma_contact_impulses(
                o,
                square_index,
                vertex_index,
                other_square_index,
                element_index,
                impulse,
                reaction,
            );
        }
    }
}

} // verus!
