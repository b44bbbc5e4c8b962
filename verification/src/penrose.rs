//! Penrose rhomb tiling (P3), combinatorial part: fat and thin rhombs with
//! matching-rule edges, inflation by substitution, and the counts of each
//! kind of tile.
//!
//! A fat rhomb inflates into one fat and two thin rhombs, a thin rhomb into
//! one fat rhomb. Every rhomb carries four edges: two edge kinds, each on a
//! pair of opposite sides, with arrows that alternate around the rhomb.
use vstd::prelude::*;

verus! {

/// Edge arrow direction for matching rules.
#[derive(Debug, Clone, Copy, PartialEq, Eq, Structural)]
pub enum EdgeArrow {
    /// Arrow points from vertex A to vertex B.
    Forward,
    /// Arrow points from vertex B to vertex A.
    Backward,
}

/// Type of Penrose rhomb.
#[derive(Debug, Clone, Copy, PartialEq, Eq, Structural)]
pub enum RhombType {
    /// Fat rhomb: interior angles 72 and 108 degrees.
    Fat,
    /// Thin rhomb: interior angles 36 and 144 degrees.
    Thin,
}

/// An edge of a rhomb with its matching information.
#[derive(Debug, Clone, Copy, PartialEq, Eq, Structural)]
pub struct Edge {
    /// Arrow direction for matching.
    pub arrow: EdgeArrow,
    /// Edge kind: fat rhombs carry kinds 0 and 1, thin rhombs kinds 2 and 3.
    pub edge_type: u8,
}

/// Two edges match when they have the same kind and opposite arrows.
pub open spec fn edges_agree(a: Edge, b: Edge) -> bool {
    a.edge_type == b.edge_type && a.arrow != b.arrow
}

impl Edge {
    /// An edge with the given arrow and kind.
    pub fn new(arrow: EdgeArrow, edge_type: u8) -> (r: Self)
        ensures
            r == (Edge { arrow, edge_type }),
    {
        Self { arrow, edge_type }
    }

    /// Two edges match if they have the same type and opposite arrows.
    pub fn matches(&self, other: &Edge) -> (r: bool)
        ensures
            r == edges_agree(*self, *other),
    {
        self.edge_type == other.edge_type && self.arrow != other.arrow
    }
}

/// The two edge kinds of a rhomb type: (kind of sides 0 and 2, kind of
/// sides 1 and 3).
pub open spec fn edge_kinds(t: RhombType) -> (u8, u8) {
    match t {
        RhombType::Fat => (0, 1),
        RhombType::Thin => (2, 3),
    }
}

/// The four edges that a rhomb of type `t` is made with.
pub open spec fn rhomb_edges(t: RhombType) -> Seq<Edge> {
    let (a, b) = edge_kinds(t);
    seq![
        Edge { arrow: EdgeArrow::Forward, edge_type: a },
        Edge { arrow: EdgeArrow::Backward, edge_type: b },
        Edge { arrow: EdgeArrow::Forward, edge_type: a },
        Edge { arrow: EdgeArrow::Backward, edge_type: b },
    ]
}

/// The other rhomb type.
pub open spec fn other_type(t: RhombType) -> RhombType {
    match t {
        RhombType::Fat => RhombType::Thin,
        RhombType::Thin => RhombType::Fat,
    }
}

/// The types of the rhombs that one rhomb of type `t` inflates into.
pub open spec fn children(t: RhombType) -> Seq<RhombType> {
    match t {
        RhombType::Fat => seq![RhombType::Fat, RhombType::Thin, RhombType::Thin],
        RhombType::Thin => seq![RhombType::Fat],
    }
}

/// A single rhomb tile of a Penrose tiling.
#[derive(Debug, Clone, Copy)]
pub struct Rhomb {
    /// Type: fat or thin.
    pub rhomb_type: RhombType,
    /// Edges with matching rules.
    pub edges: [Edge; 4],
}

impl Rhomb {
    /// The rhomb carries the edges of its type.
    pub open spec fn well_formed(&self) -> bool {
        self.edges@ == rhomb_edges(self.rhomb_type)
    }

    /// Some edge of `self` matches some edge of `other`.
    pub open spec fn spec_edges_match(&self, other: &Rhomb) -> bool {
        exists|i: int, j: int|
            0 <= i < 4 && 0 <= j < 4 && #[trigger] edges_agree(self.edges@[i], other.edges@[j])
    }

    /// A rhomb of the given type with its matching-rule edges.
    pub fn new(rhomb_type: RhombType) -> (r: Self)
        ensures
            r.rhomb_type == rhomb_type,
            r.well_formed(),
    {
        let edges = Self::make_edges(rhomb_type);
        Self { rhomb_type, edges }
    }

    /// Check if two rhombs have matching edges (local coordination rule):
    /// some edge of `self` matches some edge of `other`.
    pub fn edges_match(&self, other: &Rhomb) -> (r: bool)
        ensures
            r == self.spec_edges_match(other),
    {
        let mut i: usize = 0;
        while i < 4
            invariant
                i <= 4,
                forall|a: int, b: int|
                    0 <= a < i && 0 <= b < 4 ==> !#[trigger] edges_agree(
                        self.edges@[a],
                        other.edges@[b],
                    ),
            decreases 4 - i,
        {
            let mut j: usize = 0;
            while j < 4
                invariant
                    i < 4,
                    j <= 4,
                    forall|a: int, b: int|
                        0 <= a < i && 0 <= b < 4 ==> !#[trigger] edges_agree(
                            self.edges@[a],
                            other.edges@[b],
                        ),
                    forall|b: int|
                        0 <= b < j ==> !#[trigger] edges_agree(self.edges@[i as int], other.edges@[b]),
                decreases 4 - j,
            {
                if self.edges[i].matches(&other.edges[j]) {
                    return true;
                }
                j = j + 1;
            }
            i = i + 1;
        }
        false
    }

    /// Inflate: decompose this rhomb into smaller rhombs. A fat rhomb gives
    /// one fat and two thin rhombs, a thin rhomb gives one fat rhomb.
    pub fn inflate(&self) -> (r: Vec<Rhomb>)
        ensures
            r@.map_values(|x: Rhomb| x.rhomb_type) == children(self.rhomb_type),
            forall|i: int| 0 <= i < r@.len() ==> #[trigger] r@[i].well_formed(),
    {
        let mut r: Vec<Rhomb> = Vec::new();
        match self.rhomb_type {
            RhombType::Fat => {
                r.push(Rhomb::new(RhombType::Fat));
                r.push(Rhomb::new(RhombType::Thin));
                r.push(Rhomb::new(RhombType::Thin));
            },
            RhombType::Thin => {
                r.push(Rhomb::new(RhombType::Fat));
            },
        }
        assert(r@.map_values(|x: Rhomb| x.rhomb_type) =~= children(self.rhomb_type));
        r
    }

    /// Deflate: combine into a larger rhomb of the other type.
    pub fn deflate(&self) -> (r: Option<Rhomb>)
        ensures
            r is Some,
            r->0.rhomb_type == other_type(self.rhomb_type),
            r->0.well_formed(),
    {
        match self.rhomb_type {
            RhombType::Fat => Some(Rhomb::new(RhombType::Thin)),
            RhombType::Thin => Some(Rhomb::new(RhombType::Fat)),
        }
    }

    fn make_edges(rhomb_type: RhombType) -> (r: [Edge; 4])
        ensures
            r@ == rhomb_edges(rhomb_type),
    {
        let r = match rhomb_type {
            RhombType::Fat => [
                Edge::new(EdgeArrow::Forward, 0),
                Edge::new(EdgeArrow::Backward, 1),
                Edge::new(EdgeArrow::Forward, 0),
                Edge::new(EdgeArrow::Backward, 1),
            ],
            RhombType::Thin => [
                Edge::new(EdgeArrow::Forward, 2),
                Edge::new(EdgeArrow::Backward, 3),
                Edge::new(EdgeArrow::Forward, 2),
                Edge::new(EdgeArrow::Backward, 3),
            ],
        };
        assert(r@ =~= rhomb_edges(rhomb_type));
        r
    }
}

/// The types of a sequence of rhombs.
pub open spec fn types_of(s: Seq<Rhomb>) -> Seq<RhombType> {
    s.map_values(|r: Rhomb| r.rhomb_type)
}

/// One inflation step on a sequence of rhomb types: each rhomb is replaced,
/// in place, by its children.
pub open spec fn inflate_types(s: Seq<RhombType>) -> Seq<RhombType>
    decreases s.len(),
{
    if s.len() == 0 {
        Seq::empty()
    } else {
        inflate_types(s.drop_last()) + children(s.last())
    }
}

/// `n` inflation steps on a sequence of rhomb types.
pub open spec fn inflate_types_n(s: Seq<RhombType>, n: nat) -> Seq<RhombType>
    decreases n,
{
    if n == 0 {
        s
    } else {
        inflate_types(inflate_types_n(s, (n - 1) as nat))
    }
}

/// The number of fat rhombs in a sequence of rhomb types.
pub open spec fn count_fat(s: Seq<RhombType>) -> nat
    decreases s.len(),
{
    if s.len() == 0 {
        0
    } else {
        count_fat(s.drop_last()) + if s.last() == RhombType::Fat {
            1nat
        } else {
            0nat
        }
    }
}

/// The number of thin rhombs in a sequence of rhomb types.
pub open spec fn count_thin(s: Seq<RhombType>) -> nat {
    (s.len() - count_fat(s)) as nat
}

/// The (fat, thin) counts after `n` inflations of `fat` fat and `thin` thin
/// rhombs: each step maps `(f, t)` to `(f + t, 2 * f)`.
pub open spec fn inflated_counts(fat: nat, thin: nat, n: nat) -> (nat, nat)
    decreases n,
{
    if n == 0 {
        (fat, thin)
    } else {
        let c = inflated_counts(fat, thin, (n - 1) as nat);
        (c.0 + c.1, 2 * c.0)
    }
}

/// A Penrose tiling: a collection of rhombs obeying matching rules.
#[derive(Debug, Clone)]
pub struct PenroseTiling {
    /// The rhombs in the tiling.
    pub rhombs: Vec<Rhomb>,
    /// Generation (number of inflation steps from the initial configuration).
    pub generation: u32,
}

impl PenroseTiling {
    /// The types of the rhombs, in order.
    pub open spec fn types(&self) -> Seq<RhombType> {
        types_of(self.rhombs@)
    }

    /// Every rhomb carries the edges of its type.
    pub open spec fn well_formed(&self) -> bool {
        forall|i: int| 0 <= i < self.rhombs@.len() ==> #[trigger] self.rhombs@[i].well_formed()
    }

    /// Every rhomb has equal edge kinds on its opposite sides.
    pub open spec fn spec_matching_rules(&self) -> bool {
        forall|i: int|
            0 <= i < self.rhombs@.len() ==> {
                let e = #[trigger] self.rhombs@[i].edges@;
                e[0].edge_type == e[2].edge_type && e[1].edge_type == e[3].edge_type
            }
    }

    /// The initial "sun" tiling: 10 fat rhombs.
    pub fn sun() -> (r: Self)
        ensures
            r.types() == Seq::new(10, |i: int| RhombType::Fat),
            r.well_formed(),
            r.generation == 0,
    {
        let mut rhombs: Vec<Rhomb> = Vec::new();
        let mut i: usize = 0;
        while i < 10
            invariant
                i <= 10,
                rhombs@.len() == i,
                forall|k: int| 0 <= k < i ==> #[trigger] rhombs@[k].rhomb_type == RhombType::Fat,
                forall|k: int| 0 <= k < rhombs@.len() ==> #[trigger] rhombs@[k].well_formed(),
            decreases 10 - i,
        {
            rhombs.push(Rhomb::new(RhombType::Fat));
            i = i + 1;
        }
        let r = Self { rhombs, generation: 0 };
        assert(r.types() =~= Seq::new(10, |i: int| RhombType::Fat));
        r
    }

    /// The initial "star" tiling: 5 fat and 5 thin rhombs, alternating.
    pub fn star() -> (r: Self)
        ensures
            r.types() == Seq::new(
                10,
                |i: int|
                    if i % 2 == 0 {
                        RhombType::Fat
                    } else {
                        RhombType::Thin
                    },
            ),
            r.well_formed(),
            r.generation == 0,
    {
        let mut rhombs: Vec<Rhomb> = Vec::new();
        let mut i: usize = 0;
        while i < 5
            invariant
                i <= 5,
                rhombs@.len() == 2 * i,
                forall|k: int|
                    0 <= k < 2 * i ==> #[trigger] rhombs@[k].rhomb_type == if k % 2 == 0 {
                        RhombType::Fat
                    } else {
                        RhombType::Thin
                    },
                forall|k: int| 0 <= k < rhombs@.len() ==> #[trigger] rhombs@[k].well_formed(),
            decreases 5 - i,
        {
            rhombs.push(Rhomb::new(RhombType::Fat));
            rhombs.push(Rhomb::new(RhombType::Thin));
            i = i + 1;
        }
        let r = Self { rhombs, generation: 0 };
        assert(r.types() =~= Seq::new(
            10,
            |i: int|
                if i % 2 == 0 {
                    RhombType::Fat
                } else {
                    RhombType::Thin
                },
        ));
        r
    }

    /// Inflate all rhombs: each rhomb is replaced, in place, by its children.
    pub fn inflate(&self) -> (r: Self)
        requires
            self.generation < u32::MAX,
        ensures
            r.types() == inflate_types(self.types()),
            r.well_formed(),
            r.generation == self.generation + 1,
    {
        let mut rhombs: Vec<Rhomb> = Vec::new();
        let mut i: usize = 0;
        while i < self.rhombs.len()
            invariant
                i <= self.rhombs@.len(),
                types_of(rhombs@) == inflate_types(self.types().take(i as int)),
                forall|k: int| 0 <= k < rhombs@.len() ==> #[trigger] rhombs@[k].well_formed(),
            decreases self.rhombs@.len() - i,
        {
            let kids = self.rhombs[i].inflate();
            let ghost start = rhombs@;
            let mut j: usize = 0;
            while j < kids.len()
                invariant
                    j <= kids@.len(),
                    rhombs@ == start + kids@.take(j as int),
                    forall|k: int| 0 <= k < rhombs@.len() ==> #[trigger] rhombs@[k].well_formed(),
                    forall|k: int| 0 <= k < kids@.len() ==> #[trigger] kids@[k].well_formed(),
                decreases kids@.len() - j,
            {
                rhombs.push(kids[j]);
                j = j + 1;
                assert(rhombs@ =~= start + kids@.take(j as int));
            }
            assert(kids@.take(j as int) =~= kids@);
            assert(self.types().take(i + 1).drop_last() =~= self.types().take(i as int));
            assert(types_of(rhombs@) =~= types_of(start) + types_of(kids@));
            i = i + 1;
        }
        assert(self.types().take(i as int) =~= self.types());
        Self { rhombs, generation: self.generation + 1 }
    }

    /// Perform `n` inflation steps.
    pub fn inflate_n(&self, n: u32) -> (r: Self)
        requires
            self.generation + n <= u32::MAX,
        ensures
            r.types() == inflate_types_n(self.types(), n as nat),
            r.generation == self.generation + n,
            n > 0 || self.well_formed() ==> r.well_formed(),
            n == 0 ==> r.rhombs@ == self.rhombs@,
    {
        let mut tiling = self.copy();
        let mut k: u32 = 0;
        while k < n
            invariant
                k <= n,
                self.generation + n <= u32::MAX,
                tiling.types() == inflate_types_n(self.types(), k as nat),
                tiling.generation == self.generation + k,
                k > 0 || self.well_formed() ==> tiling.well_formed(),
                k == 0 ==> tiling.rhombs@ == self.rhombs@,
            decreases n - k,
        {
            tiling = tiling.inflate();
            k = k + 1;
        }
        tiling
    }

    /// A copy of the tiling, rhomb for rhomb.
    fn copy(&self) -> (r: Self)
        ensures
            r.rhombs@ == self.rhombs@,
            r.generation == self.generation,
    {
        let mut rhombs: Vec<Rhomb> = Vec::new();
        let mut i: usize = 0;
        while i < self.rhombs.len()
            invariant
                i <= self.rhombs@.len(),
                rhombs@ == self.rhombs@.take(i as int),
            decreases self.rhombs@.len() - i,
        {
            rhombs.push(self.rhombs[i]);
            i = i + 1;
            assert(rhombs@ =~= self.rhombs@.take(i as int));
        }
        assert(self.rhombs@.take(i as int) =~= self.rhombs@);
        Self { rhombs, generation: self.generation }
    }

    /// Number of rhombs in the tiling.
    pub fn len(&self) -> (r: usize)
        ensures
            r == self.rhombs@.len(),
    {
        self.rhombs.len()
    }

    /// The tiling has no rhombs.
    pub fn is_empty(&self) -> (r: bool)
        ensures
            r == (self.rhombs@.len() == 0),
    {
        self.rhombs.len() == 0
    }

    /// Count rhombs by type: `(fat, thin)`.
    pub fn count_by_type(&self) -> (r: (usize, usize))
        ensures
            r.0 == count_fat(self.types()),
            r.1 == count_thin(self.types()),
            r.0 + r.1 == self.rhombs@.len(),
    {
        let mut fat: usize = 0;
        let mut i: usize = 0;
        while i < self.rhombs.len()
            invariant
                i <= self.rhombs@.len(),
                fat <= i,
                fat == count_fat(self.types().take(i as int)),
            decreases self.rhombs@.len() - i,
        {
            assert(self.types().take(i + 1).drop_last() =~= self.types().take(i as int));
            if self.rhombs[i].rhomb_type == RhombType::Fat {
                fat = fat + 1;
            }
            i = i + 1;
        }
        assert(self.types().take(i as int) =~= self.types());
        proof {
            lemma_count_fat_bound(self.types());
        }
        let thin = self.rhombs.len() - fat;
        (fat, thin)
    }

    /// Check the matching rules inside each rhomb: opposite sides carry
    /// the same edge kind.
    pub fn verify_matching_rules(&self) -> (r: bool)
        ensures
            r == self.spec_matching_rules(),
    {
        let mut valid = true;
        let mut i: usize = 0;
        while i < self.rhombs.len()
            invariant
                i <= self.rhombs@.len(),
                valid == forall|k: int|
                    0 <= k < i ==> {
                        let e = #[trigger] self.rhombs@[k].edges@;
                        e[0].edge_type == e[2].edge_type && e[1].edge_type == e[3].edge_type
                    },
            decreases self.rhombs@.len() - i,
        {
            let rhomb = &self.rhombs[i];
            let ok = rhomb.edges[0].edge_type == rhomb.edges[2].edge_type
                && rhomb.edges[1].edge_type == rhomb.edges[3].edge_type;
            valid = valid && ok;
            i = i + 1;
        }
        valid
    }
}

/// The number of fat rhombs is at most the number of rhombs.
pub proof fn lemma_count_fat_bound(s: Seq<RhombType>)
    ensures
        count_fat(s) <= s.len(),
    decreases s.len(),
{
    if s.len() > 0 {
        lemma_count_fat_bound(s.drop_last());
    }
}

/// Counting fat rhombs distributes over concatenation.
pub proof fn lemma_count_fat_concat(a: Seq<RhombType>, b: Seq<RhombType>)
    ensures
        count_fat(a + b) == count_fat(a) + count_fat(b),
    decreases b.len(),
{
    if b.len() > 0 {
        lemma_count_fat_concat(a, b.drop_last());
        assert((a + b).drop_last() =~= a + b.drop_last());
    }
}

/// One inflation maps the counts `(fat, thin)` to `(fat + thin, 2 * fat)`,
/// so the tiling grows to `3 * fat + thin` rhombs.
pub proof fn lemma_inflate_counts(s: Seq<RhombType>)
    ensures
        count_fat(inflate_types(s)) == count_fat(s) + count_thin(s),
        count_thin(inflate_types(s)) == 2 * count_fat(s),
        inflate_types(s).len() == 3 * count_fat(s) + count_thin(s),
    decreases s.len(),
{
    lemma_count_fat_bound(s);
    lemma_count_fat_bound(inflate_types(s));
    if s.len() > 0 {
        let rest = s.drop_last();
        lemma_inflate_counts(rest);
        lemma_count_fat_bound(rest);
        lemma_count_fat_concat(inflate_types(rest), children(s.last()));
        let c = children(s.last());
        assert(count_fat(c) == 1) by {
            reveal_with_fuel(count_fat, 4);
            if s.last() == RhombType::Fat {
                assert(c.drop_last() =~= seq![RhombType::Fat, RhombType::Thin]);
                assert(c.drop_last().drop_last() =~= seq![RhombType::Fat]);
                assert(c.drop_last().drop_last().drop_last() =~= Seq::<RhombType>::empty());
            } else {
                assert(c.drop_last() =~= Seq::<RhombType>::empty());
            }
        }
    }
}

/// After `n` inflations the counts of fat and thin rhombs are given by
/// `inflated_counts` applied to the counts before.
pub proof fn lemma_inflate_n_counts(s: Seq<RhombType>, n: nat)
    ensures
        (count_fat(inflate_types_n(s, n)), count_thin(inflate_types_n(s, n))) == inflated_counts(
            count_fat(s),
            count_thin(s),
            n,
        ),
    decreases n,
{
    if n > 0 {
        lemma_inflate_n_counts(s, (n - 1) as nat);
        lemma_inflate_counts(inflate_types_n(s, (n - 1) as nat));
    }
}

/// Inflation is local: inflating two pieces of a tiling side by side is
/// inflating each piece on its own.
pub proof fn lemma_inflate_concat(a: Seq<RhombType>, b: Seq<RhombType>)
    ensures
        inflate_types(a + b) == inflate_types(a) + inflate_types(b),
    decreases b.len(),
{
    if b.len() == 0 {
        assert(a + b =~= a);
        assert(inflate_types(a) + inflate_types(b) =~= inflate_types(a));
    } else {
        lemma_inflate_concat(a, b.drop_last());
        assert((a + b).drop_last() =~= a + b.drop_last());
        assert((a + b).last() == b.last());
        assert(inflate_types(a + b) =~= inflate_types(a) + inflate_types(b));
    }
}

/// Inflating `m` times and then `n` times is inflating `m + n` times.
pub proof fn lemma_inflate_n_add(s: Seq<RhombType>, m: nat, n: nat)
    ensures
        inflate_types_n(inflate_types_n(s, m), n) == inflate_types_n(s, m + n),
    decreases n,
{
    if n > 0 {
        lemma_inflate_n_add(s, m, (n - 1) as nat);
        assert((m + n - 1) as nat == m + (n - 1) as nat);
    }
}

/// Inflation never removes rhombs.
pub proof fn lemma_inflation_grows(s: Seq<RhombType>)
    ensures
        inflate_types(s).len() >= s.len(),
{
    lemma_inflate_counts(s);
    lemma_count_fat_bound(s);
}

/// A tiling whose rhombs carry the edges of their types obeys the matching
/// rules.
pub proof fn lemma_well_formed_obeys_rules(t: PenroseTiling)
    requires
        t.well_formed(),
    ensures
        t.spec_matching_rules(),
{
    assert forall|i: int| 0 <= i < t.rhombs@.len() implies {
        let e = #[trigger] t.rhombs@[i].edges@;
        e[0].edge_type == e[2].edge_type && e[1].edge_type == e[3].edge_type
    } by {
        assert(t.rhombs@[i].well_formed());
    }
}

/// No edge of a rhomb made with the edges of its type matches an edge of
/// another such rhomb: equal kinds always come with equal arrows.
pub proof fn lemma_well_formed_edges_never_match(a: Rhomb, b: Rhomb)
    requires
        a.well_formed(),
        b.well_formed(),
    ensures
        !a.spec_edges_match(&b),
{
    assert forall|i: int, j: int| 0 <= i < 4 && 0 <= j < 4 implies !#[trigger] edges_agree(
        a.edges@[i],
        b.edges@[j],
    ) by {
        assert(a.edges@ == rhomb_edges(a.rhomb_type));
        assert(b.edges@ == rhomb_edges(b.rhomb_type));
    }
}

/// Deflation undoes inflation for a thin rhomb: its single child deflates
/// back to the thin type. (A fat rhomb's first child is fat and deflates to
/// thin, so the law is stated for thin rhombs.)
pub proof fn lemma_deflate_undoes_inflation(t: RhombType)
    requires
        t == RhombType::Thin,
    ensures
        children(t).len() == 1,
        other_type(children(t)[0]) == t,
{
}

/// Two edges match exactly when they have the same kind and opposite
/// arrows; edges of different kinds never match, and matching is symmetric.
pub proof fn lemma_edge_match_exact(a: Edge, b: Edge)
    ensures
        edges_agree(a, b) ==> a.edge_type == b.edge_type,
        edges_agree(a, b) ==> a.arrow != b.arrow,
        a.edge_type == b.edge_type && a.arrow != b.arrow ==> edges_agree(a, b),
        edges_agree(a, b) == edges_agree(b, a),
{
}

/// Any matching pair of edges, in any of the four positions of either
/// rhomb, makes the rhombs match; a match always comes from such a pair.
pub proof fn lemma_edges_match_any_pair(a: Rhomb, b: Rhomb, i: int, j: int)
    requires
        0 <= i < 4,
        0 <= j < 4,
        a.edges@[i].edge_type == b.edges@[j].edge_type,
        a.edges@[i].arrow != b.edges@[j].arrow,
    ensures
        a.spec_edges_match(&b),
        b.spec_edges_match(&a),
{
    lemma_edge_match_exact(a.edges@[i], b.edges@[j]);
    assert(edges_agree(a.edges@[i], b.edges@[j]));
    assert(edges_agree(b.edges@[j], a.edges@[i]));
}

/// Rhombs that match have a pair of edges of one kind with opposite arrows.
pub proof fn lemma_edges_match_witness(a: Rhomb, b: Rhomb)
    requires
        a.spec_edges_match(&b),
    ensures
        exists|i: int, j: int|
            0 <= i < 4 && 0 <= j < 4 && a.edges@[i].edge_type == b.edges@[j].edge_type
                && #[trigger] a.edges@[i].arrow != #[trigger] b.edges@[j].arrow,
{
    let (i, j) = choose|i: int, j: int|
        0 <= i < 4 && 0 <= j < 4 && #[trigger] edges_agree(a.edges@[i], b.edges@[j]);
    lemma_edge_match_exact(a.edges@[i], b.edges@[j]);
    assert(a.edges@[i].edge_type == b.edges@[j].edge_type && a.edges@[i].arrow != b.edges@[j].arrow);
}

/// Edge matching between rhombs is symmetric.
pub proof fn lemma_edges_match_symmetric(a: Rhomb, b: Rhomb)
    ensures
        a.spec_edges_match(&b) == b.spec_edges_match(&a),
{
    if a.spec_edges_match(&b) {
        let (i, j) = choose|i: int, j: int|
            0 <= i < 4 && 0 <= j < 4 && #[trigger] edges_agree(a.edges@[i], b.edges@[j]);
        lemma_edges_match_any_pair(a, b, i, j);
    }
    if b.spec_edges_match(&a) {
        let (i, j) = choose|i: int, j: int|
            0 <= i < 4 && 0 <= j < 4 && #[trigger] edges_agree(b.edges@[i], a.edges@[j]);
        lemma_edges_match_any_pair(b, a, i, j);
    }
}

/// A tiling obeys the matching rules exactly when every rhomb carries one
/// edge kind on sides 0 and 2 and one edge kind on sides 1 and 3: a single
/// rhomb that breaks either pair makes the check fail.
pub proof fn lemma_matching_rules_exact(t: PenroseTiling, i: int)
    requires
        0 <= i < t.rhombs@.len(),
    ensures
        t.rhombs@[i].edges@[0].edge_type != t.rhombs@[i].edges@[2].edge_type
            ==> !t.spec_matching_rules(),
        t.rhombs@[i].edges@[1].edge_type != t.rhombs@[i].edges@[3].edge_type
            ==> !t.spec_matching_rules(),
        (forall|k: int|
            0 <= k < t.rhombs@.len() ==> #[trigger] t.rhombs@[k].edges@[0].edge_type
                == t.rhombs@[k].edges@[2].edge_type && t.rhombs@[k].edges@[1].edge_type
                == t.rhombs@[k].edges@[3].edge_type) ==> t.spec_matching_rules(),
{
    if (forall|k: int|
        0 <= k < t.rhombs@.len() ==> #[trigger] t.rhombs@[k].edges@[0].edge_type
            == t.rhombs@[k].edges@[2].edge_type && t.rhombs@[k].edges@[1].edge_type
            == t.rhombs@[k].edges@[3].edge_type) {
        assert forall|k: int| 0 <= k < t.rhombs@.len() implies {
            let e = #[trigger] t.rhombs@[k].edges@;
            e[0].edge_type == e[2].edge_type && e[1].edge_type == e[3].edge_type
        } by {
            assert(t.rhombs@[k].edges@[0].edge_type == t.rhombs@[k].edges@[2].edge_type);
        }
    }
    let e = t.rhombs@[i].edges@;
    assert(e == t.rhombs@[i].edges@);
}

/// The edges of a rhomb: arrows alternate around it, starting forward;
/// sides 0 and 2 carry one kind and sides 1 and 3 the next kind; fat rhombs
/// use kinds 0 and 1, thin rhombs kinds 2 and 3.
pub proof fn lemma_rhomb_edges_shape(t: RhombType)
    ensures
        rhomb_edges(t).len() == 4,
        rhomb_edges(t)[0].arrow == EdgeArrow::Forward,
        rhomb_edges(t)[1].arrow == EdgeArrow::Backward,
        rhomb_edges(t)[2].arrow == EdgeArrow::Forward,
        rhomb_edges(t)[3].arrow == EdgeArrow::Backward,
        rhomb_edges(t)[2].edge_type == rhomb_edges(t)[0].edge_type,
        rhomb_edges(t)[3].edge_type == rhomb_edges(t)[1].edge_type,
        rhomb_edges(t)[1].edge_type == rhomb_edges(t)[0].edge_type + 1,
        rhomb_edges(t)[0].edge_type == if t == RhombType::Fat {
            0u8
        } else {
            2u8
        },
{
}

/// Counting fat rhombs: none in an empty sequence, one for a fat rhomb and
/// none for a thin one (with `lemma_count_fat_concat` this fixes the count of
/// every sequence).
pub proof fn lemma_count_fat_single(t: RhombType)
    ensures
        count_fat(Seq::<RhombType>::empty()) == 0,
        count_fat(seq![t]) == if t == RhombType::Fat {
            1nat
        } else {
            0nat
        },
        count_thin(seq![t]) == if t == RhombType::Thin {
            1nat
        } else {
            0nat
        },
{
    let one = seq![t];
    assert(one.len() == 1 && one.last() == t);
    assert(one.drop_last() =~= Seq::<RhombType>::empty());
    assert(count_fat(Seq::<RhombType>::empty()) == 0);
    assert(count_fat(one) == count_fat(one.drop_last()) + if t == RhombType::Fat {
        1nat
    } else {
        0nat
    });
}

/// Inflating a single rhomb: a fat rhomb becomes fat, thin, thin (in this
/// order) and a thin rhomb becomes one fat rhomb; nothing inflates to
/// nothing (with `lemma_inflate_concat` this fixes the inflation of every
/// sequence).
pub proof fn lemma_inflate_single(t: RhombType)
    ensures
        inflate_types(Seq::<RhombType>::empty()) == Seq::<RhombType>::empty(),
        inflate_types(seq![RhombType::Fat]) == seq![
            RhombType::Fat,
            RhombType::Thin,
            RhombType::Thin,
        ],
        inflate_types(seq![RhombType::Thin]) == seq![RhombType::Fat],
        inflate_types(seq![t]).len() == if t == RhombType::Fat {
            3nat
        } else {
            1nat
        },
{
    let e = Seq::<RhombType>::empty();
    assert(inflate_types(e) == e);
    let f = seq![RhombType::Fat];
    let h = seq![RhombType::Thin];
    let o = seq![t];
    assert(f.len() == 1 && f.last() == RhombType::Fat && f.drop_last() =~= e);
    assert(h.len() == 1 && h.last() == RhombType::Thin && h.drop_last() =~= e);
    assert(o.len() == 1 && o.last() == t && o.drop_last() =~= e);
    assert(inflate_types(f) == inflate_types(f.drop_last()) + children(f.last()));
    assert(inflate_types(h) == inflate_types(h.drop_last()) + children(h.last()));
    assert(inflate_types(o) == inflate_types(o.drop_last()) + children(o.last()));
    assert(Seq::<RhombType>::empty() + children(RhombType::Fat) =~= seq![
        RhombType::Fat,
        RhombType::Thin,
        RhombType::Thin,
    ]);
    assert(Seq::<RhombType>::empty() + children(RhombType::Thin) =~= seq![RhombType::Fat]);
    assert(Seq::<RhombType>::empty() + children(t) =~= children(t));
}

/// Zero inflations leave a sequence as it is, and `n + 1` inflations are one
/// more inflation after `n`.
pub proof fn lemma_inflate_n_steps(s: Seq<RhombType>, n: nat)
    ensures
        inflate_types_n(s, 0) == s,
        inflate_types_n(s, n + 1) == inflate_types(inflate_types_n(s, n)),
{
}

/// Deflation always changes the type: fat to thin and thin to fat.
pub proof fn lemma_deflate_changes_type(t: RhombType)
    ensures
        other_type(t) != t,
        other_type(RhombType::Fat) == RhombType::Thin,
        other_type(RhombType::Thin) == RhombType::Fat,
{
}

} // verus!
