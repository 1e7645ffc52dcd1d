//! The mesh: vertex positions, faces as vertex-index loops, and a
//! provenance name; with its well-formedness and the derived edge table and
//! vertex valences.
use crate::geometry::{
    COORD_MAX, Point, centroid_along, centroid_coord, face_is_regular, is_regular, make_point,
};
use vstd::prelude::*;

verus! {

/// A polyhedron mesh. `faces[i]` lists the vertices of face `i` in winding
/// order; `name` records the operators applied so far and is never read by
/// the geometry.
pub struct Polyhedron {
    pub positions: Vec<Point>,
    pub faces: Vec<Vec<usize>>,
    pub name: String,
}

/// Index of the vertex after the `i`-th in a loop of `n`.
pub open spec fn next(i: int, n: int) -> int {
    if i + 1 == n {
        0
    } else {
        i + 1
    }
}

/// Index of the vertex before the `i`-th in a loop of `n`.
pub open spec fn prev(i: int, n: int) -> int {
    if i == 0 {
        n - 1
    } else {
        i - 1
    }
}

/// A face of a mesh with `nv` vertices: at least three indices, all in range
/// and all distinct.
pub open spec fn face_ok(nv: int, f: Seq<usize>) -> bool {
    &&& f.len() >= 3
    &&& forall|j: int| 0 <= j < f.len() ==> (#[trigger] f[j]) < nv
    &&& forall|j: int, k: int| 0 <= j < f.len() && 0 <= k < f.len() && j != k ==> f[j] != f[k]
}

pub open spec fn mesh_ok(pts: Seq<Point>, faces: Seq<Seq<usize>>) -> bool {
    &&& forall|j: int| 0 <= j < pts.len() ==> (#[trigger] pts[j]).bounded()
    &&& forall|i: int| 0 <= i < faces.len() ==> face_ok(pts.len() as int, #[trigger] faces[i])
}

/// Total number of face corners: the sum of the face lengths.
pub open spec fn corner_count(faces: Seq<Seq<usize>>) -> int
    decreases faces.len(),
{
    if faces.len() == 0 {
        0
    } else {
        corner_count(faces.drop_last()) + faces.last().len()
    }
}

/// An undirected edge as the ordered pair (smaller index, larger index).
pub open spec fn canon(a: usize, b: usize) -> (usize, usize) {
    if a < b {
        (a, b)
    } else {
        (b, a)
    }
}

/// The edges of one face, the `i`-th from vertex `i` to the next.
pub open spec fn face_pairs(f: Seq<usize>) -> Seq<(usize, usize)> {
    Seq::new(f.len(), |i: int| canon(f[i], f[next(i, f.len() as int)]))
}

/// The edges of all faces in order, shared edges repeated.
pub open spec fn corner_pairs(faces: Seq<Seq<usize>>) -> Seq<(usize, usize)>
    decreases faces.len(),
{
    if faces.len() == 0 {
        Seq::empty()
    } else {
        corner_pairs(faces.drop_last()) + face_pairs(faces.last())
    }
}

/// The first occurrence of each element, in order.
pub open spec fn dedup(s: Seq<(usize, usize)>) -> Seq<(usize, usize)>
    decreases s.len(),
{
    if s.len() == 0 {
        Seq::empty()
    } else {
        let d = dedup(s.drop_last());
        if d.contains(s.last()) {
            d
        } else {
            d.push(s.last())
        }
    }
}

/// The edge set of a mesh, each edge once, in order of first appearance.
pub open spec fn edge_table(faces: Seq<Seq<usize>>) -> Seq<(usize, usize)> {
    dedup(corner_pairs(faces))
}

/// Position of edge `p` in the table.
pub open spec fn edge_id(table: Seq<(usize, usize)>, p: (usize, usize)) -> int {
    choose|i: int| 0 <= i < table.len() && table[i] == p
}

/// Number of edges among the first `k` of the table that touch `v`.
pub open spec fn incident_count(table: Seq<(usize, usize)>, v: usize, k: int) -> int
    decreases k,
{
    if k <= 0 {
        0
    } else {
        incident_count(table, v, k - 1) + if table[k - 1].0 == v || table[k - 1].1 == v {
            1int
        } else {
            0int
        }
    }
}

/// Number of distinct edges incident to `v`.
pub open spec fn valence(faces: Seq<Seq<usize>>, v: usize) -> int {
    let table = edge_table(faces);
    incident_count(table, v, table.len() as int)
}

pub proof fn lemma_dedup(s: Seq<(usize, usize)>)
    ensures
        forall|x: (usize, usize)| dedup(s).contains(x) <==> s.contains(x),
        dedup(s).no_duplicates(),
    decreases s.len(),
{
    if s.len() > 0 {
        let t = s.drop_last();
        lemma_dedup(t);
        assert forall|x: (usize, usize)| dedup(s).contains(x) <==> s.contains(x) by {
            if s.contains(x) && x != s.last() {
                let j = choose|j: int| 0 <= j < s.len() && s[j] == x;
                assert(t[j] == x);
            }
            if t.contains(x) {
                let j = choose|j: int| 0 <= j < t.len() && t[j] == x;
                assert(s[j] == x);
            }
            if dedup(s).contains(x) && !dedup(t).contains(x) {
                let d = dedup(t);
                let j = choose|j: int| 0 <= j < d.len() + 1 && d.push(s.last())[j] == x;
                assert(x == s.last());
                assert(s[s.len() - 1] == x);
            }
            if x == s.last() && !dedup(t).contains(x) {
                assert(dedup(t).push(x)[dedup(t).len() as int] == x);
            }
            if dedup(t).contains(x) && dedup(s) != dedup(t) {
                let j = choose|j: int| 0 <= j < dedup(t).len() && dedup(t)[j] == x;
                assert(dedup(s)[j] == x);
            }
        }
    }
}

pub proof fn lemma_corner_pairs(faces: Seq<Seq<usize>>, fi: int, i: int)
    requires
        0 <= fi < faces.len(),
        0 <= i < faces[fi].len(),
    ensures
        corner_pairs(faces).contains(face_pairs(faces[fi])[i]),
    decreases faces.len(),
{
    let t = faces.drop_last();
    let fp = face_pairs(faces.last());
    if fi == faces.len() - 1 {
        assert(corner_pairs(faces)[corner_pairs(t).len() + i] == fp[i]);
    } else {
        lemma_corner_pairs(t, fi, i);
        let j = choose|j: int| 0 <= j < corner_pairs(t).len() && corner_pairs(t)[j] == face_pairs(t[fi])[i];
        assert(corner_pairs(faces)[j] == corner_pairs(t)[j]);
    }
}

/// Every corner pair of a well-formed mesh joins two distinct vertices in range.
pub proof fn lemma_corner_pairs_in_range(pts: Seq<Point>, faces: Seq<Seq<usize>>)
    requires
        mesh_ok(pts, faces),
    ensures
        forall|x: (usize, usize)|
            #[trigger] corner_pairs(faces).contains(x) ==> x.0 < x.1 && x.1 < pts.len(),
    decreases faces.len(),
{
    if faces.len() > 0 {
        let t = faces.drop_last();
        assert(mesh_ok(pts, t)) by {
            assert forall|i: int| 0 <= i < t.len() implies face_ok(pts.len() as int, #[trigger] t[i]) by {
                assert(t[i] == faces[i]);
            }
        }
        lemma_corner_pairs_in_range(pts, t);
        let f = faces.last();
        assert(face_ok(pts.len() as int, faces[faces.len() - 1]));
        assert forall|x: (usize, usize)| #[trigger] corner_pairs(faces).contains(x) implies x.0 < x.1
            && x.1 < pts.len() by {
            let c = corner_pairs(faces);
            let j = choose|j: int| 0 <= j < c.len() && c[j] == x;
            if j < corner_pairs(t).len() {
                assert(corner_pairs(t)[j] == x);
                assert(corner_pairs(t).contains(x));
            } else {
                let i = j - corner_pairs(t).len();
                assert(face_pairs(f)[i] == x);
                let n = f.len() as int;
                assert(f[i] != f[next(i, n)]);
                assert(f[i] < pts.len() && f[next(i, n)] < pts.len());
            }
        }
    }
}

pub fn canon_of(a: usize, b: usize) -> (r: (usize, usize))
    ensures
        r == canon(a, b),
{
    if a < b {
        (a, b)
    } else {
        (b, a)
    }
}

/// Position of `p` in `table`, if it is there.
pub fn find_edge(table: &Vec<(usize, usize)>, p: (usize, usize)) -> (r: Option<usize>)
    ensures
        match r {
            Some(i) => i < table@.len() && table@[i as int] == p,
            None => !table@.contains(p),
        },
{
    let mut i: usize = 0;
    while i < table.len()
        invariant
            i <= table@.len(),
            forall|j: int| 0 <= j < i ==> table@[j] != p,
        decreases table@.len() - i,
    {
        let e = table[i];
        if e.0 == p.0 && e.1 == p.1 {
            return Some(i);
        }
        i = i + 1;
    }
    None
}

/// Position of `p` in a table without repeats that holds it.
pub fn edge_index(table: &Vec<(usize, usize)>, p: (usize, usize)) -> (r: usize)
    requires
        table@.contains(p),
        table@.no_duplicates(),
    ensures
        r == edge_id(table@, p),
        r < table@.len(),
        table@[r as int] == p,
{
    match find_edge(table, p) {
        Some(i) => {
            let ghost j = edge_id(table@, p);
            assert(table@[j] == p);
            i
        },
        None => {
            assert(false);
            0
        },
    }
}

/// Whether `f` is a face of a mesh with `nv` vertices.
fn face_valid(nv: usize, f: &Vec<usize>) -> (r: bool)
    ensures
        r == face_ok(nv as int, f@),
{
    let n = f.len();
    if n < 3 {
        return false;
    }
    let mut j: usize = 0;
    while j < n
        invariant
            n == f@.len(),
            j <= n,
            forall|a: int| 0 <= a < j ==> (#[trigger] f@[a]) < nv,
            forall|a: int, b: int| 0 <= a < j && 0 <= b < n && a != b ==> f@[a] != f@[b],
        decreases n - j,
    {
        if f[j] >= nv {
            return false;
        }
        let mut k: usize = 0;
        while k < n
            invariant
                n == f@.len(),
                j < n,
                k <= n,
                forall|b: int| 0 <= b < k && b != j ==> f@[j as int] != f@[b],
            decreases n - k,
        {
            if k != j && f[k] == f[j] {
                return false;
            }
            k = k + 1;
        }
        j = j + 1;
    }
    true
}

impl Polyhedron {
    /// The faces as sequences of vertex indices.
    pub open spec fn face_seqs(&self) -> Seq<Seq<usize>> {
        self.faces@.map_values(|f: Vec<usize>| f@)
    }

    /// Every face has at least three distinct vertices, all in range, and
    /// every position lies on the grid.
    pub open spec fn wf(&self) -> bool {
        mesh_ok(self.positions@, self.face_seqs())
    }

    /// A mesh from its parts, if they are well formed (see `wf`).
    pub fn new(positions: Vec<Point>, faces: Vec<Vec<usize>>, name: String) -> (r: Option<
        Polyhedron,
    >)
        ensures
            r is Some <==> mesh_ok(positions@, faces@.map_values(|f: Vec<usize>| f@)),
            r matches Some(m) ==> m.positions@ == positions@ && m.faces@ == faces@ && m.name@
                == name@,
    {
        let nv = positions.len();
        let mut j: usize = 0;
        while j < nv
            invariant
                nv == positions@.len(),
                j <= nv,
                forall|a: int| 0 <= a < j ==> (#[trigger] positions@[a]).bounded(),
            decreases nv - j,
        {
            let p = positions[j];
            if p.x < -COORD_MAX || p.x > COORD_MAX || p.y < -COORD_MAX || p.y > COORD_MAX || p.z
                < -COORD_MAX || p.z > COORD_MAX {
                return None;
            }
            j = j + 1;
        }
        let ghost fs = faces@.map_values(|f: Vec<usize>| f@);
        let mut i: usize = 0;
        while i < faces.len()
            invariant
                nv == positions@.len(),
                fs == faces@.map_values(|f: Vec<usize>| f@),
                i <= faces@.len(),
                forall|a: int| 0 <= a < i ==> face_ok(nv as int, #[trigger] fs[a]),
            decreases faces@.len() - i,
        {
            if !face_valid(nv, &faces[i]) {
                assert(!face_ok(nv as int, fs[i as int]));
                return None;
            }
            i = i + 1;
        }
        Some(Polyhedron { positions, faces, name })
    }

    pub fn vertex_count(&self) -> (r: usize)
        ensures
            r == self.positions@.len(),
    {
        self.positions.len()
    }

    pub fn face_count(&self) -> (r: usize)
        ensures
            r == self.faces@.len(),
    {
        self.faces.len()
    }

    /// The valence of every vertex: the number of distinct edges that touch it.
    pub fn valences(&self) -> (r: Vec<usize>)
        requires
            self.wf(),
        ensures
            r@.len() == self.positions@.len(),
            forall|v: int| 0 <= v < r@.len() ==> r@[v] == valence(self.face_seqs(), v as usize),
    {
        let table = self.edges();
        let ghost fs = self.face_seqs();
        proof {
            lemma_dedup(corner_pairs(fs));
            lemma_corner_pairs_in_range(self.positions@, fs);
        }
        let nv = self.positions.len();
        let mut counts: Vec<usize> = Vec::new();
        let mut v: usize = 0;
        while v < nv
            invariant
                v <= nv,
                counts@.len() == v,
                forall|u: int| 0 <= u < v ==> counts@[u] == 0,
            decreases nv - v,
        {
            counts.push(0);
            v = v + 1;
        }
        let mut k: usize = 0;
        while k < table.len()
            invariant
                table@ == edge_table(fs),
                forall|x: (usize, usize)| table@.contains(x) <==> corner_pairs(fs).contains(x),
                forall|x: (usize, usize)|
                    #[trigger] corner_pairs(fs).contains(x) ==> x.0 < x.1 && x.1 < nv,
                k <= table@.len(),
                counts@.len() == nv,
                forall|u: int|
                    0 <= u < nv ==> counts@[u] == incident_count(table@, u as usize, k as int)
                        && counts@[u] <= k,
            decreases table@.len() - k,
        {
            let e = table[k];
            assert(table@.contains(e)) by {
                assert(table@[k as int] == e);
            }
            let a = e.0;
            let b = e.1;
            counts.set(a, counts[a] + 1);
            counts.set(b, counts[b] + 1);
            k = k + 1;
        }
        counts
    }

    /// Number of distinct edges incident to vertex `v`.
    pub fn vertex_valence(&self, v: usize) -> (r: usize)
        requires
            self.wf(),
            v < self.positions@.len(),
        ensures
            r == valence(self.face_seqs(), v),
    {
        let all = self.valences();
        all[v]
    }

    /// Arithmetic mean of face `f`'s vertex positions, rounded toward zero.
    pub fn face_centroid(&self, f: usize) -> (r: Point)
        requires
            self.wf(),
            f < self.faces@.len(),
        ensures
            r == make_point(
                centroid_coord(self.positions@, self.face_seqs()[f as int], 0),
                centroid_coord(self.positions@, self.face_seqs()[f as int], 1),
                centroid_coord(self.positions@, self.face_seqs()[f as int], 2),
            ),
    {
        let face = &self.faces[f];
        assert(face@ == self.face_seqs()[f as int]);
        assert(face_ok(self.positions@.len() as int, self.face_seqs()[f as int]));
        let x = centroid_along(&self.positions, face, 0);
        let y = centroid_along(&self.positions, face, 1);
        let z = centroid_along(&self.positions, face, 2);
        Point { x: x as i64, y: y as i64, z: z as i64 }
    }

    /// Whether all edges of face `f` have equal length, within tolerance.
    pub fn face_regular(&self, f: usize) -> (r: bool)
        requires
            self.wf(),
            f < self.faces@.len(),
        ensures
            r == is_regular(self.positions@, self.face_seqs()[f as int]),
    {
        let face = &self.faces[f];
        assert(face@ == self.face_seqs()[f as int]);
        assert(face_ok(self.positions@.len() as int, self.face_seqs()[f as int]));
        face_is_regular(&self.positions, face)
    }

    /// The mesh's edges, each once, in order of first appearance.
    pub fn edges(&self) -> (r: Vec<(usize, usize)>)
        ensures
            r@ == edge_table(self.face_seqs()),
    {
        let ghost fs = self.face_seqs();
        let mut table: Vec<(usize, usize)> = Vec::new();
        let mut fi: usize = 0;
        while fi < self.faces.len()
            invariant
                fs == self.face_seqs(),
                fi <= fs.len(),
                table@ == dedup(corner_pairs(fs.take(fi as int))),
            decreases fs.len() - fi,
        {
            let f = &self.faces[fi];
            let n = f.len();
            let ghost base = corner_pairs(fs.take(fi as int));
            assert(f@ == fs[fi as int]);
            let mut i: usize = 0;
            while i < n
                invariant
                    fs == self.face_seqs(),
                    fi < fs.len(),
                    f@ == fs[fi as int],
                    n == f@.len(),
                    i <= n,
                    base == corner_pairs(fs.take(fi as int)),
                    table@ == dedup(base + face_pairs(f@).take(i as int)),
                decreases n - i,
            {
                let j: usize = if i + 1 == n { 0 } else { i + 1 };
                let p = canon_of(f[i], f[j]);
                let ghost before = base + face_pairs(f@).take(i as int);
                let ghost after = base + face_pairs(f@).take(i as int + 1);
                assert(after.drop_last() =~= before);
                assert(after.last() == p);
                match find_edge(&table, p) {
                    Some(_) => {},
                    None => {
                        table.push(p);
                    },
                }
                i = i + 1;
            }
            assert(fs.take(fi as int + 1).drop_last() =~= fs.take(fi as int));
            assert(face_pairs(f@).take(n as int) =~= face_pairs(f@));
            fi = fi + 1;
        }
        assert(fs.take(fs.len() as int) =~= fs);
        table
    }
}

} // verus!
