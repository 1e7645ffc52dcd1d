//! The join operator: every face becomes a ring of kite-shaped quadrilaterals
//! around a new face centre, through new edge midpoints.
use crate::geometry::{Point, UNIT, face_in, midpoint, midpoint_of, raised_point, raised_point_of};
use crate::mesh::{
    Polyhedron, canon_of, corner_count, corner_pairs, edge_id, edge_index, edge_table,
    face_ok, face_pairs, lemma_corner_pairs, lemma_corner_pairs_in_range, lemma_dedup, mesh_ok,
    next, prev,
};
use vstd::prelude::*;

verus! {

/// The faces as sequences of vertex indices.
pub open spec fn views(v: Seq<Vec<usize>>) -> Seq<Seq<usize>> {
    v.map_values(|f: Vec<usize>| f@)
}

/// The quadrilateral at corner `i` of face `f`: midpoint of the edge into
/// the corner, the corner, midpoint of the edge out of it, face centre.
pub open spec fn join_quad(
    table: Seq<(usize, usize)>,
    nv: int,
    f: Seq<usize>,
    i: int,
    center: int,
) -> Seq<usize> {
    let fp = face_pairs(f);
    seq![
        (nv + edge_id(table, fp[prev(i, f.len() as int)])) as usize,
        f[i],
        (nv + edge_id(table, fp[i])) as usize,
        center as usize,
    ]
}

pub open spec fn join_ring(
    table: Seq<(usize, usize)>,
    nv: int,
    f: Seq<usize>,
    center: int,
) -> Seq<Seq<usize>> {
    Seq::new(f.len(), |i: int| join_quad(table, nv, f, i, center))
}

/// The join's faces for the first `k` faces: one ring per face, the centre
/// of face `j` being new vertex `nv + table.len() + j`.
pub open spec fn join_faces(
    table: Seq<(usize, usize)>,
    nv: int,
    faces: Seq<Seq<usize>>,
    k: int,
) -> Seq<Seq<usize>>
    decreases k,
{
    if k <= 0 {
        Seq::empty()
    } else {
        join_faces(table, nv, faces, k - 1) + join_ring(
            table,
            nv,
            faces[k - 1],
            nv + table.len() + k - 1,
        )
    }
}

/// Vertices of the join: the original vertices, then one midpoint per edge
/// in edge-table order, then one centre per face raised by `ratio`.
pub open spec fn join_positions(pts: Seq<Point>, faces: Seq<Seq<usize>>, ratio: int) -> Seq<Point> {
    pts + edge_table(faces).map_values(
        |e: (usize, usize)| midpoint(pts[e.0 as int], pts[e.1 as int]),
    ) + faces.map_values(|f: Seq<usize>| raised_point(pts, f, ratio))
}

pub open spec fn join_mesh_faces(pts: Seq<Point>, faces: Seq<Seq<usize>>) -> Seq<Seq<usize>> {
    join_faces(edge_table(faces), pts.len() as int, faces, faces.len() as int)
}

/// The join has one quadrilateral per corner of the original mesh.
pub proof fn lemma_join_face_count(table: Seq<(usize, usize)>, nv: int, faces: Seq<Seq<usize>>, k: int)
    requires
        0 <= k <= faces.len(),
    ensures
        join_faces(table, nv, faces, k).len() == corner_count(faces.take(k)),
    decreases k,
{
    if k > 0 {
        lemma_join_face_count(table, nv, faces, k - 1);
        assert(faces.take(k).drop_last() =~= faces.take(k - 1));
    }
}

/// Join makes one quadrilateral per corner of the original mesh, and one
/// new vertex per edge and per face.
pub proof fn join_counts(pts: Seq<Point>, faces: Seq<Seq<usize>>, ratio: int)
    ensures
        join_mesh_faces(pts, faces).len() == corner_count(faces),
        join_positions(pts, faces, ratio).len() == pts.len() + edge_table(faces).len()
            + faces.len(),
{
    lemma_join_face_count(edge_table(faces), pts.len() as int, faces, faces.len() as int);
    assert(faces.take(faces.len() as int) =~= faces);
}

impl Polyhedron {
    /// Join: a new vertex at the midpoint of every edge and at the centre of
    /// every face (the centroid raised along the face normal by `ratio`
    /// thousandths of the face's size); each face of `n` corners becomes `n`
    /// quadrilaterals in the face's winding order.
    pub fn join(&self, ratio: i64) -> (r: Polyhedron)
        requires
            self.wf(),
            0 <= ratio <= UNIT,
        ensures
            r.wf(),
            r.positions@ == join_positions(self.positions@, self.face_seqs(), ratio as int),
            r.face_seqs() == join_mesh_faces(self.positions@, self.face_seqs()),
            r.name@ == self.name@,
    {
        let ghost pts = self.positions@;
        let ghost fs = self.face_seqs();
        let table = self.edges();
        proof {
            lemma_dedup(corner_pairs(fs));
            lemma_corner_pairs_in_range(pts, fs);
        }
        let nv = self.positions.len();
        let ne = table.len();
        let nf = self.faces.len();
        let ghost mids = table@.map_values(
            |e: (usize, usize)| midpoint(pts[e.0 as int], pts[e.1 as int]),
        );
        let ghost centers = fs.map_values(|f: Seq<usize>| raised_point(pts, f, ratio as int));
        let mut positions: Vec<Point> = Vec::new();
        let mut v: usize = 0;
        while v < nv
            invariant
                pts == self.positions@,
                v <= nv == pts.len(),
                positions@ == pts.take(v as int),
            decreases nv - v,
        {
            positions.push(self.positions[v]);
            proof {
                assert(positions@ =~= pts.take(v as int + 1));
            }
            v = v + 1;
        }
        let mut k: usize = 0;
        while k < ne
            invariant
                pts == self.positions@,
                fs == self.face_seqs(),
                mesh_ok(pts, fs),
                nv == pts.len(),
                table@ == edge_table(fs),
                ne == table@.len(),
                mids == table@.map_values(
                    |e: (usize, usize)| midpoint(pts[e.0 as int], pts[e.1 as int]),
                ),
                forall|x: (usize, usize)| table@.contains(x) <==> corner_pairs(fs).contains(x),
                forall|x: (usize, usize)|
                    #[trigger] corner_pairs(fs).contains(x) ==> x.0 < x.1 && x.1 < nv,
                k <= ne,
                positions@ == pts + mids.take(k as int),
            decreases ne - k,
        {
            let e = table[k];
            assert(table@.contains(e)) by {
                assert(table@[k as int] == e);
            }
            assert(pts[e.0 as int].bounded() && pts[e.1 as int].bounded());
            let m = midpoint_of(&self.positions[e.0], &self.positions[e.1]);
            positions.push(m);
            proof {
                assert(positions@ =~= pts + mids.take(k as int + 1));
            }
            k = k + 1;
        }
        let mut fi: usize = 0;
        while fi < nf
            invariant
                pts == self.positions@,
                fs == self.face_seqs(),
                mesh_ok(pts, fs),
                nv == pts.len(),
                nf == fs.len(),
                0 <= ratio <= UNIT,
                centers == fs.map_values(|f: Seq<usize>| raised_point(pts, f, ratio as int)),
                fi <= nf,
                positions@ == pts + mids + centers.take(fi as int),
            decreases nf - fi,
        {
            let f = &self.faces[fi];
            assert(f@ == fs[fi as int]);
            assert(face_ok(nv as int, fs[fi as int]));
            assert(face_in(pts, f@));
            let c = raised_point_of(&self.positions, f, ratio);
            positions.push(c);
            proof {
                assert(positions@ =~= pts + mids + centers.take(fi as int + 1));
            }
            fi = fi + 1;
        }
        proof {
            assert(centers.take(nf as int) =~= centers);
            assert(mids.take(ne as int) =~= mids);
        }
        let total = positions.len();
        assert(total == nv + ne + nf);
        let mut faces: Vec<Vec<usize>> = Vec::new();
        let mut fi: usize = 0;
        while fi < nf
            invariant
                fs == self.face_seqs(),
                mesh_ok(pts, fs),
                nv == pts.len(),
                nf == fs.len(),
                table@ == edge_table(fs),
                table@.no_duplicates(),
                ne == table@.len(),
                forall|x: (usize, usize)| table@.contains(x) <==> corner_pairs(fs).contains(x),
                total == nv + ne + nf,
                fi <= nf,
                views(faces@) == join_faces(table@, nv as int, fs, fi as int),
                forall|j: int| 0 <= j < faces@.len() ==> face_ok(total as int, #[trigger] faces@[j]@),
            decreases nf - fi,
        {
            let f = &self.faces[fi];
            assert(f@ == fs[fi as int]);
            assert(face_ok(nv as int, fs[fi as int]));
            let n = f.len();
            let center = nv + ne + fi;
            let ghost ring = join_ring(table@, nv as int, f@, center as int);
            let ghost base = views(faces@);
            let mut i: usize = 0;
            while i < n
                invariant
                    fs == self.face_seqs(),
                    fi < nf == fs.len(),
                    f@ == fs[fi as int],
                    face_ok(nv as int, f@),
                    n == f@.len(),
                    nv == pts.len(),
                    table@ == edge_table(fs),
                    table@.no_duplicates(),
                    ne == table@.len(),
                    forall|x: (usize, usize)| table@.contains(x) <==> corner_pairs(fs).contains(x),
                    total == nv + ne + nf,
                    center == nv + ne + fi,
                    ring == join_ring(table@, nv as int, f@, center as int),
                    i <= n,
                    views(faces@) == base + ring.take(i as int),
                    forall|j: int|
                        0 <= j < faces@.len() ==> face_ok(total as int, #[trigger] faces@[j]@),
                decreases n - i,
            {
                let ip: usize = if i == 0 { n - 1 } else { i - 1 };
                let inext: usize = if i + 1 == n { 0 } else { i + 1 };
                let ghost fp = face_pairs(f@);
                proof {
                    lemma_corner_pairs(fs, fi as int, ip as int);
                    lemma_corner_pairs(fs, fi as int, i as int);
                    assert(next(ip as int, n as int) == i);
                    assert(f@[ip as int] != f@[inext as int]);
                    assert(f@[ip as int] != f@[i as int]);
                    assert(f@[i as int] != f@[inext as int]);
                    assert(f@[i as int] < nv);
                }
                let e_in = edge_index(&table, canon_of(f[ip], f[i]));
                let e_out = edge_index(&table, canon_of(f[i], f[inext]));
                assert(fp[ip as int] != fp[i as int]);
                let quad = vec![nv + e_in, f[i], nv + e_out, center];
                proof {
                    assert(quad@ =~= join_quad(table@, nv as int, f@, i as int, center as int));
                    assert(face_ok(total as int, quad@));
                }
                let ghost before = views(faces@);
                let ghost q = quad@;
                faces.push(quad);
                proof {
                    assert(views(faces@) =~= before.push(q));
                    assert(ring[i as int] == q);
                    assert(views(faces@) =~= base + ring.take(i as int + 1));
                }
                i = i + 1;
            }
            proof {
                assert(ring.take(n as int) =~= ring);
            }
            fi = fi + 1;
        }
        let r = Polyhedron { positions, faces, name: self.name.clone() };
        proof {
            assert forall|i: int| 0 <= i < r.face_seqs().len() implies face_ok(
                r.positions@.len() as int,
                #[trigger] r.face_seqs()[i],
            ) by {
                assert(r.face_seqs()[i] == r.faces@[i]@);
            }
            assert(r.face_seqs() =~= views(r.faces@));
            assert forall|j: int| 0 <= j < r.positions@.len() implies (
            #[trigger] r.positions@[j]).bounded() by {
                if j < nv {
                } else if j < nv + ne {
                    let e = table@[j - nv];
                    assert(table@.contains(e));
                    assert(pts[e.0 as int].bounded() && pts[e.1 as int].bounded());
                } else {
                    let g = fs[j - nv - ne];
                    assert(face_ok(nv as int, fs[j - nv - ne]));
                    assert(face_in(pts, g));
                }
            }
        }
        r
    }
}

} // verus!
