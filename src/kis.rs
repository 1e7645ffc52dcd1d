//! The kis operator: every selected face becomes a fan of triangles around
//! a new apex raised above the face; other faces are kept as they are.
use crate::geometry::{Point, UNIT, face_in, face_is_regular, is_regular, raised_point, raised_point_of};
use crate::join::views;
use crate::mesh::{Polyhedron, corner_count, face_ok, mesh_ok, next, valence};
use vstd::prelude::*;

verus! {

/// The triangles `(v_i, v_{i+1}, apex)` of face `f`, in winding order.
pub open spec fn fan(f: Seq<usize>, apex: int) -> Seq<Seq<usize>> {
    Seq::new(f.len(), |i: int| seq![f[i], f[next(i, f.len() as int)], apex as usize])
}

/// Some vertex of `f` has a valence listed in `mask`.
pub open spec fn mask_hit(faces: Seq<Seq<usize>>, f: Seq<usize>, mask: Seq<usize>) -> bool {
    exists|j: int, k: int|
        #![trigger f[j], mask[k]]
        0 <= j < f.len() && 0 <= k < mask.len() && mask[k] as int == valence(faces, f[j])
}

pub open spec fn mask_seq(mask: Option<&[usize]>) -> Option<Seq<usize>> {
    match mask {
        Some(m) => Some(m@),
        None => None,
    }
}

/// Whether kis replaces face `f`: it is regular, if only regular faces are
/// asked for, and one of its vertices has a valence in the mask, if a mask
/// is given.
pub open spec fn selected(
    pts: Seq<Point>,
    faces: Seq<Seq<usize>>,
    f: Seq<usize>,
    mask: Option<Seq<usize>>,
    regular_only: bool,
) -> bool {
    &&& (!regular_only || is_regular(pts, f))
    &&& match mask {
        Some(m) => mask_hit(faces, f, m),
        None => true,
    }
}

/// Positions and faces of the kis after its first `k` faces: an apex is
/// appended for each selected face, whose fan uses it; other faces are kept.
pub open spec fn kis_upto(
    pts: Seq<Point>,
    faces: Seq<Seq<usize>>,
    mask: Option<Seq<usize>>,
    regular_only: bool,
    height: int,
    k: int,
) -> (Seq<Point>, Seq<Seq<usize>>)
    decreases k,
{
    if k <= 0 {
        (pts, Seq::empty())
    } else {
        let before = kis_upto(pts, faces, mask, regular_only, height, k - 1);
        let f = faces[k - 1];
        if selected(pts, faces, f, mask, regular_only) {
            (before.0.push(raised_point(pts, f, height)), before.1 + fan(f, before.0.len() as int))
        } else {
            (before.0, before.1.push(f))
        }
    }
}

pub open spec fn kis_mesh(
    pts: Seq<Point>,
    faces: Seq<Seq<usize>>,
    mask: Option<Seq<usize>>,
    regular_only: bool,
    height: int,
) -> (Seq<Point>, Seq<Seq<usize>>) {
    kis_upto(pts, faces, mask, regular_only, height, faces.len() as int)
}

/// Without mask or regularity filter, kis triangulates every face: one
/// triangle per corner, one apex per face.
pub proof fn lemma_kis_all_faces(
    pts: Seq<Point>,
    faces: Seq<Seq<usize>>,
    height: int,
    k: int,
)
    requires
        0 <= k <= faces.len(),
    ensures
        kis_upto(pts, faces, None, false, height, k).1.len() == corner_count(faces.take(k)),
        kis_upto(pts, faces, None, false, height, k).0.len() == pts.len() + k,
    decreases k,
{
    if k > 0 {
        lemma_kis_all_faces(pts, faces, height, k - 1);
        assert(faces.take(k).drop_last() =~= faces.take(k - 1));
    }
}

/// With the regularity filter on and no regular face, kis changes nothing.
pub proof fn lemma_kis_no_regular_faces(
    pts: Seq<Point>,
    faces: Seq<Seq<usize>>,
    mask: Option<Seq<usize>>,
    height: int,
    k: int,
)
    requires
        0 <= k <= faces.len(),
        forall|i: int| 0 <= i < faces.len() ==> !is_regular(pts, #[trigger] faces[i]),
    ensures
        kis_upto(pts, faces, mask, true, height, k) == (pts, faces.take(k)),
    decreases k,
{
    if k > 0 {
        lemma_kis_no_regular_faces(pts, faces, mask, height, k - 1);
        assert(!is_regular(pts, faces[k - 1]));
        assert(faces.take(k - 1).push(faces[k - 1]) =~= faces.take(k));
    }
}

/// Kis without mask or regularity filter makes one triangle per corner and
/// one apex per face.
pub proof fn kis_counts(pts: Seq<Point>, faces: Seq<Seq<usize>>, height: int)
    ensures
        kis_mesh(pts, faces, None, false, height).1.len() == corner_count(faces),
        kis_mesh(pts, faces, None, false, height).0.len() == pts.len() + faces.len(),
{
    lemma_kis_all_faces(pts, faces, height, faces.len() as int);
    assert(faces.take(faces.len() as int) =~= faces);
}

/// Kis restricted to regular faces leaves a mesh with no regular face as
/// it is.
pub proof fn kis_without_regular_faces(
    pts: Seq<Point>,
    faces: Seq<Seq<usize>>,
    mask: Option<Seq<usize>>,
    height: int,
)
    requires
        forall|i: int| 0 <= i < faces.len() ==> !is_regular(pts, #[trigger] faces[i]),
    ensures
        kis_mesh(pts, faces, mask, true, height) == (pts, faces),
{
    lemma_kis_no_regular_faces(pts, faces, mask, height, faces.len() as int);
    assert(faces.take(faces.len() as int) =~= faces);
}

fn copy_face(f: &Vec<usize>) -> (r: Vec<usize>)
    ensures
        r@ == f@,
{
    let mut r: Vec<usize> = Vec::new();
    let mut i: usize = 0;
    while i < f.len()
        invariant
            i <= f@.len(),
            r@ == f@.take(i as int),
        decreases f@.len() - i,
    {
        r.push(f[i]);
        proof {
            assert(r@ =~= f@.take(i as int + 1));
        }
        i = i + 1;
    }
    proof {
        assert(f@.take(f@.len() as int) =~= f@);
    }
    r
}

/// Whether some vertex of `f` has a valence listed in `mask`.
fn hits_mask(f: &Vec<usize>, valences: &Vec<usize>, mask: &[usize], ghost_faces: Ghost<Seq<Seq<usize>>>) -> (r: bool)
    requires
        forall|j: int| 0 <= j < f@.len() ==> (#[trigger] f@[j]) < valences@.len(),
        forall|v: int| 0 <= v < valences@.len() ==> valences@[v] == valence(ghost_faces@, v as usize),
    ensures
        r == mask_hit(ghost_faces@, f@, mask@),
{
    let mut j: usize = 0;
    while j < f.len()
        invariant
            forall|j: int| 0 <= j < f@.len() ==> (#[trigger] f@[j]) < valences@.len(),
            forall|v: int|
                0 <= v < valences@.len() ==> valences@[v] == valence(ghost_faces@, v as usize),
            j <= f@.len(),
            forall|a: int, b: int|
                0 <= a < j && 0 <= b < mask@.len() ==> mask@[b] as int != valence(
                    ghost_faces@,
                    f@[a],
                ),
        decreases f@.len() - j,
    {
        let val = valences[f[j]];
        let mut k: usize = 0;
        while k < mask.len()
            invariant
                j < f@.len(),
                val == valence(ghost_faces@, f@[j as int]),
                k <= mask@.len(),
                forall|b: int| 0 <= b < k ==> mask@[b] as int != val,
            decreases mask@.len() - k,
        {
            if mask[k] == val {
                assert(mask@[k as int] as int == valence(ghost_faces@, f@[j as int]));
                return true;
            }
            k = k + 1;
        }
        j = j + 1;
    }
    false
}

impl Polyhedron {
    /// Kis: each selected face (see `selected`) gets an apex at its centroid
    /// raised along the face normal by `height` thousandths of the face's
    /// size, and becomes one triangle `(v_i, v_{i+1}, apex)` per corner;
    /// other faces are kept. Original vertices keep their indices.
    pub fn kis(
        &self,
        height: i64,
        vertex_valence_mask: Option<&[usize]>,
        regular_faces_only: Option<bool>,
    ) -> (r: Polyhedron)
        requires
            self.wf(),
            0 <= height <= UNIT,
        ensures
            r.wf(),
            (r.positions@, r.face_seqs()) == kis_mesh(
                self.positions@,
                self.face_seqs(),
                mask_seq(vertex_valence_mask),
                regular_faces_only == Some(true),
                height as int,
            ),
            r.name@ == self.name@,
    {
        let ghost pts = self.positions@;
        let ghost fs = self.face_seqs();
        let ghost mask = mask_seq(vertex_valence_mask);
        let regular_only = match regular_faces_only {
            Some(b) => b,
            None => false,
        };
        let valences = self.valences();
        let nv = self.positions.len();
        let nf = self.faces.len();
        let mut positions: Vec<Point> = Vec::new();
        let mut v: usize = 0;
        while v < nv
            invariant
                pts == self.positions@,
                v <= nv == pts.len(),
                positions@ == pts.take(v as int),
            decreases nv - v,
        {
            positions.push(self.positions[v]);
            proof {
                assert(positions@ =~= pts.take(v as int + 1));
            }
            v = v + 1;
        }
        proof {
            assert(pts.take(nv as int) =~= pts);
        }
        let mut faces: Vec<Vec<usize>> = Vec::new();
        let mut fi: usize = 0;
        while fi < nf
            invariant
                pts == self.positions@,
                fs == self.face_seqs(),
                mesh_ok(pts, fs),
                nv == pts.len(),
                nf == fs.len(),
                0 <= height <= UNIT,
                mask == mask_seq(vertex_valence_mask),
                regular_only == (regular_faces_only == Some(true)),
                valences@.len() == nv,
                forall|v: int| 0 <= v < nv ==> valences@[v] == valence(fs, v as usize),
                fi <= nf,
                (positions@, views(faces@)) == kis_upto(pts, fs, mask, regular_only, height as int, fi as int),
                positions@.len() >= nv,
                forall|j: int| 0 <= j < positions@.len() ==> (#[trigger] positions@[j]).bounded(),
                forall|j: int|
                    0 <= j < faces@.len() ==> face_ok(positions@.len() as int, #[trigger] faces@[j]@),
            decreases nf - fi,
        {
            let f = &self.faces[fi];
            assert(f@ == fs[fi as int]);
            assert(face_ok(nv as int, fs[fi as int]));
            assert(face_in(pts, f@));
            let regular_ok = if regular_only { face_is_regular(&self.positions, f) } else { true };
            let mask_ok = match vertex_valence_mask {
                Some(m) => hits_mask(f, &valences, m, Ghost(fs)),
                None => true,
            };
            let ghost before_pts = positions@;
            let ghost before = views(faces@);
            if regular_ok && mask_ok {
                let apex = positions.len();
                let p = raised_point_of(&self.positions, f, height);
                positions.push(p);
                let n = f.len();
                let ghost tri = fan(f@, apex as int);
                assert forall|j: int| 0 <= j < faces@.len() implies face_ok(
                    positions@.len() as int,
                    #[trigger] faces@[j]@,
                ) by {
                    assert(face_ok(before_pts.len() as int, faces@[j]@));
                }
                let mut i: usize = 0;
                while i < n
                    invariant
                        f@ == fs[fi as int],
                        face_ok(nv as int, f@),
                        n == f@.len(),
                        apex < positions@.len(),
                        apex >= nv,
                        tri == fan(f@, apex as int),
                        i <= n,
                        views(faces@) == before + tri.take(i as int),
                        forall|j: int|
                            0 <= j < faces@.len() ==> face_ok(
                                positions@.len() as int,
                                #[trigger] faces@[j]@,
                            ),
                    decreases n - i,
                {
                    let inext: usize = if i + 1 == n { 0 } else { i + 1 };
                    assert(f@[i as int] != f@[inext as int]);
                    assert(f@[i as int] < nv && f@[inext as int] < nv);
                    let t = vec![f[i], f[inext], apex];
                    let ghost q = t@;
                    let ghost old_views = views(faces@);
                    assert(q =~= tri[i as int]);
                    faces.push(t);
                    proof {
                        assert(views(faces@) =~= old_views.push(q));
                        assert(views(faces@) =~= before + tri.take(i as int + 1));
                    }
                    i = i + 1;
                }
                proof {
                    assert(tri.take(n as int) =~= tri);
                }
            } else {
                let g = copy_face(f);
                let ghost q = g@;
                faces.push(g);
                proof {
                    assert(views(faces@) =~= before.push(q));
                }
            }
            proof {
                assert(fs.take(fi as int + 1).drop_last() =~= fs.take(fi as int));
            }
            fi = fi + 1;
        }
        let r = Polyhedron { positions, faces, name: self.name.clone() };
        proof {
            assert(r.face_seqs() =~= views(r.faces@));
        }
        r
    }
}

} // verus!
