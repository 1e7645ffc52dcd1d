//! The meta operator: kis applied to the join, with parameter clamping and
//! the name prefix that records it.
use crate::geometry::{Point, UNIT};
use crate::join::{join_mesh_faces, join_positions};
use crate::kis::{kis_mesh, mask_seq};
use crate::mesh::Polyhedron;
use vstd::prelude::*;

verus! {

/// Default ratio of `meta`, in thousandths (0.5).
pub const DEFAULT_META_RATIO: i64 = 500;

/// Default height of `meta`, in thousandths (0.1).
pub const DEFAULT_META_HEIGHT: i64 = 100;

/// A parameter clamped into `[0, UNIT]`.
pub open spec fn clamp_unit(v: int) -> int {
    if v < 0 {
        0
    } else if v > UNIT {
        UNIT as int
    } else {
        v
    }
}

/// The value a parameter takes: clamped if given, the default if not.
pub open spec fn effective(p: Option<i64>, default: i64) -> int {
    match p {
        Some(v) => clamp_unit(v as int),
        None => default as int,
    }
}

pub open spec fn digit_char(d: int) -> char {
    if d == 0 {
        '0'
    } else if d == 1 {
        '1'
    } else if d == 2 {
        '2'
    } else if d == 3 {
        '3'
    } else if d == 4 {
        '4'
    } else if d == 5 {
        '5'
    } else if d == 6 {
        '6'
    } else if d == 7 {
        '7'
    } else if d == 8 {
        '8'
    } else {
        '9'
    }
}

/// Decimal digits of `n`.
pub open spec fn decimal(n: nat) -> Seq<char>
    decreases n,
{
    if n < 10 {
        seq![digit_char(n as int)]
    } else {
        decimal(n / 10).push(digit_char((n % 10) as int))
    }
}

/// A value of `[0, UNIT]` written as a decimal fraction without trailing
/// zeros: 1000 is "1", 0 is "0", 500 is "0.5", 125 is "0.125".
pub open spec fn fraction_text(v: int) -> Seq<char> {
    if v >= UNIT {
        seq!['1']
    } else if v <= 0 {
        seq!['0']
    } else {
        let d1 = v / 100;
        let d2 = (v / 10) % 10;
        let d3 = v % 10;
        seq!['0', '.', digit_char(d1)] + if d3 != 0 {
            seq![digit_char(d2), digit_char(d3)]
        } else if d2 != 0 {
            seq![digit_char(d2)]
        } else {
            Seq::empty()
        }
    }
}

/// The numbers of `s` separated by commas.
pub open spec fn joined(s: Seq<usize>) -> Seq<char>
    decreases s.len(),
{
    if s.len() <= 1 {
        if s.len() == 0 {
            Seq::empty()
        } else {
            decimal(s[0] as nat)
        }
    } else {
        joined(s.drop_last()) + seq![','] + decimal(s.last() as nat)
    }
}

/// A list of numbers: nothing when empty, the number alone when single,
/// else the numbers in brackets.
pub open spec fn list_text(s: Seq<usize>) -> Seq<char> {
    if s.len() <= 1 {
        joined(s)
    } else {
        seq!['['] + joined(s) + seq![']']
    }
}

/// The name prefix of one `meta`: "m", then ratio and height when either
/// differs from its default, the mask when given, and ",{t}" when only
/// regular faces are asked for.
pub open spec fn meta_token(
    ratio: int,
    height: int,
    mask: Option<Seq<usize>>,
    regular: Option<bool>,
) -> Seq<char> {
    seq!['m'] + (if ratio != DEFAULT_META_RATIO || height != DEFAULT_META_HEIGHT {
        fraction_text(ratio) + seq![','] + fraction_text(height)
    } else {
        Seq::empty()
    }) + (match mask {
        Some(m) => seq![','] + list_text(m),
        None => Seq::empty(),
    }) + (if regular == Some(true) {
        seq![',', '{', 't', '}']
    } else {
        Seq::empty()
    })
}

/// Positions, faces and name after `meta` on a mesh with these positions,
/// faces and name.
pub open spec fn meta_spec(
    pts: Seq<Point>,
    faces: Seq<Seq<usize>>,
    name: Seq<char>,
    ratio: Option<i64>,
    height: Option<i64>,
    mask: Option<Seq<usize>>,
    regular_faces_only: Option<bool>,
    change_name: bool,
) -> (Seq<Point>, Seq<Seq<usize>>, Seq<char>) {
    let r = effective(ratio, DEFAULT_META_RATIO);
    let h = effective(height, DEFAULT_META_HEIGHT);
    let k = kis_mesh(
        join_positions(pts, faces, r),
        join_mesh_faces(pts, faces),
        mask,
        regular_faces_only == Some(true),
        h,
    );
    (k.0, k.1, if change_name {
        meta_token(r, h, mask, regular_faces_only) + name
    } else {
        name
    })
}

/// Parameters out of `[0, UNIT]` act as the nearest bound.
pub proof fn meta_clamps_parameters(
    pts: Seq<Point>,
    faces: Seq<Seq<usize>>,
    name: Seq<char>,
    ratio: i64,
    height: i64,
    mask: Option<Seq<usize>>,
    regular_faces_only: Option<bool>,
    change_name: bool,
)
    ensures
        meta_spec(pts, faces, name, Some(ratio), Some(height), mask, regular_faces_only, change_name)
            == meta_spec(
            pts,
            faces,
            name,
            Some(clamp_unit(ratio as int) as i64),
            Some(clamp_unit(height as int) as i64),
            mask,
            regular_faces_only,
            change_name,
        ),
{
}

/// Renaming twice puts two prefixes in front of the name, the second call's
/// first; equal prefixes are not merged.
pub proof fn meta_names_accumulate(
    pts: Seq<Point>,
    faces: Seq<Seq<usize>>,
    name: Seq<char>,
    ratio: Option<i64>,
    height: Option<i64>,
    mask: Option<Seq<usize>>,
    regular_faces_only: Option<bool>,
)
    ensures
        ({
            let once = meta_spec(pts, faces, name, ratio, height, mask, regular_faces_only, true);
            let twice = meta_spec(
                once.0,
                once.1,
                once.2,
                ratio,
                height,
                mask,
                regular_faces_only,
                true,
            );
            let token = meta_token(
                effective(ratio, DEFAULT_META_RATIO),
                effective(height, DEFAULT_META_HEIGHT),
                mask,
                regular_faces_only,
            );
            &&& twice.2 == token + token + name
            &&& token.len() >= 1
            &&& token[0] == 'm'
        }),
{
    let token = meta_token(
        effective(ratio, DEFAULT_META_RATIO),
        effective(height, DEFAULT_META_HEIGHT),
        mask,
        regular_faces_only,
    );
    assert(token + (token + name) =~= token + token + name);
}

fn clamp_param(v: i64) -> (r: i64)
    ensures
        r == clamp_unit(v as int),
{
    if v < 0 {
        0
    } else if v > UNIT {
        UNIT
    } else {
        v
    }
}

fn digit_text(d: usize) -> (r: &'static str)
    requires
        d < 10,
    ensures
        r@ == seq![digit_char(d as int)],
{
    proof {
        reveal_strlit("0");
        reveal_strlit("1");
        reveal_strlit("2");
        reveal_strlit("3");
        reveal_strlit("4");
        reveal_strlit("5");
        reveal_strlit("6");
        reveal_strlit("7");
        reveal_strlit("8");
        reveal_strlit("9");
    }
    if d == 0 {
        "0"
    } else if d == 1 {
        "1"
    } else if d == 2 {
        "2"
    } else if d == 3 {
        "3"
    } else if d == 4 {
        "4"
    } else if d == 5 {
        "5"
    } else if d == 6 {
        "6"
    } else if d == 7 {
        "7"
    } else if d == 8 {
        "8"
    } else {
        "9"
    }
}

/// Appends the decimal digits of `n`.
fn push_decimal(s: &mut String, n: usize)
    ensures
        final(s)@ == old(s)@ + decimal(n as nat),
    decreases n,
{
    if n < 10 {
        s.append(digit_text(n));
    } else {
        push_decimal(s, n / 10);
        s.append(digit_text(n % 10));
        proof {
            assert(decimal(n as nat) == decimal((n / 10) as nat).push(digit_char((n % 10) as int)));
        }
    }
    proof {
        assert(final(s)@ =~= old(s)@ + decimal(n as nat));
    }
}

fn push_fraction(s: &mut String, v: i64)
    requires
        0 <= v <= UNIT,
    ensures
        final(s)@ == old(s)@ + fraction_text(v as int),
{
    proof {
        reveal_strlit("1");
        reveal_strlit("0");
        reveal_strlit("0.");
    }
    if v >= UNIT {
        s.append("1");
    } else if v <= 0 {
        s.append("0");
    } else {
        let d1 = (v / 100) as usize;
        let d2 = ((v / 10) % 10) as usize;
        let d3 = (v % 10) as usize;
        s.append("0.");
        s.append(digit_text(d1));
        if d3 != 0 {
            s.append(digit_text(d2));
            s.append(digit_text(d3));
        } else if d2 != 0 {
            s.append(digit_text(d2));
        }
    }
    proof {
        assert(final(s)@ =~= old(s)@ + fraction_text(v as int));
    }
}

fn push_list(s: &mut String, list: &[usize])
    ensures
        final(s)@ == old(s)@ + list_text(list@),
{
    proof {
        reveal_strlit("[");
        reveal_strlit("]");
        reveal_strlit(",");
    }
    let n = list.len();
    if n >= 2 {
        s.append("[");
    }
    let ghost start = s@;
    let mut i: usize = 0;
    while i < n
        invariant
            n == list@.len(),
            i <= n,
            s@ == start + joined(list@.take(i as int)),
        decreases n - i,
    {
        let ghost before = s@;
        let ghost t = list@.take(i as int + 1);
        assert(t.drop_last() =~= list@.take(i as int));
        assert(t.last() == list@[i as int]);
        proof {
            reveal_strlit(",");
        }
        if i > 0 {
            s.append(",");
            assert(s@ == before + seq![',']);
            push_decimal(s, list[i]);
            assert(joined(t) == joined(list@.take(i as int)) + seq![','] + decimal(list@[i as int] as nat));
            assert(s@ =~= start + joined(t));
        } else {
            push_decimal(s, list[i]);
            assert(joined(list@.take(0)) =~= Seq::empty());
            assert(t.len() == 1 && t[0] == list@[0]);
            assert(joined(t) == decimal(list@[0] as nat));
            assert(s@ =~= start + joined(t));
        }
        i = i + 1;
    }
    if n >= 2 {
        s.append("]");
    }
    proof {
        assert(list@.take(n as int) =~= list@);
        assert(final(s)@ =~= old(s)@ + list_text(list@));
    }
}

/// The text of `meta_token`.
fn token_text(
    ratio: i64,
    height: i64,
    vertex_valence_mask: Option<&[usize]>,
    regular_faces_only: Option<bool>,
) -> (r: String)
    requires
        0 <= ratio <= UNIT,
        0 <= height <= UNIT,
    ensures
        r@ == meta_token(
            ratio as int,
            height as int,
            mask_seq(vertex_valence_mask),
            regular_faces_only,
        ),
{
    let mut token = "m".to_owned();
    proof {
        reveal_strlit("m");
        reveal_strlit(",");
        reveal_strlit(",{t}");
    }
    let ghost first = token@;
    if ratio != DEFAULT_META_RATIO || height != DEFAULT_META_HEIGHT {
        push_fraction(&mut token, ratio);
        token.append(",");
        push_fraction(&mut token, height);
    }
    let ghost with_params = token@;
    match vertex_valence_mask {
        Some(mask) => {
            token.append(",");
            push_list(&mut token, mask);
        },
        None => {},
    }
    let ghost with_mask = token@;
    match regular_faces_only {
        Some(true) => {
            token.append(",{t}");
        },
        _ => {},
    }
    proof {
        assert(token@ =~= meta_token(
            ratio as int,
            height as int,
            mask_seq(vertex_valence_mask),
            regular_faces_only,
        ));
    }
    token
}

impl Polyhedron {
    /// Meta: kis of the join. `ratio` and `height` are in thousandths,
    /// clamped into `[0, UNIT]`, and default to `DEFAULT_META_RATIO` and
    /// `DEFAULT_META_HEIGHT`; the mask and the regularity filter apply to the
    /// faces of the join. With `change_name` the name gets the prefix
    /// `meta_token`.
    pub fn meta(
        &mut self,
        ratio: Option<i64>,
        height: Option<i64>,
        vertex_valence_mask: Option<&[usize]>,
        regular_faces_only: Option<bool>,
        change_name: bool,
    ) -> (r: &mut Self)
        requires
            old(self).wf(),
        ensures
            r.wf(),
            (r.positions@, r.face_seqs(), r.name@) == meta_spec(
                old(self).positions@,
                old(self).face_seqs(),
                old(self).name@,
                ratio,
                height,
                mask_seq(vertex_valence_mask),
                regular_faces_only,
                change_name,
            ),
            *final(self) == *final(r),
    {
        let ratio = match ratio {
            Some(r) => clamp_param(r),
            None => DEFAULT_META_RATIO,
        };
        let height = match height {
            Some(h) => clamp_param(h),
            None => DEFAULT_META_HEIGHT,
        };
        let joined = self.join(ratio);
        let mut result = joined.kis(height, vertex_valence_mask, regular_faces_only);
        if change_name {
            let mut name = token_text(ratio, height, vertex_valence_mask, regular_faces_only);
            name.append(self.name.as_str());
            result.name = name;
        }
        *self = result;
        self
    }

    /// Meta with the default ratio and height, no mask, all faces, renaming.
    pub fn m(&mut self) -> (r: &mut Self)
        requires
            old(self).wf(),
        ensures
            r.wf(),
            (r.positions@, r.face_seqs(), r.name@) == meta_spec(
                old(self).positions@,
                old(self).face_seqs(),
                old(self).name@,
                Some(DEFAULT_META_RATIO),
                Some(DEFAULT_META_HEIGHT),
                None,
                Some(false),
                true,
            ),
            *final(self) == *final(r),
    {
        self.meta(Some(DEFAULT_META_RATIO), Some(DEFAULT_META_HEIGHT), None, Some(false), true)
    }
}

} // verus!
